//! Read-only FAT12/16/32 driver over a block device: boot-sector parsing,
//! FAT-entry decoding in all three widths, cluster-chain traversal, 8.3
//! directory listing and path resolution.

use vstd::prelude::*;
use crate::block_device::BlockDevice;
use crate::errors::KernelError;

verus! {

/// The FAT variant, chosen by the volume's cluster count.
#[derive(Debug, Clone, Copy, PartialEq, Eq, Structural)]
pub enum FatType {
    Fat12,
    Fat16,
    Fat32,
}

/// FAT-specific failures, mapped onto `KernelError` at the driver's edge.
#[derive(Debug, Clone, Copy, PartialEq, Eq, Structural)]
pub enum FatError {
    InvalidSignature,
    UnsupportedFat,
    InvalidParameter,
    ReadError,
    WriteError,
    NotFound,
    AlreadyExists,
    DirectoryFull,
    NotADirectory,
    NotAFile,
    IoError,
}

impl FatError {
    /// The `KernelError` this FAT failure is reported as.
    pub open spec fn to_kernel_spec(self) -> KernelError {
        match self {
            FatError::InvalidSignature => KernelError::InvalidData,
            FatError::UnsupportedFat => KernelError::UnsupportedFeature,
            FatError::InvalidParameter => KernelError::InvalidParameter,
            FatError::ReadError => KernelError::ReadError,
            FatError::WriteError => KernelError::WriteError,
            FatError::NotFound => KernelError::NotFound,
            FatError::AlreadyExists => KernelError::AlreadyExists,
            FatError::DirectoryFull => KernelError::DirectoryFull,
            FatError::NotADirectory => KernelError::NotADirectory,
            FatError::NotAFile => KernelError::NotAFile,
            FatError::IoError => KernelError::IoError,
        }
    }
}

impl From<FatError> for KernelError {
    fn from(err: FatError) -> (r: KernelError) {
        match err {
            FatError::InvalidSignature => KernelError::InvalidData,
            FatError::UnsupportedFat => KernelError::UnsupportedFeature,
            FatError::InvalidParameter => KernelError::InvalidParameter,
            FatError::ReadError => KernelError::ReadError,
            FatError::WriteError => KernelError::WriteError,
            FatError::NotFound => KernelError::NotFound,
            FatError::AlreadyExists => KernelError::AlreadyExists,
            FatError::DirectoryFull => KernelError::DirectoryFull,
            FatError::NotADirectory => KernelError::NotADirectory,
            FatError::NotAFile => KernelError::NotAFile,
            FatError::IoError => KernelError::IoError,
        }
    }
}

impl vstd::std_specs::convert::FromSpecImpl<FatError> for KernelError {
    open spec fn obeys_from_spec() -> bool {
        true
    }

    open spec fn from_spec(err: FatError) -> KernelError {
        err.to_kernel_spec()
    }
}

// FAT directory-entry attribute bits.
pub const ATTR_READ_ONLY: u8 = 0x01;
pub const ATTR_HIDDEN: u8 = 0x02;
pub const ATTR_SYSTEM: u8 = 0x04;
pub const ATTR_VOLUME_ID: u8 = 0x08;
pub const ATTR_DIRECTORY: u8 = 0x10;
pub const ATTR_ARCHIVE: u8 = 0x20;
pub const ATTR_LONG_NAME: u8 = 0x0F;

/// The first FAT entry value that marks the end of a cluster chain.
pub const FAT_EOC: u32 = 0x0FFFFFF8;
/// The FAT entry value marking a bad cluster.
pub const FAT_BAD: u32 = 0x0FFFFFF7;

/// The little-endian 16-bit value at byte offset `off` of `b`.
pub open spec fn le16(b: Seq<u8>, off: int) -> nat {
    b[off] as nat + 256 * (b[off + 1] as nat)
}

/// The little-endian 32-bit value at byte offset `off` of `b`.
pub open spec fn le32(b: Seq<u8>, off: int) -> nat {
    le16(b, off) + 65536 * le16(b, off + 2)
}

/// Reads a little-endian 16-bit value from `b` at `off`.
pub fn read_le16(b: &Vec<u8>, off: usize) -> (r: u16)
    requires
        off + 2 <= b@.len(),
    ensures
        r as nat == le16(b@, off as int),
{
    proof {
        vstd::std_specs::vec::axiom_spec_len(b);
    }
    (b[off] as u16) + 256 * (b[off + 1] as u16)
}

/// Reads a little-endian 32-bit value from `b` at `off`.
pub fn read_le32(b: &Vec<u8>, off: usize) -> (r: u32)
    requires
        off + 4 <= b@.len(),
    ensures
        r as nat == le32(b@, off as int),
{
    proof {
        vstd::std_specs::vec::axiom_spec_len(b);
    }
    (b[off] as u32) + 256 * (b[off + 1] as u32) + 65536 * (b[off + 2] as u32)
        + 16777216 * (b[off + 3] as u32)
}

/// The FAT variant a volume with `total_clusters` data clusters uses:
/// fewer than 4085 clusters means FAT12, fewer than 65525 means FAT16,
/// anything else FAT32.
pub open spec fn fat_type_spec(total_clusters: nat) -> FatType {
    if total_clusters < 4085 {
        FatType::Fat12
    } else if total_clusters < 65525 {
        FatType::Fat16
    } else {
        FatType::Fat32
    }
}

/// Classifies a volume by its cluster count.
pub fn fat_type_of(total_clusters: u32) -> (r: FatType)
    ensures
        r == fat_type_spec(total_clusters as nat),
{
    if total_clusters < 4085 {
        FatType::Fat12
    } else if total_clusters < 65525 {
        FatType::Fat16
    } else {
        FatType::Fat32
    }
}

/// The 12-bit FAT12 entry packed into the two bytes `lo`, `hi`: an even
/// cluster number takes the low twelve bits, an odd one the high twelve.
pub open spec fn fat12_entry_spec(lo: u8, hi: u8, cluster_even: bool) -> nat {
    let v = lo as nat + 256 * (hi as nat);
    if cluster_even {
        v % 4096
    } else {
        v / 16
    }
}

/// Extracts a FAT12 entry from its two bytes.
pub fn fat12_entry(lo: u8, hi: u8, cluster_even: bool) -> (r: u32)
    ensures
        r as nat == fat12_entry_spec(lo, hi, cluster_even),
        r < 4096,
{
    let v: u32 = (lo as u32) + 256 * (hi as u32);
    if cluster_even {
        v % 4096
    } else {
        v / 16
    }
}

// Derived boot-sector quantities, each a function of the 512 bytes of the
// volume's first sector.

/// Bytes per sector.
pub open spec fn bs_bytes_per_sector(b: Seq<u8>) -> nat {
    le16(b, 11)
}

/// Sectors per cluster.
pub open spec fn bs_sectors_per_cluster(b: Seq<u8>) -> nat {
    b[13] as nat
}

/// Reserved sectors in front of the first FAT.
pub open spec fn bs_reserved_sectors(b: Seq<u8>) -> nat {
    le16(b, 14)
}

/// How many copies of the FAT the volume holds.
pub open spec fn bs_fat_count(b: Seq<u8>) -> nat {
    b[16] as nat
}

/// Entries of the fixed FAT12/16 root directory.
pub open spec fn bs_root_entry_count(b: Seq<u8>) -> nat {
    le16(b, 17)
}

/// Total sectors: the 16-bit field, or the 32-bit one when it is zero.
pub open spec fn bs_total_sectors(b: Seq<u8>) -> nat {
    if le16(b, 19) != 0 {
        le16(b, 19)
    } else {
        le32(b, 32)
    }
}

/// Sectors per FAT: the 16-bit field, or the 32-bit one when it is zero.
pub open spec fn bs_sectors_per_fat(b: Seq<u8>) -> nat {
    if le16(b, 22) != 0 {
        le16(b, 22)
    } else {
        le32(b, 36)
    }
}

/// The FAT32 root-directory cluster.
pub open spec fn bs_root_cluster(b: Seq<u8>) -> nat {
    le32(b, 44)
}

/// Sectors occupied by the fixed root directory, rounded up.
pub open spec fn bs_root_dir_sectors(b: Seq<u8>) -> nat {
    ((bs_root_entry_count(b) * 32 + bs_bytes_per_sector(b) - 1)
        / bs_bytes_per_sector(b) as int) as nat
}

/// The first sector holding file data.
pub open spec fn bs_first_data_sector(b: Seq<u8>) -> nat {
    bs_reserved_sectors(b) + bs_fat_count(b) * bs_sectors_per_fat(b)
        + bs_root_dir_sectors(b)
}

/// How many sectors hold file data.
pub open spec fn bs_data_sectors(b: Seq<u8>) -> nat {
    (bs_total_sectors(b) - bs_first_data_sector(b)) as nat
}

/// How many clusters the data region holds.
pub open spec fn bs_total_clusters(b: Seq<u8>) -> nat {
    bs_data_sectors(b) / bs_sectors_per_cluster(b)
}

/// A boot sector this driver accepts: the extended-boot signature byte is
/// `0x29` and the geometry is usable.
pub open spec fn bs_valid(b: Seq<u8>) -> bool {
    &&& b[66] == 0x29
    &&& bs_bytes_per_sector(b) == 512
    &&& bs_sectors_per_cluster(b) >= 1
    &&& bs_first_data_sector(b) <= bs_total_sectors(b)
}

/// The FAT entry of `cluster` on a volume whose FAT starts after
/// `reserved` sectors: twelve, sixteen or twenty-eight bits, little endian,
/// read from the device bytes `d`.
pub open spec fn fat_entry_spec(d: Seq<u8>, reserved: nat, ftype: FatType, cluster: nat)
    -> nat {
    let base = reserved * 512;
    match ftype {
        FatType::Fat12 => {
            let off = base + cluster * 3 / 2;
            fat12_entry_spec(d[off as int], d[off as int + 1], cluster % 2 == 0)
        },
        FatType::Fat16 => le16(d, (base + cluster * 2) as int),
        FatType::Fat32 => le32(d, (base + cluster * 4) as int) % 0x10000000,
    }
}

/// The byte offset of a cluster's FAT entry inside the FAT region.
pub open spec fn fat_offset_spec(ftype: FatType, cluster: nat) -> nat {
    match ftype {
        FatType::Fat12 => cluster * 3 / 2,
        FatType::Fat16 => cluster * 2,
        FatType::Fat32 => cluster * 4,
    }
}

/// Whether the sectors holding a cluster's FAT entry lie on the device:
/// one sector, or two when a FAT12 entry straddles a sector boundary.
pub open spec fn fat_entry_in_range(
    b: Seq<u8>,
    count: nat,
    ftype: FatType,
    cluster: nat,
) -> bool {
    let sector = bs_reserved_sectors(b) + fat_offset_spec(ftype, cluster) / 512;
    if ftype == FatType::Fat12 && fat_offset_spec(ftype, cluster) % 512 == 511 {
        sector + 2 <= count
    } else {
        sector + 1 <= count
    }
}

/// Whether all sectors of data cluster `cluster` lie on the device.
pub open spec fn cluster_in_range(b: Seq<u8>, count: nat, cluster: nat) -> bool {
    bs_first_data_sector(b) + (cluster - 2) * bs_sectors_per_cluster(b)
        + bs_sectors_per_cluster(b) <= count
}

/// The bytes of data cluster `cluster`: one cluster's worth of sectors
/// starting at the cluster's first sector.
pub open spec fn cluster_bytes(d: Seq<u8>, b: Seq<u8>, cluster: nat) -> Seq<u8> {
    let start = (bs_first_data_sector(b)
        + (cluster - 2) * bs_sectors_per_cluster(b)) * 512;
    Seq::new(bs_sectors_per_cluster(b) * 512, |i: int| d[start + i])
}

/// The first `len` bytes of the cluster chain that starts at `cluster`:
/// cluster after cluster, following the FAT, stopping at an end-of-chain
/// mark or once `len` bytes are gathered.
pub open spec fn chain_read(d: Seq<u8>, b: Seq<u8>, cluster: nat, len: nat) -> Seq<u8>
    decreases len,
{
    let bpc = bs_sectors_per_cluster(b) * 512;
    if len == 0 || cluster >= 0x0FFFFFF8 || cluster < 2 || bpc < 1 {
        Seq::empty()
    } else {
        let cb = cluster_bytes(d, b, cluster);
        if len <= bpc {
            cb.take(len as int)
        } else {
            let nxt = fat_entry_spec(d, bs_reserved_sectors(b),
                fat_type_spec(bs_total_clusters(b)), cluster);
            if nxt >= 0x0FFFFFF8 {
                cb
            } else {
                cb + chain_read(d, b, nxt, (len - bpc) as nat)
            }
        }
    }
}

/// A fresh zero-filled byte buffer of length `n`.
fn zero_vec(n: usize) -> (r: Vec<u8>)
    ensures
        r@.len() == n,
{
    let mut v: Vec<u8> = Vec::new();
    let mut i: usize = 0;
    while i < n
        invariant
            i <= n,
            v@.len() == i,
        decreases n - i,
    {
        v.push(0u8);
        i = i + 1;
    }
    v
}

/// One 32-byte FAT directory entry, as stored on disk.
#[derive(Debug, Clone, Copy)]
pub struct FatDirEntry {
    pub name: [u8; 8],
    pub ext: [u8; 3],
    pub attr: u8,
    pub reserved: u8,
    pub create_time_tenth: u8,
    pub create_time: u16,
    pub create_date: u16,
    pub access_date: u16,
    pub cluster_high: u16,
    pub modify_time: u16,
    pub modify_date: u16,
    pub cluster_low: u16,
    pub size: u32,
}

/// The mathematical image of a directory entry.
pub ghost struct FatDirEntryView {
    pub name: Seq<u8>,
    pub ext: Seq<u8>,
    pub attr: u8,
    pub reserved: u8,
    pub create_time_tenth: u8,
    pub create_time: u16,
    pub create_date: u16,
    pub access_date: u16,
    pub cluster_high: u16,
    pub modify_time: u16,
    pub modify_date: u16,
    pub cluster_low: u16,
    pub size: u32,
}

impl View for FatDirEntry {
    type V = FatDirEntryView;

    open spec fn view(&self) -> FatDirEntryView {
        FatDirEntryView {
            name: self.name@,
            ext: self.ext@,
            attr: self.attr,
            reserved: self.reserved,
            create_time_tenth: self.create_time_tenth,
            create_time: self.create_time,
            create_date: self.create_date,
            access_date: self.access_date,
            cluster_high: self.cluster_high,
            modify_time: self.modify_time,
            modify_date: self.modify_date,
            cluster_low: self.cluster_low,
            size: self.size,
        }
    }
}

/// The directory entry whose 32 bytes start at offset `o` of `b`.
pub open spec fn dir_entry_view_at(b: Seq<u8>, o: int) -> FatDirEntryView {
    FatDirEntryView {
        name: b.subrange(o, o + 8),
        ext: b.subrange(o + 8, o + 11),
        attr: b[o + 11],
        reserved: b[o + 12],
        create_time_tenth: b[o + 13],
        create_time: le16(b, o + 14) as u16,
        create_date: le16(b, o + 16) as u16,
        access_date: le16(b, o + 18) as u16,
        cluster_high: le16(b, o + 20) as u16,
        modify_time: le16(b, o + 22) as u16,
        modify_date: le16(b, o + 24) as u16,
        cluster_low: le16(b, o + 26) as u16,
        size: le32(b, o + 28) as u32,
    }
}

/// The live entries parsed from a directory region, scanning 32-byte
/// records from offset `i`: a record with a zero lead byte ends the
/// directory, one with lead byte `0xE5` is deleted and skipped.
pub open spec fn parse_dir_entries(b: Seq<u8>, i: nat) -> Seq<FatDirEntryView>
    decreases b.len() - i,
{
    if i + 32 > b.len() {
        Seq::empty()
    } else if b[i as int] == 0 {
        Seq::empty()
    } else if b[i as int] == 0xE5 {
        parse_dir_entries(b, i + 32)
    } else {
        seq![dir_entry_view_at(b, i as int)] + parse_dir_entries(b, i + 32)
    }
}

/// Parses the 32-byte directory entry at offset `o`.
pub fn parse_dir_entry(b: &Vec<u8>, o: usize) -> (r: FatDirEntry)
    requires
        o + 32 <= b@.len(),
    ensures
        r@ == dir_entry_view_at(b@, o as int),
{
    proof {
        vstd::std_specs::vec::axiom_spec_len(b);
    }
    let name: [u8; 8] = [
        b[o], b[o + 1], b[o + 2], b[o + 3], b[o + 4], b[o + 5], b[o + 6], b[o + 7],
    ];
    let ext: [u8; 3] = [b[o + 8], b[o + 9], b[o + 10]];
    let r = FatDirEntry {
        name,
        ext,
        attr: b[o + 11],
        reserved: b[o + 12],
        create_time_tenth: b[o + 13],
        create_time: read_le16(b, o + 14),
        create_date: read_le16(b, o + 16),
        access_date: read_le16(b, o + 18),
        cluster_high: read_le16(b, o + 20),
        modify_time: read_le16(b, o + 22),
        modify_date: read_le16(b, o + 24),
        cluster_low: read_le16(b, o + 26),
        size: read_le32(b, o + 28),
    };
    proof {
        assert(r.name@ =~= b@.subrange(o as int, o as int + 8));
        assert(r.ext@ =~= b@.subrange(o as int + 8, o as int + 11));
    }
    r
}

/// The views of a parsed entry list.
pub open spec fn entry_views(es: Seq<FatDirEntry>) -> Seq<FatDirEntryView> {
    es.map_values(|e: FatDirEntry| e@)
}

/// Parses every live directory entry of a directory region.
pub fn parse_entries(b: &Vec<u8>) -> (r: Vec<FatDirEntry>)
    ensures
        entry_views(r@) == parse_dir_entries(b@, 0),
{
    let n = b.len();
    let mut res: Vec<FatDirEntry> = Vec::new();
    let mut i: usize = 0;
    proof {
        assert(entry_views(res@) + parse_dir_entries(b@, 0)
            =~= parse_dir_entries(b@, 0));
    }
    while n >= 32 && i <= n - 32
        invariant
            n == b@.len(),
            i <= n || n < 32,
            parse_dir_entries(b@, 0)
                == entry_views(res@) + parse_dir_entries(b@, i as nat),
        decreases n - i,
    {
        if b[i] == 0 {
            proof {
                assert(parse_dir_entries(b@, i as nat) =~= Seq::<FatDirEntryView>::empty());
                assert(entry_views(res@) =~= parse_dir_entries(b@, 0));
            }
            return res;
        }
        if b[i] != 0xE5 {
            let e = parse_dir_entry(b, i);
            let ghost res0 = res@;
            res.push(e);
            proof {
                assert(entry_views(res@)
                    =~= entry_views(res0).push(dir_entry_view_at(b@, i as int)));
                assert(parse_dir_entries(b@, i as nat)
                    =~= seq![dir_entry_view_at(b@, i as int)]
                        + parse_dir_entries(b@, i as nat + 32));
                assert(parse_dir_entries(b@, 0)
                    =~= entry_views(res@) + parse_dir_entries(b@, i as nat + 32));
            }
        }
        i = i + 32;
    }
    proof {
        assert(parse_dir_entries(b@, i as nat) =~= Seq::<FatDirEntryView>::empty());
        assert(entry_views(res@) =~= parse_dir_entries(b@, 0));
    }
    res
}

/// How many leading bytes of an 8.3 name field are in use: everything up
/// to the first padding space.
pub open spec fn name_part_len(s: Seq<u8>) -> nat
    decreases s.len(),
{
    if s.len() == 0 {
        0
    } else if s[0] == 32 {
        0
    } else {
        1 + name_part_len(s.drop_first())
    }
}

/// The used prefix stops at the first space and nowhere earlier.
pub proof fn lemma_name_part_len(s: Seq<u8>)
    ensures
        name_part_len(s) <= s.len(),
        forall|j: int| 0 <= j < name_part_len(s) ==> s[j] != 32,
        name_part_len(s) < s.len() ==> s[name_part_len(s) as int] == 32,
    decreases s.len(),
{
    if s.len() > 0 && s[0] != 32 {
        lemma_name_part_len(s.drop_first());
        let v = s.drop_first();
        assert forall|j: int| 0 <= j < name_part_len(s) implies s[j] != 32 by {
            if j > 0 {
                assert(v[j - 1] != 32);
            }
        }
    }
}

/// The bytes of an 8.3 name field as characters.
pub open spec fn bytes_to_chars(s: Seq<u8>) -> Seq<char> {
    Seq::new(s.len(), |i: int| s[i] as char)
}

/// The display form of an 8.3 name: the used base, then a dot and the used
/// extension when the extension is nonempty.
pub open spec fn fat_name_chars(name: Seq<u8>, ext: Seq<u8>) -> Seq<char> {
    let base = bytes_to_chars(name.take(name_part_len(name) as int));
    if name_part_len(ext) > 0 {
        base + seq!['.'] + bytes_to_chars(ext.take(name_part_len(ext) as int))
    } else {
        base
    }
}

/// Finds the used length of an 8.3 name field.
fn used_len(s: &[u8]) -> (r: usize)
    ensures
        r == name_part_len(s@),
{
    proof {
        lemma_name_part_len(s@);
    }
    let n = s.len();
    let mut k: usize = 0;
    while k < n && s[k] != 32
        invariant
            n == s@.len(),
            k <= n,
            forall|j: int| 0 <= j < k ==> s@[j] != 32,
            name_part_len(s@) <= s@.len(),
            forall|j: int| 0 <= j < name_part_len(s@) ==> s@[j] != 32,
            name_part_len(s@) < s@.len() ==> s@[name_part_len(s@) as int] == 32,
            k <= name_part_len(s@),
        decreases n - k,
    {
        k = k + 1;
    }
    k
}

/// Converts an 8.3 name and extension to a display string: trailing spaces
/// are trimmed and a dot joins the parts when an extension is present.
pub fn fat_name_to_string(name: &[u8; 8], ext: &[u8; 3]) -> (r: String)
    ensures
        r@ == fat_name_chars(name@, ext@),
{
    proof {
        vstd::array::axiom_spec_array_as_slice(name);
        vstd::array::axiom_spec_array_as_slice(ext);
        lemma_name_part_len(name@);
        lemma_name_part_len(ext@);
    }
    let mut out = String::new();
    let base_len = used_len(name.as_slice());
    let mut i: usize = 0;
    while i < base_len
        invariant
            base_len <= name@.len(),
            i <= base_len,
            out@ == bytes_to_chars(name@.take(base_len as int)).take(i as int),
        decreases base_len - i,
    {
        crate::strutil::push_char(&mut out, name[i] as char);
        proof {
            assert(out@ =~= bytes_to_chars(name@.take(base_len as int))
                .take(i + 1));
        }
        i = i + 1;
    }
    proof {
        assert(out@ =~= bytes_to_chars(name@.take(base_len as int)));
    }
    let ext_len = used_len(ext.as_slice());
    if ext_len > 0 {
        crate::strutil::push_char(&mut out, '.');
        let mut j: usize = 0;
        while j < ext_len
            invariant
                base_len <= name@.len(),
                ext_len <= ext@.len(),
                ext_len == name_part_len(ext@),
                j <= ext_len,
                out@ == bytes_to_chars(name@.take(base_len as int)) + seq!['.']
                    + bytes_to_chars(ext@.take(ext_len as int)).take(j as int),
            decreases ext_len - j,
        {
            crate::strutil::push_char(&mut out, ext[j] as char);
            proof {
                assert(out@ =~= bytes_to_chars(name@.take(base_len as int))
                    + seq!['.']
                    + bytes_to_chars(ext@.take(ext_len as int)).take(j + 1));
            }
            j = j + 1;
        }
        proof {
            assert(bytes_to_chars(ext@.take(ext_len as int)).take(ext_len as int)
                =~= bytes_to_chars(ext@.take(ext_len as int)));
            assert(out@ =~= fat_name_chars(name@, ext@));
        }
    } else {
        proof {
            assert(out@ =~= fat_name_chars(name@, ext@));
        }
    }
    out
}

/// The display name of an entry, as characters.
pub open spec fn entry_display(e: FatDirEntryView) -> Seq<char> {
    fat_name_chars(e.name, e.ext)
}

/// The first entry of `es` whose display name equals `name` ignoring ASCII
/// case.
pub open spec fn find_first(es: Seq<FatDirEntryView>, name: Seq<char>)
    -> Option<FatDirEntryView>
    decreases es.len(),
{
    if es.len() == 0 {
        None
    } else if crate::strutil::eq_ignore_case(entry_display(es[0]), name) {
        Some(es[0])
    } else {
        find_first(es.drop_first(), name)
    }
}

/// The bytes of the fixed FAT12/16 root-directory region: the whole
/// sectors that the root entries occupy, right after the FAT copies.
pub open spec fn root_dir_region(d: Seq<u8>, b: Seq<u8>) -> Seq<u8> {
    let start = (bs_reserved_sectors(b) + bs_fat_count(b) * bs_sectors_per_fat(b))
        as int;
    Seq::new((bs_root_entry_count(b) * 32 / 512) * 512, |k: int| d[start * 512 + k])
}

/// Whether a bounded read of the chain at `cluster` stays on the device:
/// every cluster visited before the buffer fills lies within the sector
/// count, and so does each FAT entry followed.
pub open spec fn chain_ok(d: Seq<u8>, b: Seq<u8>, count: nat, cluster: nat, len: nat)
    -> bool
    decreases len,
{
    let bpc = bs_sectors_per_cluster(b) * 512;
    if len == 0 || cluster >= 0x0FFFFFF8 || bpc < 1 {
        true
    } else if cluster < 2 || !cluster_in_range(b, count, cluster) {
        false
    } else if len <= bpc {
        true
    } else if !fat_entry_in_range(b, count, fat_type_spec(bs_total_clusters(b)),
        cluster) {
        false
    } else {
        let nxt = fat_entry_spec(d, bs_reserved_sectors(b),
            fat_type_spec(bs_total_clusters(b)), cluster);
        nxt >= 0x0FFFFFF8 || chain_ok(d, b, count, nxt, (len - bpc) as nat)
    }
}

/// Whether the fixed FAT12/16 root-directory region lies on the device.
pub open spec fn root_region_in_range(b: Seq<u8>, count: nat) -> bool {
    bs_root_entry_count(b) * 32 / 512 == 0
        || bs_reserved_sectors(b) + bs_fat_count(b) * bs_sectors_per_fat(b)
            + bs_root_entry_count(b) * 32 / 512 <= count
}

/// The entries gathered by following a directory's cluster chain for at
/// most `fuel` clusters; `None` when the chain does not end within `fuel`.
pub open spec fn dir_chain_entries(d: Seq<u8>, b: Seq<u8>, cluster: nat, fuel: nat)
    -> Option<Seq<FatDirEntryView>>
    decreases fuel,
{
    if cluster >= 0x0FFFFFF8 {
        Some(Seq::empty())
    } else if fuel == 0 {
        None
    } else {
        let es = parse_dir_entries(cluster_bytes(d, b, cluster), 0);
        let nxt = fat_entry_spec(d, bs_reserved_sectors(b),
            fat_type_spec(bs_total_clusters(b)), cluster);
        if nxt >= 0x0FFFFFF8 {
            Some(es)
        } else {
            match dir_chain_entries(d, b, nxt, (fuel - 1) as nat) {
                Some(rest) => Some(es + rest),
                None => None,
            }
        }
    }
}

/// The entries of the volume's root directory: for FAT32 the chain at the
/// root cluster, otherwise the parsed fixed region.
pub open spec fn root_listing(d: Seq<u8>, b: Seq<u8>, es: Seq<FatDirEntryView>)
    -> bool {
    if fat_type_spec(bs_total_clusters(b)) == FatType::Fat32 {
        exists|fuel: nat| dir_chain_entries(d, b, bs_root_cluster(b), fuel) == Some(es)
    } else {
        es == parse_dir_entries(root_dir_region(d, b), 0)
    }
}

/// A path with one leading slash removed.
pub open spec fn strip_slash(p: Seq<char>) -> Seq<char> {
    if p.len() >= 1 && p[0] == '/' {
        p.drop_first()
    } else {
        p
    }
}

/// The synthesized directory entry of the root directory: a blank 8.3
/// name, the directory attribute, and for FAT32 the low half of the root
/// cluster.
pub open spec fn fat_root_entry_spec(b: Seq<u8>) -> FatDirEntryView {
    FatDirEntryView {
        name: Seq::new(8, |i: int| 32u8),
        ext: Seq::new(3, |i: int| 32u8),
        attr: 0x10,
        reserved: 0,
        create_time_tenth: 0,
        create_time: 0,
        create_date: 0,
        access_date: 0,
        cluster_high: 0,
        modify_time: 0,
        modify_date: 0,
        cluster_low: if fat_type_spec(bs_total_clusters(b)) == FatType::Fat32 {
            (bs_root_cluster(b) % 0x10000) as u16
        } else {
            0
        },
        size: 0,
    }
}

/// Whether walking `comps` from the listing `entries` reaches `result`:
/// each component is looked up without regard to ASCII case, intermediate
/// hits must be directories, and their listings come from their cluster
/// chains.
pub open spec fn fat_resolves(
    d: Seq<u8>,
    b: Seq<u8>,
    entries: Seq<FatDirEntryView>,
    comps: Seq<Seq<char>>,
    result: FatDirEntryView,
) -> bool
    decreases comps.len(),
{
    if comps.len() == 0 {
        false
    } else if comps.len() == 1 {
        find_first(entries, comps[0]) == Some(result)
    } else {
        exists|e: FatDirEntryView, sub: Seq<FatDirEntryView>, fuel: nat|
            {
                &&& find_first(entries, comps[0]) == Some(e)
                &&& e.attr & 0x10 != 0
                &&& #[trigger] chain_lists(d, b, cluster_of(e), fuel, sub)
                &&& fat_resolves(d, b, sub, comps.drop_first(), result)
            }
    }
}

/// The starting cluster an entry points at, from its split halves.
pub open spec fn cluster_of(e: FatDirEntryView) -> nat {
    (e.cluster_high * 0x10000 + e.cluster_low) as nat
}

/// Prefixes `pre` onto a chain listing when the chain terminated.
pub open spec fn opt_prepend(
    pre: Seq<FatDirEntryView>,
    o: Option<Seq<FatDirEntryView>>,
) -> Option<Seq<FatDirEntryView>> {
    match o {
        Some(r) => Some(pre + r),
        None => None,
    }
}

/// Whether the chain at `cluster` ends within `fuel` steps and lists `sub`.
pub open spec fn chain_lists(
    d: Seq<u8>,
    b: Seq<u8>,
    cluster: nat,
    fuel: nat,
    sub: Seq<FatDirEntryView>,
) -> bool {
    dir_chain_entries(d, b, cluster, fuel) == Some(sub)
}

/// Why walking `comps` from the listing `entries` fails with `e`: a
/// missing component is `NotFound`, a non-directory met before the final
/// component is `NotADirectory`, and a directory whose chain could not be
/// read surfaces the device error.
pub open spec fn fat_resolves_err(
    d: Seq<u8>,
    b: Seq<u8>,
    entries: Seq<FatDirEntryView>,
    comps: Seq<Seq<char>>,
    e: KernelError,
) -> bool
    decreases comps.len(),
{
    if comps.len() == 0 {
        false
    } else {
        match find_first(entries, comps[0]) {
            None => e == KernelError::NotFound,
            Some(entry) => comps.len() > 1 && {
                if entry.attr & 0x10 == 0 {
                    e == KernelError::NotADirectory
                } else {
                    ||| e == KernelError::ReadError
                    ||| e == KernelError::InvalidData
                    ||| exists|sub: Seq<FatDirEntryView>, fuel: nat|
                        #[trigger] chain_lists(d, b, cluster_of(entry), fuel, sub)
                            && fat_resolves_err(d, b, sub, comps.drop_first(), e)
                }
            },
        }
    }
}

/// Why resolving `path` fails with `e`: the path is not the root, and
/// either the root listing could not be read or the walk itself fails.
pub open spec fn fat_path_err(d: Seq<u8>, b: Seq<u8>, path: Seq<char>, e: KernelError)
    -> bool {
    let sp = strip_slash(path);
    sp.len() != 0 && {
        ||| e == KernelError::ReadError
        ||| e == KernelError::InvalidData
        ||| exists|entries0: Seq<FatDirEntryView>|
            #[trigger] root_listing(d, b, entries0)
                && fat_resolves_err(d, b, entries0,
                    crate::path::split_slashes(sp), e)
    }
}

/// Why listing `path` fails with `e`: the resolution fails, or the path
/// resolves to a non-directory, or the directory's own listing could not
/// be read.
pub open spec fn fat_read_dir_err(d: Seq<u8>, b: Seq<u8>, path: Seq<char>, e: KernelError)
    -> bool {
    ||| fat_path_err(d, b, path, e)
    ||| exists|ev: FatDirEntryView|
        #[trigger] fat_path_entry(d, b, path, ev) && ev.attr & 0x10 == 0
            && e == KernelError::NotADirectory
    ||| exists|ev: FatDirEntryView|
        #[trigger] fat_path_entry(d, b, path, ev) && ev.attr & 0x10 != 0
            && (e == KernelError::ReadError || e == KernelError::InvalidData)
}

/// Whether `entry` is what resolving `path` on the volume returns: the
/// synthesized root entry for the empty path, else the walk from the root
/// listing through every path component.
pub open spec fn fat_path_entry(
    d: Seq<u8>,
    b: Seq<u8>,
    path: Seq<char>,
    entry: FatDirEntryView,
) -> bool {
    let stripped = strip_slash(path);
    if stripped.len() == 0 {
        entry == fat_root_entry_spec(b)
    } else {
        exists|entries0: Seq<FatDirEntryView>|
            #[trigger] root_listing(d, b, entries0)
                && fat_resolves(d, b, entries0, crate::path::split_slashes(stripped),
                    entry)
    }
}

/// The metadata reported for a resolved entry: kind from the directory
/// bit, size from the entry, permissions from the read-only bit.
pub open spec fn fat_metadata_spec(ev: FatDirEntryView) -> crate::vfs::Metadata {
    crate::vfs::Metadata {
        node_type: if ev.attr & 0x10 != 0 {
            crate::vfs::NodeType::Directory
        } else {
            crate::vfs::NodeType::File
        },
        size: ev.size as u64,
        permissions: if ev.attr & 0x01 != 0 { 0b0001_0001 } else { 0b0011_0011 },
        created_at: 0,
        modified_at: 0,
        accessed_at: 0,
    }
}

/// Whether a listing row is shown: dot entries and volume labels are not.
pub open spec fn entry_visible(ev: FatDirEntryView) -> bool {
    ev.name[0] != 46 && ev.attr & 0x08 == 0
}

/// The listing row of an entry: display name, node kind, and a zero inode
/// (FAT has no inode numbers).
pub open spec fn row_of(ev: FatDirEntryView) -> (Seq<char>, crate::vfs::NodeType, usize) {
    (
        entry_display(ev),
        if ev.attr & 0x10 != 0 {
            crate::vfs::NodeType::Directory
        } else {
            crate::vfs::NodeType::File
        },
        0usize,
    )
}

/// The rows of the visible entries of a listing, in order.
pub open spec fn visible_rows(es: Seq<FatDirEntryView>)
    -> Seq<(Seq<char>, crate::vfs::NodeType, usize)>
    decreases es.len(),
{
    if es.len() == 0 {
        Seq::empty()
    } else {
        let rest = visible_rows(es.drop_first());
        if entry_visible(es[0]) {
            seq![row_of(es[0])] + rest
        } else {
            rest
        }
    }
}

/// The listing a directory path shows: the root region for the root of a
/// FAT12/16 volume, otherwise the entry's cluster chain.
pub open spec fn fat_dir_listing(
    d: Seq<u8>,
    b: Seq<u8>,
    path: Seq<char>,
    ev: FatDirEntryView,
    listing: Seq<FatDirEntryView>,
) -> bool {
    if path == seq!['/'] && fat_type_spec(bs_total_clusters(b)) != FatType::Fat32 {
        root_listing(d, b, listing)
    } else {
        exists|fuel: nat| #[trigger] chain_lists(d, b, cluster_of(ev), fuel, listing)
    }
}

/// The rows a listing result holds.
pub open spec fn dir_rows(v: Seq<crate::vfs::DirEntry>)
    -> Seq<(Seq<char>, crate::vfs::NodeType, usize)> {
    v.map_values(|de: crate::vfs::DirEntry| (de.name@, de.node_type, de.inode))
}

/// The parsed BIOS parameter block of sector zero.
#[derive(Debug, Clone, Copy)]
pub struct FatBootSector {
    pub bytes_per_sector: u16,
    pub sectors_per_cluster: u8,
    pub reserved_sectors: u16,
    pub fat_count: u8,
    pub root_entry_count: u16,
    pub total_sectors_16: u16,
    pub media_type: u8,
    pub sectors_per_fat_16: u16,
    pub sectors_per_track: u16,
    pub head_count: u16,
    pub hidden_sectors: u32,
    pub total_sectors_32: u32,
    pub sectors_per_fat_32: u32,
    pub extended_flags: u16,
    pub fs_version: u16,
    pub root_cluster: u32,
    pub fs_info_sector: u16,
    pub backup_boot_sector: u16,
    pub drive_number: u8,
    pub boot_signature: u8,
    pub volume_id: u32,
}

impl FatBootSector {
    /// Parses the fixed-offset fields of sector zero.
    pub fn parse(b: &Vec<u8>) -> (r: FatBootSector)
        requires
            b@.len() >= 512,
        ensures
            r.bytes_per_sector as nat == le16(b@, 11),
            r.sectors_per_cluster == b@[13],
            r.reserved_sectors as nat == le16(b@, 14),
            r.fat_count == b@[16],
            r.root_entry_count as nat == le16(b@, 17),
            r.total_sectors_16 as nat == le16(b@, 19),
            r.media_type == b@[21],
            r.sectors_per_fat_16 as nat == le16(b@, 22),
            r.sectors_per_track as nat == le16(b@, 24),
            r.head_count as nat == le16(b@, 26),
            r.hidden_sectors as nat == le32(b@, 28),
            r.total_sectors_32 as nat == le32(b@, 32),
            r.sectors_per_fat_32 as nat == le32(b@, 36),
            r.extended_flags as nat == le16(b@, 40),
            r.fs_version as nat == le16(b@, 42),
            r.root_cluster as nat == le32(b@, 44),
            r.fs_info_sector as nat == le16(b@, 48),
            r.backup_boot_sector as nat == le16(b@, 50),
            r.drive_number == b@[64],
            r.boot_signature == b@[66],
            r.volume_id as nat == le32(b@, 67),
    {
        FatBootSector {
            bytes_per_sector: read_le16(b, 11),
            sectors_per_cluster: b[13],
            reserved_sectors: read_le16(b, 14),
            fat_count: b[16],
            root_entry_count: read_le16(b, 17),
            total_sectors_16: read_le16(b, 19),
            media_type: b[21],
            sectors_per_fat_16: read_le16(b, 22),
            sectors_per_track: read_le16(b, 24),
            head_count: read_le16(b, 26),
            hidden_sectors: read_le32(b, 28),
            total_sectors_32: read_le32(b, 32),
            sectors_per_fat_32: read_le32(b, 36),
            extended_flags: read_le16(b, 40),
            fs_version: read_le16(b, 42),
            root_cluster: read_le32(b, 44),
            fs_info_sector: read_le16(b, 48),
            backup_boot_sector: read_le16(b, 50),
            drive_number: b[64],
            boot_signature: b[66],
            volume_id: read_le32(b, 67),
        }
    }
}

/// The read-only FAT filesystem driver.
pub struct FatFileSystem<D: BlockDevice> {
    device: D,
    fat_type: FatType,
    bytes_per_sector: u16,
    sectors_per_cluster: u8,
    sectors_per_fat: u32,
    fat_count: u8,
    reserved_sectors: u16,
    root_entry_count: u16,
    root_directory_sectors: u32,
    first_data_sector: u32,
    first_fat_sector: u32,
    data_sectors: u32,
    total_clusters: u32,
    root_cluster: u32,
}

impl<D: BlockDevice> FatFileSystem<D> {
    /// The bytes of the underlying device.
    pub closed spec fn disk(&self) -> Seq<u8> {
        self.device.spec_data()
    }

    /// The first 512 bytes of the device: the boot sector.
    pub closed spec fn boot_bytes(&self) -> Seq<u8> {
        self.device.spec_data().subrange(0, 512)
    }

    /// The driver's runtime parameters agree with the boot sector and the
    /// device is usable.
    pub closed spec fn wf(&self) -> bool {
        let b = self.boot_bytes();
        &&& self.device.inv()
        &&& self.device.spec_block_size() == 512
        &&& self.device.spec_block_count() >= 1
        &&& bs_valid(b)
        &&& self.bytes_per_sector as nat == bs_bytes_per_sector(b)
        &&& self.bytes_per_sector == 512
        &&& self.sectors_per_cluster as nat == bs_sectors_per_cluster(b)
        &&& self.reserved_sectors as nat == bs_reserved_sectors(b)
        &&& self.fat_count as nat == bs_fat_count(b)
        &&& self.root_entry_count as nat == bs_root_entry_count(b)
        &&& self.sectors_per_fat as nat == bs_sectors_per_fat(b)
        &&& self.root_directory_sectors as nat == bs_root_dir_sectors(b)
        &&& self.first_fat_sector as nat == bs_reserved_sectors(b)
        &&& self.first_data_sector as nat == bs_first_data_sector(b)
        &&& self.data_sectors as nat == bs_data_sectors(b)
        &&& self.total_clusters as nat == bs_total_clusters(b)
        &&& self.fat_type == fat_type_spec(bs_total_clusters(b))
        &&& (self.fat_type == FatType::Fat32
            ==> self.root_cluster as nat == bs_root_cluster(b))
        &&& (self.fat_type != FatType::Fat32 ==> self.root_cluster == 0)
    }

    /// The FAT variant of the mounted volume.
    pub closed spec fn fat_type_of_fs(&self) -> FatType {
        self.fat_type
    }

    /// How many 512-byte sectors the underlying device holds.
    pub closed spec fn sector_count(&self) -> nat {
        self.device.spec_block_count()
    }

    /// The public face of well-formedness: the boot sector is the first 512
    /// device bytes, it is valid, the FAT variant follows the cluster-count
    /// classification, and the device bytes are whole sectors.
    pub proof fn lemma_wf_facts(&self)
        requires
            self.wf(),
        ensures
            self.boot_bytes() == self.disk().subrange(0, 512),
            bs_valid(self.boot_bytes()),
            self.fat_type_of_fs() == fat_type_spec(bs_total_clusters(self.boot_bytes())),
            self.disk().len() == self.sector_count() * 512,
            self.sector_count() >= 1,
    {
        self.device.inv_properties();
        assert(self.disk().len() == self.sector_count() * 512) by (nonlinear_arith)
            requires
                self.disk().len()
                    == self.device.spec_block_size() * self.device.spec_block_count(),
                self.device.spec_block_size() == 512,
                self.sector_count() == self.device.spec_block_count(),
        ;
    }

    /// Mounts a FAT filesystem: reads sector zero, checks the extended
    /// boot signature, and derives every runtime parameter.
    pub fn new(device: D) -> (r: Result<FatFileSystem<D>, KernelError>)
        requires
            device.inv(),
        ensures
            r is Ok <==> device.spec_block_size() == 512
                && device.spec_block_count() >= 1
                && bs_valid(device.spec_data().subrange(0, 512)),
            match r {
                Ok(fs) => {
                    &&& fs.wf()
                    &&& fs.disk() == device.spec_data()
                    &&& fs.sector_count() == device.spec_block_count()
                },
                Err(e) => {
                    &&& (e == KernelError::ReadError
                        <==> device.spec_block_size() != 512
                            || device.spec_block_count() == 0)
                    &&& (e == KernelError::InvalidData
                        <==> device.spec_block_size() == 512
                            && device.spec_block_count() >= 1
                            && !bs_valid(device.spec_data().subrange(0, 512)))
                },
            },
    {
        let mut buffer: Vec<u8> = Vec::new();
        let mut i: usize = 0;
        while i < 512
            invariant
                i <= 512,
                buffer@.len() == i,
            decreases 512 - i,
        {
            buffer.push(0u8);
            i = i + 1;
        }
        let read = device.read_block(0, &mut buffer);
        if read.is_err() {
            return Err(KernelError::from(FatError::ReadError));
        }
        proof {
            device.inv_properties();
            assert(buffer@ =~= device.spec_data().subrange(0, 512));
        }
        let boot = FatBootSector::parse(&buffer);
        if boot.boot_signature != 0x29 {
            return Err(KernelError::from(FatError::InvalidSignature));
        }
        if boot.bytes_per_sector != 512 || boot.sectors_per_cluster == 0 {
            return Err(KernelError::InvalidData);
        }
        let total_sectors: u32 = if boot.total_sectors_16 != 0 {
            boot.total_sectors_16 as u32
        } else {
            boot.total_sectors_32
        };
        let sectors_per_fat: u32 = if boot.sectors_per_fat_16 != 0 {
            boot.sectors_per_fat_16 as u32
        } else {
            boot.sectors_per_fat_32
        };
        let root_directory_sectors: u32 = ((boot.root_entry_count as u32) * 32
            + (boot.bytes_per_sector as u32) - 1) / (boot.bytes_per_sector as u32);
        let first_fat_sector: u32 = boot.reserved_sectors as u32;
        proof {
            assert((boot.fat_count as int) * (sectors_per_fat as int)
                <= 255 * 0xFFFFFFFFu64) by (nonlinear_arith)
                requires
                    boot.fat_count as int <= 255,
                    0 <= sectors_per_fat as int <= 0xFFFFFFFFu64,
            ;
        }
        let first_data_sector_64: u64 = boot.reserved_sectors as u64
            + (boot.fat_count as u64) * (sectors_per_fat as u64)
            + root_directory_sectors as u64;
        if first_data_sector_64 > total_sectors as u64 {
            return Err(KernelError::InvalidData);
        }
        let first_data_sector: u32 = first_data_sector_64 as u32;
        let data_sectors: u32 = total_sectors - first_data_sector;
        let total_clusters: u32 = data_sectors / (boot.sectors_per_cluster as u32);
        let fat_type = fat_type_of(total_clusters);
        let root_cluster: u32 = match fat_type {
            FatType::Fat32 => boot.root_cluster,
            _ => 0,
        };
        let fs = FatFileSystem {
            device,
            fat_type,
            bytes_per_sector: boot.bytes_per_sector,
            sectors_per_cluster: boot.sectors_per_cluster,
            sectors_per_fat,
            fat_count: boot.fat_count,
            reserved_sectors: boot.reserved_sectors,
            root_entry_count: boot.root_entry_count,
            root_directory_sectors,
            first_data_sector,
            first_fat_sector,
            data_sectors,
            total_clusters,
            root_cluster,
        };
        Ok(fs)
    }

    /// Reads the FAT entry of `cluster`: the number of the next cluster in
    /// the chain, or an end-of-chain or bad-cluster mark.
    pub fn read_fat_entry(&self, cluster: u32) -> (r: Result<u32, KernelError>)
        requires
            self.wf(),
        ensures
            r is Ok <==> fat_entry_in_range(self.boot_bytes(), self.sector_count(),
                self.fat_type_of_fs(), cluster as nat),
            match r {
                Ok(v) => v as nat == fat_entry_spec(
                    self.disk(),
                    bs_reserved_sectors(self.boot_bytes()),
                    self.fat_type_of_fs(),
                    cluster as nat,
                ),
                Err(e) => e == KernelError::ReadError,
            },
    {
        proof {
            self.device.inv_properties();
        }
        let ghost goff = fat_offset_spec(self.fat_type_of_fs(), cluster as nat);
        let fat_offset: u64 = match self.fat_type {
            FatType::Fat12 => (cluster as u64) * 3 / 2,
            FatType::Fat16 => (cluster as u64) * 2,
            FatType::Fat32 => (cluster as u64) * 4,
        };
        proof {
            assert(fat_offset as nat == goff);
        }
        let fat_sector: u64 = self.first_fat_sector as u64 + fat_offset / 512;
        let entry_offset: usize = (fat_offset % 512) as usize;
        let ghost d = self.disk();
        let ghost base = bs_reserved_sectors(self.boot_bytes()) * 512;
        let mut buffer = zero_vec(512);
        let read = self.device.read_block(fat_sector, &mut buffer);
        if read.is_err() {
            proof {
                assert(fat_sector as nat >= self.sector_count());
                assert(!fat_entry_in_range(self.boot_bytes(), self.sector_count(),
                    self.fat_type_of_fs(), cluster as nat));
            }
            return Err(KernelError::from(FatError::ReadError));
        }
        proof {
            assert(fat_sector as nat + 1 <= self.sector_count());
        }
        proof {
            self.device.inv_properties();
            vstd::arithmetic::div_mod::lemma_fundamental_div_mod(
                fat_offset as int,
                512,
            );
            assert((self.first_fat_sector as int + fat_offset as int / 512) * 512
                == self.first_fat_sector as int * 512
                    + (fat_offset as int / 512) * 512) by (nonlinear_arith);
            assert(fat_sector as int * 512 + entry_offset
                == base + fat_offset as int);
            assert((fat_sector as int + 1) * 512 <= d.len()) by {
                assert(fat_sector as nat + 1 <= self.device.spec_block_count());
                assert((fat_sector as int + 1) * 512
                    <= self.device.spec_block_count() * 512) by (nonlinear_arith)
                    requires fat_sector as int + 1
                        <= self.device.spec_block_count() as int;
                assert(self.device.spec_block_count() * 512
                    == 512 * self.device.spec_block_count()) by (nonlinear_arith);
            }
            assert forall|k: int| 0 <= k < 512
                implies buffer@[k] == d[fat_sector as int * 512 + k] by {}
        }
        match self.fat_type {
            FatType::Fat16 => {
                proof {
                    let c = cluster as int;
                    let q = fat_offset as int / 512;
                    assert((fat_offset as int % 512) % 2 == 0) by (nonlinear_arith)
                        requires fat_offset as int % 512 == 2 * c - 512 * q;
                }
                let v = read_le16(&buffer, entry_offset);
                proof {
                    assert(le16(buffer@, entry_offset as int)
                        == le16(d, base + fat_offset as int));
                    assert(fat_entry_in_range(self.boot_bytes(), self.sector_count(),
                        self.fat_type_of_fs(), cluster as nat));
                }
                Ok(v as u32)
            },
            FatType::Fat32 => {
                proof {
                    let c = cluster as int;
                    let q = fat_offset as int / 512;
                    assert((fat_offset as int % 512) % 4 == 0) by (nonlinear_arith)
                        requires fat_offset as int % 512 == 4 * c - 512 * q;
                }
                let v = read_le32(&buffer, entry_offset);
                proof {
                    assert(le32(buffer@, entry_offset as int)
                        == le32(d, base + fat_offset as int));
                    assert(fat_entry_in_range(self.boot_bytes(), self.sector_count(),
                        self.fat_type_of_fs(), cluster as nat));
                }
                Ok(v % 0x10000000)
            },
            FatType::Fat12 => {
                let lo = buffer[entry_offset];
                let hi = if entry_offset < 511 {
                    buffer[entry_offset + 1]
                } else {
                    // the entry straddles a sector boundary
                    let mut next_buffer = zero_vec(512);
                    let read2 = self.device.read_block(fat_sector + 1, &mut next_buffer);
                    if read2.is_err() {
                        proof {
                            assert(fat_sector as nat + 1 >= self.sector_count());
                            assert(goff % 512 == 511);
                            assert(!fat_entry_in_range(self.boot_bytes(),
                                self.sector_count(), self.fat_type_of_fs(),
                                cluster as nat));
                        }
                        return Err(KernelError::from(FatError::ReadError));
                    }
                    proof {
                        assert((fat_sector as int + 1) * 512 + 0
                            == base + fat_offset as int + 1);
                        assert((fat_sector as int + 2) * 512 <= d.len()) by {
                            assert(fat_sector as nat + 2
                                <= self.device.spec_block_count());
                            assert((fat_sector as int + 2) * 512
                                <= self.device.spec_block_count() * 512)
                                by (nonlinear_arith)
                                requires fat_sector as int + 2
                                    <= self.device.spec_block_count() as int;
                            assert(self.device.spec_block_count() * 512
                                == 512 * self.device.spec_block_count())
                                by (nonlinear_arith);
                        }
                        assert(next_buffer@[0] == d[base + fat_offset as int + 1]);
                    }
                    next_buffer[0]
                };
                proof {
                    assert(lo == d[base + fat_offset as int]);
                    assert(hi == d[base + fat_offset as int + 1]);
                }
                let even = cluster % 2 == 0;
                proof {
                    assert(fat_entry_in_range(self.boot_bytes(), self.sector_count(),
                        self.fat_type_of_fs(), cluster as nat)) by {
                        if entry_offset < 511 {
                            assert(goff % 512 != 511);
                        } else {
                            assert(goff % 512 == 511);
                        }
                    }
                }
                Ok(fat12_entry(lo, hi, even))
            },
        }
    }

    /// Reads one whole cluster: all of its sectors, in order.
    pub fn read_cluster(&self, cluster: u32) -> (r: Result<Vec<u8>, KernelError>)
        requires
            self.wf(),
        ensures
            r is Ok <==> cluster >= 2 && cluster_in_range(self.boot_bytes(),
                self.sector_count(), cluster as nat),
            match r {
                Ok(v) => cluster >= 2
                    && v@ == cluster_bytes(self.disk(), self.boot_bytes(), cluster as nat),
                Err(KernelError::InvalidData) => cluster < 2,
                Err(KernelError::ReadError) => cluster >= 2
                    && !cluster_in_range(self.boot_bytes(), self.sector_count(),
                        cluster as nat),
                Err(_) => false,
            },
    {
        if cluster < 2 {
            return Err(KernelError::InvalidData);
        }
        proof {
            self.device.inv_properties();
        }
        let first_sector = self.cluster_to_sector(cluster);
        let ghost d = self.disk();
        let ghost cts = bs_first_data_sector(self.boot_bytes())
            + (cluster - 2) as nat * bs_sectors_per_cluster(self.boot_bytes());
        let spc = self.sectors_per_cluster;
        let mut out: Vec<u8> = Vec::new();
        let mut i: u8 = 0;
        while i < spc
            invariant
                self.wf(),
                cluster >= 2,
                i <= spc,
                spc == self.sectors_per_cluster,
                first_sector as nat == cts,
                d == self.disk(),
                cts == bs_first_data_sector(self.boot_bytes())
                    + (cluster - 2) as nat * bs_sectors_per_cluster(self.boot_bytes()),
                out@.len() == i as nat * 512,
                i == 0 || cts + i <= self.sector_count(),
                forall|k: int| 0 <= k < out@.len()
                    ==> #[trigger] out@[k] == d[cts as int * 512 + k],
            decreases spc - i,
        {
            proof {
                assert(first_sector as int + spc <= u64::MAX + 255) by (nonlinear_arith)
                    requires first_sector as int <= u64::MAX, spc <= 255;
            }
            proof {
                assert((cluster - 2) as int
                    * bs_sectors_per_cluster(self.boot_bytes()) as int
                    <= 0xFFFFFFFFu64 * 255) by (nonlinear_arith)
                    requires
                        0 <= (cluster - 2) as int <= 0xFFFFFFFFu64,
                        0 <= bs_sectors_per_cluster(self.boot_bytes()) as int <= 255,
                ;
            }
            let sector: u64 = first_sector + i as u64;
            let mut sect = zero_vec(512);
            let read = self.device.read_block(sector, &mut sect);
            if read.is_err() {
                proof {
                    self.device.inv_properties();
                    assert(sector as nat >= self.sector_count());
                    assert(!cluster_in_range(self.boot_bytes(), self.sector_count(),
                        cluster as nat));
                }
                return Err(KernelError::from(FatError::ReadError));
            }
            proof {
                self.device.inv_properties();
                assert((sector as int + 1) * 512
                    <= self.device.spec_block_count() * 512) by (nonlinear_arith)
                    requires sector as int + 1
                        <= self.device.spec_block_count() as int;
                assert(self.device.spec_block_count() * 512
                    == 512 * self.device.spec_block_count()) by (nonlinear_arith);
                assert(sector as int * 512 == cts as int * 512 + i as int * 512)
                    by (nonlinear_arith)
                    requires sector as int == cts as int + i as int;
            }
            let ghost out0 = out@;
            out.append(&mut sect);
            proof {
                assert(out@.len() == (i as nat + 1) * 512) by (nonlinear_arith)
                    requires out@.len() == i as nat * 512 + 512;
                assert forall|k: int| 0 <= k < out@.len()
                    implies #[trigger] out@[k] == d[cts as int * 512 + k] by {
                    if k < out0.len() {
                        assert(out@[k] == out0[k]);
                    } else {
                        assert(out@[k] == d[sector as int * 512 + (k - out0.len())]);
                    }
                }
            }
            i = i + 1;
        }
        proof {
            assert(out@ =~= cluster_bytes(self.disk(), self.boot_bytes(), cluster as nat));
            assert(cluster_in_range(self.boot_bytes(), self.sector_count(),
                cluster as nat)) by {
                assert(spc >= 1);
                assert(cts + spc <= self.sector_count());
            }
        }
        Ok(out)
    }

    /// Reads a file's cluster chain into the front of `buffer`, stopping at
    /// end of chain or when the buffer is full.
    pub fn read_file(&self, start_cluster: u32, buffer: &mut Vec<u8>)
        -> (r: Result<usize, KernelError>)
        requires
            self.wf(),
        ensures
            final(buffer)@.len() == old(buffer)@.len(),
            match r {
                Ok(n) => {
                    let t = chain_read(
                        self.disk(),
                        self.boot_bytes(),
                        start_cluster as nat,
                        old(buffer)@.len(),
                    );
                    &&& n == t.len()
                    &&& final(buffer)@ == t + old(buffer)@.skip(n as int)
                },
                Err(e) => e == KernelError::ReadError || e == KernelError::InvalidData,
            },
            chain_ok(self.disk(), self.boot_bytes(), self.sector_count(),
                start_cluster as nat, old(buffer)@.len()) ==> r is Ok,
    {
        let ghost d = self.disk();
        let ghost bb = self.boot_bytes();
        let ghost cnt = self.sector_count();
        let ghost len = old(buffer)@.len();
        let bpc: usize = (self.sectors_per_cluster as usize) * 512;
        let mut total: usize = 0;
        let mut cluster = start_cluster;
        proof {
            assert(chain_read(d, bb, start_cluster as nat, len)
                == Seq::<u8>::empty() + chain_read(d, bb, cluster as nat, (len - total) as nat));
        }
        while cluster < FAT_EOC && total < buffer.len()
            invariant
                self.wf(),
                d == self.disk(),
                bb == self.boot_bytes(),
                cnt == self.sector_count(),
                bpc == self.sectors_per_cluster as int * 512,
                len == old(buffer)@.len(),
                buffer@.len() == len,
                total <= len,
                chain_read(d, bb, start_cluster as nat, len)
                    == buffer@.take(total as int)
                        + chain_read(d, bb, cluster as nat, (len - total) as nat),
                chain_ok(d, bb, cnt, start_cluster as nat, len)
                    ==> chain_ok(d, bb, cnt, cluster as nat, (len - total) as nat),
                buffer@.skip(total as int) == old(buffer)@.skip(total as int),
            decreases len - total,
        {
            let cb = match self.read_cluster(cluster) {
                Ok(cb) => cb,
                Err(e) => {
                    proof {
                        assert(!chain_ok(d, bb, cnt, cluster as nat,
                            (len - total) as nat));
                    }
                    return Err(e);
                },
            };
            let remaining = buffer.len() - total;
            let bytes_to_read = if bpc < remaining { bpc } else { remaining };
            let ghost buf0 = buffer@;
            let mut k: usize = 0;
            while k < bytes_to_read
                invariant
                    k <= bytes_to_read,
                    total + bytes_to_read <= buffer@.len(),
                    buffer@.len() <= usize::MAX,
                    buffer@.len() == buf0.len(),
                    bytes_to_read <= cb@.len(),
                    forall|x: int| 0 <= x < k
                        ==> #[trigger] buffer@[total + x] == cb@[x],
                    forall|x: int| 0 <= x < buffer@.len()
                        && !(total <= x < total + k)
                        ==> #[trigger] buffer@[x] == buf0[x],
                decreases bytes_to_read - k,
            {
                buffer[total + k] = cb[k];
                k = k + 1;
            }
            proof {
                assert(cb@.len() == bs_sectors_per_cluster(bb) * 512);
                assert(self.fat_type == fat_type_spec(bs_total_clusters(bb)));
                assert(buffer@.take(total as int) =~= buf0.take(total as int));
                assert forall|x: int| 0 <= x < total + bytes_to_read
                    implies buffer@[x]
                        == (buf0.take(total as int)
                            + cb@.take(bytes_to_read as int))[x] by {
                    if x >= total {
                        assert(buffer@[total + (x - total)] == cb@[x - total]);
                    }
                }
                assert(buffer@.take((total + bytes_to_read) as int)
                    =~= buf0.take(total as int) + cb@.take(bytes_to_read as int));
                assert forall|x: int| total + bytes_to_read <= x < buffer@.len()
                    implies buffer@[x] == old(buffer)@[x] by {
                    assert(buffer@[x] == buf0[x]);
                    assert(buf0.skip(total as int)[x - total]
                        == old(buffer)@.skip(total as int)[x - total]);
                }
                assert(buffer@.skip((total + bytes_to_read) as int)
                    =~= old(buffer)@.skip((total + bytes_to_read) as int));
                assert(chain_read(d, bb, cluster as nat, (len - total) as nat)
                    == (if len - total <= bpc {
                        cb@.take((len - total) as int)
                    } else {
                        let nxt = fat_entry_spec(d, bs_reserved_sectors(bb),
                            fat_type_spec(bs_total_clusters(bb)), cluster as nat);
                        if nxt >= FAT_EOC as nat {
                            cb@
                        } else {
                            cb@ + chain_read(d, bb, nxt, (len - total - bpc) as nat)
                        }
                    }));
            }
            let new_total = total + bytes_to_read;
            if new_total < buffer.len() {
                // the cluster was consumed whole; follow the chain
                let next_cluster = match self.read_fat_entry(cluster) {
                    Ok(v) => v,
                    Err(e) => {
                        proof {
                            assert(!chain_ok(d, bb, cnt, cluster as nat,
                                (len - total) as nat));
                        }
                        return Err(e);
                    },
                };
                if next_cluster >= FAT_EOC {
                    proof {
                        assert(cb@.take(bytes_to_read as int) =~= cb@);
                        assert(chain_read(d, bb, start_cluster as nat, len)
                            =~= buffer@.take(new_total as int));
                        assert(buffer@.skip(new_total as int)
                            =~= old(buffer)@.skip(new_total as int));
                        assert(final(buffer)@ =~= chain_read(d, bb, start_cluster as nat,
                            len) + old(buffer)@.skip(new_total as int));
                    }
                    return Ok(new_total);
                }
                proof {
                    assert(cb@.take(bytes_to_read as int) =~= cb@);
                    assert(chain_read(d, bb, start_cluster as nat, len)
                        =~= buffer@.take(new_total as int)
                            + chain_read(d, bb, next_cluster as nat,
                                (len - new_total) as nat));
                    if chain_ok(d, bb, cnt, start_cluster as nat, len) {
                        assert(chain_ok(d, bb, cnt, next_cluster as nat,
                            (len - new_total) as nat));
                    }
                }
                cluster = next_cluster;
            } else {
                proof {
                    assert(chain_read(d, bb, start_cluster as nat, len)
                        =~= buffer@.take(new_total as int));
                    assert(buffer@ =~= buffer@.take(new_total as int)
                        + buffer@.skip(new_total as int));
                    assert(final(buffer)@
                        =~= chain_read(d, bb, start_cluster as nat, len)
                            + old(buffer)@.skip(new_total as int));
                }
                return Ok(new_total);
            }
            total = new_total;
        }
        proof {
            if total == len || cluster >= FAT_EOC {
                assert(chain_read(d, bb, start_cluster as nat, len)
                    =~= buffer@.take(total as int));
            }
            assert(buffer@ =~= buffer@.take(total as int)
                + buffer@.skip(total as int));
            assert(final(buffer)@ =~= chain_read(d, bb, start_cluster as nat, len)
                + old(buffer)@.skip(total as int));
        }
        Ok(total)
    }

    /// Reads the fixed root-directory region of a FAT12/16 volume, or the
    /// root cluster chain of a FAT32 one, and parses its entries.
    pub fn read_root_directory(&self) -> (r: Result<Vec<FatDirEntry>, KernelError>)
        requires
            self.wf(),
        ensures
            match r {
                Ok(v) => root_listing(self.disk(), self.boot_bytes(), entry_views(v@)),
                Err(e) => e == KernelError::ReadError || e == KernelError::InvalidData,
            },
            self.fat_type_of_fs() != FatType::Fat32
                ==> (r is Ok <==> root_region_in_range(self.boot_bytes(),
                    self.sector_count())),
    {
        let ghost d = self.disk();
        let ghost bb = self.boot_bytes();
        proof {
            self.device.inv_properties();
        }
        match self.fat_type {
            FatType::Fat32 => {
                let v = self.read_directory(self.root_cluster)?;
                Ok(v)
            },
            _ => {
                let root_dir_size: usize = (self.root_entry_count as usize) * 32;
                let whole_sectors: usize = root_dir_size / 512;
                let ghost start = (bs_reserved_sectors(bb)
                    + bs_fat_count(bb) * bs_sectors_per_fat(bb)) as int;
                let base: u64 = self.reserved_sectors as u64
                    + (self.fat_count as u64) * (self.sectors_per_fat as u64);
                proof {
                    assert((self.fat_count as int) * (self.sectors_per_fat as int)
                        <= 255 * 0xFFFFFFFFu64) by (nonlinear_arith)
                        requires
                            self.fat_count as int <= 255,
                            0 <= self.sectors_per_fat as int <= 0xFFFFFFFFu64,
                    ;
                }
                let mut out: Vec<u8> = Vec::new();
                let mut i: usize = 0;
                proof {
                    assert(whole_sectors as nat == bs_root_entry_count(bb) * 32 / 512);
                }
                while i < whole_sectors
                    invariant
                        self.wf(),
                        d == self.disk(),
                        bb == self.boot_bytes(),
                        i <= whole_sectors,
                        whole_sectors <= root_dir_size / 512 + 1,
                        whole_sectors * 512 <= usize::MAX,
                        whole_sectors as nat == bs_root_entry_count(bb) * 32 / 512,
                        base as int == start,
                        start == bs_reserved_sectors(bb)
                            + bs_fat_count(bb) * bs_sectors_per_fat(bb),
                        base + whole_sectors <= u64::MAX,
                        i == 0 || start + i <= self.sector_count(),
                        out@.len() == i as nat * 512,
                        forall|k: int| 0 <= k < out@.len()
                            ==> #[trigger] out@[k] == d[start * 512 + k],
                    decreases whole_sectors - i,
                {
                    let sector: u64 = base + i as u64;
                    let mut sect = zero_vec(512);
                    let read = self.device.read_block(sector, &mut sect);
                    if read.is_err() {
                        proof {
                            self.device.inv_properties();
                            assert(sector as nat >= self.sector_count());
                            assert(sector as int == start + i);
                            assert(start + whole_sectors as int
                                > self.sector_count());
                            assert(bs_root_entry_count(bb) * 32 / 512 != 0);
                            assert(bs_reserved_sectors(bb)
                                + bs_fat_count(bb) * bs_sectors_per_fat(bb)
                                + bs_root_entry_count(bb) * 32 / 512
                                > self.sector_count());
                            assert(!root_region_in_range(bb, self.sector_count()));
                        }
                        return Err(KernelError::from(FatError::ReadError));
                    }
                    proof {
                        self.device.inv_properties();
                        assert((sector as int + 1) * 512
                            <= self.device.spec_block_count() * 512) by (nonlinear_arith)
                            requires sector as int + 1
                                <= self.device.spec_block_count() as int;
                        assert(self.device.spec_block_count() * 512
                            == 512 * self.device.spec_block_count()) by (nonlinear_arith);
                        assert(sector as int * 512 == start * 512 + i as int * 512)
                            by (nonlinear_arith)
                            requires sector as int == start + i as int;
                    }
                    let ghost out0 = out@;
                    out.append(&mut sect);
                    proof {
                        assert(out@.len() == (i as nat + 1) * 512) by (nonlinear_arith)
                            requires out@.len() == i as nat * 512 + 512;
                        assert forall|k: int| 0 <= k < out@.len()
                            implies #[trigger] out@[k] == d[start * 512 + k] by {
                            if k < out0.len() {
                                assert(out@[k] == out0[k]);
                            } else {
                                assert(out@[k]
                                    == d[sector as int * 512 + (k - out0.len())]);
                            }
                        }
                    }
                    i = i + 1;
                }
                proof {
                    assert(out@.len() == whole_sectors as nat * 512);
                    assert(whole_sectors as nat * 512
                        == (bs_root_entry_count(bb) * 32 / 512) * 512);
                    assert(out@ =~= root_dir_region(d, bb));
                    assert(root_region_in_range(bb, self.sector_count()));
                }
                let v = parse_entries(&out);
                Ok(v)
            },
        }
    }

    /// Follows the cluster chain of a directory, parsing every cluster's
    /// entries and concatenating them in chain order.
    pub fn read_directory(&self, cluster: u32) -> (r: Result<Vec<FatDirEntry>, KernelError>)
        requires
            self.wf(),
        ensures
            match r {
                Ok(v) => exists|fuel: nat|
                    dir_chain_entries(self.disk(), self.boot_bytes(), cluster as nat,
                        fuel) == Some(entry_views(v@)),
                Err(e) => e == KernelError::ReadError || e == KernelError::InvalidData,
            },
    {
        let ghost d = self.disk();
        let ghost bb = self.boot_bytes();
        let mut res: Vec<FatDirEntry> = Vec::new();
        let mut current = cluster;
        let ghost mut steps: nat = 0;
        proof {
            assert forall|f: nat| f >= 1 implies
                dir_chain_entries(d, bb, cluster as nat, steps + f)
                    == opt_prepend(entry_views(res@),
                        #[trigger] dir_chain_entries(d, bb, current as nat, f)) by {
                if dir_chain_entries(d, bb, current as nat, f) is Some {
                    let rest = dir_chain_entries(d, bb, current as nat, f)->Some_0;
                    assert(entry_views(res@) + rest =~= rest);
                }
            }
        }
        let mut guard: u32 = 0;
        while current < FAT_EOC
            invariant
                self.wf(),
                d == self.disk(),
                bb == self.boot_bytes(),
                guard <= 0xFFFFFFFFu32,
                forall|f: nat| f >= 1 ==>
                    dir_chain_entries(d, bb, cluster as nat, steps + f)
                        == opt_prepend(entry_views(res@),
                            #[trigger] dir_chain_entries(d, bb, current as nat, f)),
            decreases 0xFFFFFFFFu32 - guard,
        {
            // a chain longer than the volume has clusters must be cyclic
            if guard >= self.total_clusters || guard == 0xFFFFFFFFu32 {
                return Err(KernelError::InvalidData);
            }
            guard = guard + 1;
            let cb = match self.read_cluster(current) {
                Ok(cb) => cb,
                Err(e) => {
                    return Err(e);
                },
            };
            let mut entries = parse_entries(&cb);
            let ghost res0 = res@;
            res.append(&mut entries);
            proof {
                assert(entry_views(res@)
                    =~= entry_views(res0) + parse_dir_entries(cb@, 0));
            }
            let next = match self.read_fat_entry(current) {
                Ok(v) => v,
                Err(e) => {
                    return Err(e);
                },
            };
            proof {
                assert(self.fat_type == fat_type_spec(bs_total_clusters(bb)));
            }
            if next >= FAT_EOC {
                proof {
                    let f1: nat = 1;
                    assert(dir_chain_entries(d, bb, current as nat, f1)
                        == Some(parse_dir_entries(cb@, 0)));
                    assert(dir_chain_entries(d, bb, cluster as nat, steps + f1)
                        == opt_prepend(entry_views(res0),
                            dir_chain_entries(d, bb, current as nat, f1)));
                    assert(dir_chain_entries(d, bb, cluster as nat, steps + 1)
                        == Some(entry_views(res@)));
                }
                return Ok(res);
            }
            proof {
                let ghost old_steps = steps;
                let ghost old_cur = current as nat;
                steps = steps + 1;
                assert forall|f: nat| f >= 1 implies
                    dir_chain_entries(d, bb, cluster as nat, steps + f)
                        == opt_prepend(entry_views(res@),
                            #[trigger] dir_chain_entries(d, bb, next as nat, f)) by {
                    assert(dir_chain_entries(d, bb, old_cur, f + 1)
                        == (match dir_chain_entries(d, bb, next as nat, f) {
                            Some(rest) => Some(parse_dir_entries(cb@, 0) + rest),
                            None => None,
                        }));
                    assert(dir_chain_entries(d, bb, cluster as nat,
                        old_steps + (f + 1))
                        == opt_prepend(entry_views(res0),
                            dir_chain_entries(d, bb, old_cur, f + 1)));
                    if dir_chain_entries(d, bb, next as nat, f) is Some {
                        let rest = dir_chain_entries(d, bb, next as nat, f)->Some_0;
                        assert(entry_views(res0)
                            + (parse_dir_entries(cb@, 0) + rest)
                            =~= entry_views(res@) + rest);
                    }
                    assert(old_steps + (f + 1) == steps + f);
                }
            }
            current = next;
        }
        proof {
            let f1: nat = 1;
            assert(dir_chain_entries(d, bb, current as nat, f1)
                == Some(Seq::<FatDirEntryView>::empty()));
            assert(dir_chain_entries(d, bb, cluster as nat, steps + f1)
                == opt_prepend(entry_views(res@),
                    dir_chain_entries(d, bb, current as nat, f1)));
            assert(entry_views(res@) + Seq::<FatDirEntryView>::empty()
                =~= entry_views(res@));
            assert(dir_chain_entries(d, bb, cluster as nat, steps + 1)
                == Some(entry_views(res@)));
        }
        Ok(res)
    }

    /// Finds the entry whose display name matches `name`, comparing without
    /// regard to ASCII case.
    pub fn find_in_directory(&self, dir_entries: &Vec<FatDirEntry>, name: &str)
        -> (r: Option<FatDirEntry>)
        ensures
            match r {
                Some(e) => find_first(entry_views(dir_entries@), name@) == Some(e@),
                None => find_first(entry_views(dir_entries@), name@) is None,
            },
    {
        let n = dir_entries.len();
        let mut i: usize = 0;
        proof {
            assert(entry_views(dir_entries@).skip(0) =~= entry_views(dir_entries@));
        }
        while i < n
            invariant
                n == dir_entries@.len(),
                i <= n,
                find_first(entry_views(dir_entries@), name@)
                    == find_first(entry_views(dir_entries@).skip(i as int), name@),
            decreases n - i,
        {
            let e = &dir_entries[i];
            let display = fat_name_to_string(&e.name, &e.ext);
            proof {
                let vs = entry_views(dir_entries@);
                assert(vs.skip(i as int)[0] == dir_entries@[i as int]@);
                assert(vs.skip(i as int).drop_first() =~= vs.skip(i + 1));
            }
            if crate::strutil::str_eq_ignore_case(display.as_str(), name) {
                return Some(dir_entries[i]);
            }
            i = i + 1;
        }
        proof {
            assert(entry_views(dir_entries@).skip(n as int)
                =~= Seq::<FatDirEntryView>::empty());
        }
        None
    }

    /// The starting data cluster an entry points at.
    pub fn get_cluster(entry: &FatDirEntry) -> (r: u32)
        ensures
            r == entry@.cluster_high * 0x10000 + entry@.cluster_low,
    {
        (entry.cluster_high as u32) * 0x10000 + (entry.cluster_low as u32)
    }

    /// Whether an entry names a directory.
    pub fn is_directory(entry: &FatDirEntry) -> (r: bool)
        ensures
            r == (entry@.attr & ATTR_DIRECTORY != 0),
    {
        entry.attr & ATTR_DIRECTORY != 0
    }

    /// Resolves a path, component by component, to its directory entry.
    /// The empty path (or `"/"`) names a synthesized root entry.
    pub fn path_to_entry(&self, path: &str) -> (r: Result<FatDirEntry, KernelError>)
        requires
            self.wf(),
        ensures
            match r {
                Ok(e) => fat_path_entry(self.disk(), self.boot_bytes(), path@, e@),
                Err(e) => (e == KernelError::NotFound
                    || e == KernelError::NotADirectory
                    || e == KernelError::ReadError || e == KernelError::InvalidData)
                    && fat_path_err(self.disk(), self.boot_bytes(), path@, e),
            },
    {
        let n = path.unicode_len();
        let stripped: &str = if n >= 1 && path.get_char(0) == '/' {
            path.substring_char(1, n)
        } else {
            path
        };
        let ghost spath = strip_slash(path@);
        proof {
            assert(stripped@ =~= spath);
        }
        let sn = stripped.unicode_len();
        if sn == 0 {
            let root_entry = FatDirEntry {
                name: [32u8; 8],
                ext: [32u8; 3],
                attr: ATTR_DIRECTORY,
                reserved: 0,
                create_time_tenth: 0,
                create_time: 0,
                create_date: 0,
                access_date: 0,
                cluster_high: 0,
                modify_time: 0,
                modify_date: 0,
                cluster_low: match self.fat_type {
                    FatType::Fat32 => (self.root_cluster % 0x10000) as u16,
                    _ => 0,
                },
                size: 0,
            };
            proof {
                assert(root_entry.name@ =~= Seq::new(8, |i: int| 32u8));
                assert(root_entry.ext@ =~= Seq::new(3, |i: int| 32u8));
                assert(self.fat_type == fat_type_spec(
                    bs_total_clusters(self.boot_bytes())));
            }
            return Ok(root_entry);
        }
        let components = crate::path::split_slash(stripped);
        let ghost comps = crate::path::split_slashes(spath);
        proof {
            crate::path::lemma_split_slashes_len(spath);
        }
        let mut current_entries = match self.read_root_directory() {
            Ok(v) => v,
            Err(e) => {
                return Err(e);
            },
        };
        let ghost entries0 = entry_views(current_entries@);
        let ncomp = components.len();
        let mut i: usize = 0;
        proof {
            assert(comps.skip(0) =~= comps);
        }
        while i < ncomp
            invariant
                self.wf(),
                ncomp == comps.len(),
                crate::path::token_views(components@) == comps,
                components@.len() == ncomp,
                i < ncomp,
                spath == strip_slash(path@),
                spath.len() >= 1,
                comps == crate::path::split_slashes(spath),
                root_listing(self.disk(), self.boot_bytes(), entries0),
                forall|result: FatDirEntryView|
                    fat_resolves(self.disk(), self.boot_bytes(),
                        entry_views(current_entries@), comps.skip(i as int), result)
                        ==> fat_resolves(self.disk(), self.boot_bytes(), entries0,
                            comps, result),
                forall|e: KernelError|
                    fat_resolves_err(self.disk(), self.boot_bytes(),
                        entry_views(current_entries@), comps.skip(i as int), e)
                        ==> #[trigger] fat_resolves_err(self.disk(), self.boot_bytes(),
                            entries0, comps, e),
            decreases ncomp - i,
        {
            let ghost cur_views = entry_views(current_entries@);
            let entry = match self.find_in_directory(&current_entries,
                components[i].as_str()) {
                Some(e) => e,
                None => {
                    proof {
                        assert(comps.skip(i as int)[0] == comps[i as int]);
                        assert(comps[i as int] == components@[i as int]@);
                        assert(fat_resolves_err(self.disk(), self.boot_bytes(),
                            cur_views, comps.skip(i as int), KernelError::NotFound));
                        assert(fat_resolves_err(self.disk(), self.boot_bytes(),
                            entries0, comps, KernelError::NotFound));
                        assert(fat_path_err(self.disk(), self.boot_bytes(), path@,
                            KernelError::NotFound));
                    }
                    return Err(KernelError::from(FatError::NotFound));
                },
            };
            proof {
                assert(comps.skip(i as int)[0] == comps[i as int]);
                assert(comps[i as int] == components@[i as int]@);
            }
            if i == ncomp - 1 {
                proof {
                    assert(comps.skip(i as int).len() == 1);
                    assert(fat_resolves(self.disk(), self.boot_bytes(), cur_views,
                        comps.skip(i as int), entry@));
                    assert(fat_resolves(self.disk(), self.boot_bytes(), entries0,
                        comps, entry@));
                    assert(fat_path_entry(self.disk(), self.boot_bytes(), path@,
                        entry@));
                }
                return Ok(entry);
            }
            if !Self::is_directory(&entry) {
                proof {
                    assert(comps.skip(i as int).len() > 1);
                    assert(fat_resolves_err(self.disk(), self.boot_bytes(),
                        cur_views, comps.skip(i as int), KernelError::NotADirectory));
                    assert(fat_resolves_err(self.disk(), self.boot_bytes(),
                        entries0, comps, KernelError::NotADirectory));
                    assert(fat_path_err(self.disk(), self.boot_bytes(), path@,
                        KernelError::NotADirectory));
                }
                return Err(KernelError::from(FatError::NotADirectory));
            }
            let cluster = Self::get_cluster(&entry);
            let next_entries = match self.read_directory(cluster) {
                Ok(v) => v,
                Err(e) => {
                    proof {
                        assert(comps.skip(i as int).len() > 1);
                        assert(fat_resolves_err(self.disk(), self.boot_bytes(),
                            cur_views, comps.skip(i as int), e));
                        assert(fat_resolves_err(self.disk(), self.boot_bytes(),
                            entries0, comps, e));
                        assert(fat_path_err(self.disk(), self.boot_bytes(), path@, e));
                    }
                    return Err(e);
                },
            };
            proof {
                let dd = self.disk();
                let bb = self.boot_bytes();
                let sub = entry_views(next_entries@);
                let fuel = choose|fuel: nat|
                    dir_chain_entries(dd, bb, cluster as nat, fuel) == Some(sub);
                assert(comps.skip(i as int).drop_first() =~= comps.skip(i + 1));
                assert forall|result: FatDirEntryView|
                    fat_resolves(dd, bb, sub, comps.skip(i + 1), result)
                    implies fat_resolves(dd, bb, entries0, comps, result) by {
                    assert(fat_resolves(dd, bb, cur_views, comps.skip(i as int),
                        result)) by {
                        assert(find_first(cur_views, comps.skip(i as int)[0])
                            == Some(entry@));
                        assert(entry@.attr & 0x10 != 0);
                        assert(cluster_of(entry@) == cluster as nat);
                        assert(chain_lists(dd, bb, cluster_of(entry@), fuel, sub));
                        assert(fat_resolves(dd, bb, sub,
                            comps.skip(i as int).drop_first(), result));
                    }
                }
                assert forall|e: KernelError|
                    fat_resolves_err(dd, bb, sub, comps.skip(i + 1), e)
                    implies fat_resolves_err(dd, bb, entries0, comps, e) by {
                    assert(fat_resolves_err(dd, bb, cur_views, comps.skip(i as int),
                        e)) by {
                        assert(find_first(cur_views, comps.skip(i as int)[0])
                            == Some(entry@));
                        assert(entry@.attr & 0x10 != 0);
                        assert(cluster_of(entry@) == cluster as nat);
                        assert(chain_lists(dd, bb, cluster_of(entry@), fuel, sub));
                        assert(fat_resolves_err(dd, bb, sub,
                            comps.skip(i as int).drop_first(), e));
                    }
                }
            }
            current_entries = next_entries;
            i = i + 1;
        }
        // every component list is nonempty, so the loop returns from within
        proof {
            assert(false);
        }
        Err(KernelError::from(FatError::NotFound))
    }

    /// Looks up the metadata of the entry a path resolves to.
    pub fn metadata(&self, path: &str) -> (r: Result<crate::vfs::Metadata, KernelError>)
        requires
            self.wf(),
        ensures
            match r {
                Ok(m) => exists|ev: FatDirEntryView|
                    #[trigger] fat_path_entry(self.disk(), self.boot_bytes(), path@, ev)
                        && m == fat_metadata_spec(ev),
                Err(e) => (e == KernelError::NotFound
                    || e == KernelError::NotADirectory
                    || e == KernelError::ReadError || e == KernelError::InvalidData)
                    && fat_path_err(self.disk(), self.boot_bytes(), path@, e),
            },
    {
        let entry = self.path_to_entry(path)?;
        let node_type = if Self::is_directory(&entry) {
            crate::vfs::NodeType::Directory
        } else {
            crate::vfs::NodeType::File
        };
        let permissions: u8 = if entry.attr & ATTR_READ_ONLY != 0 {
            0b0001_0001
        } else {
            0b0011_0011
        };
        let m = crate::vfs::Metadata {
            node_type,
            size: entry.size as u64,
            permissions,
            created_at: 0,
            modified_at: 0,
            accessed_at: 0,
        };
        proof {
            assert(m == fat_metadata_spec(entry@));
        }
        Ok(m)
    }

    /// Lists a directory: every visible entry of its cluster chain (or of
    /// the fixed root region), as name, kind and a zero inode.
    pub fn read_dir(&self, path: &str) -> (r: Result<Vec<crate::vfs::DirEntry>, KernelError>)
        requires
            self.wf(),
        ensures
            match r {
                Ok(v) => exists|ev: FatDirEntryView, listing: Seq<FatDirEntryView>|
                    {
                        &&& fat_path_entry(self.disk(), self.boot_bytes(),
                            path@, ev)
                        &&& ev.attr & 0x10 != 0
                        &&& #[trigger] fat_dir_listing(self.disk(), self.boot_bytes(),
                            path@, ev, listing)
                        &&& dir_rows(v@) == visible_rows(listing)
                    },
                Err(e) => (e == KernelError::NotFound
                    || e == KernelError::NotADirectory
                    || e == KernelError::ReadError || e == KernelError::InvalidData)
                    && fat_read_dir_err(self.disk(), self.boot_bytes(), path@, e),
            },
    {
        let entry = self.path_to_entry(path)?;
        if !Self::is_directory(&entry) {
            proof {
                assert(fat_path_entry(self.disk(), self.boot_bytes(), path@, entry@)
                    && entry@.attr & 0x10 == 0);
            }
            return Err(KernelError::from(FatError::NotADirectory));
        }
        let is_root = path.unicode_len() == 1 && path.get_char(0) == '/';
        proof {
            if is_root {
                assert(path@ =~= seq!['/']);
            } else {
                if path@ == seq!['/'] {
                    assert(path@.len() == 1 && path@[0] == '/');
                }
            }
        }
        let is_fat32 = match self.fat_type {
            FatType::Fat32 => true,
            _ => false,
        };
        let dir_entries = if is_root && !is_fat32 {
            match self.read_root_directory() {
                Ok(v) => v,
                Err(e) => {
                    proof {
                        assert(fat_path_entry(self.disk(), self.boot_bytes(), path@,
                            entry@) && entry@.attr & 0x10 != 0);
                    }
                    return Err(e);
                },
            }
        } else {
            let cluster = Self::get_cluster(&entry);
            let v = match self.read_directory(cluster) {
                Ok(v) => v,
                Err(e) => {
                    proof {
                        assert(fat_path_entry(self.disk(), self.boot_bytes(), path@,
                            entry@) && entry@.attr & 0x10 != 0);
                    }
                    return Err(e);
                },
            };
            proof {
                assert(cluster as nat == cluster_of(entry@));
                let vs = entry_views(v@);
                let fuel = choose|fuel: nat|
                    dir_chain_entries(self.disk(), self.boot_bytes(), cluster as nat,
                        fuel) == Some(vs);
                assert(chain_lists(self.disk(), self.boot_bytes(), cluster_of(entry@),
                    fuel, vs));
            }
            v
        };
        let ghost listing = entry_views(dir_entries@);
        let n = dir_entries.len();
        let mut result: Vec<crate::vfs::DirEntry> = Vec::new();
        let mut i: usize = 0;
        proof {
            assert(listing.skip(0) =~= listing);
            assert(dir_rows(result@) + visible_rows(listing.skip(0))
                =~= visible_rows(listing));
        }
        while i < n
            invariant
                n == dir_entries@.len(),
                listing == entry_views(dir_entries@),
                i <= n,
                visible_rows(listing)
                    == dir_rows(result@) + visible_rows(listing.skip(i as int)),
            decreases n - i,
        {
            let e = &dir_entries[i];
            proof {
                assert(listing.skip(i as int)[0] == dir_entries@[i as int]@);
                assert(listing.skip(i as int).drop_first() =~= listing.skip(i + 1));
            }
            if e.name[0] != 46 && e.attr & ATTR_VOLUME_ID == 0 {
                let name = fat_name_to_string(&e.name, &e.ext);
                let node_type = if Self::is_directory(e) {
                    crate::vfs::NodeType::Directory
                } else {
                    crate::vfs::NodeType::File
                };
                let ghost res0 = result@;
                let de = crate::vfs::DirEntry::new(name.as_str(), node_type, 0);
                result.push(de);
                proof {
                    assert(dir_rows(result@)
                        =~= dir_rows(res0).push(row_of(listing.skip(i as int)[0])));
                    assert(visible_rows(listing)
                        =~= dir_rows(result@) + visible_rows(listing.skip(i + 1)));
                }
            } else {
                proof {
                    assert(!entry_visible(listing.skip(i as int)[0]));
                    assert(visible_rows(listing)
                        =~= dir_rows(result@) + visible_rows(listing.skip(i + 1)));
                }
            }
            i = i + 1;
        }
        proof {
            assert(listing.skip(n as int) =~= Seq::<FatDirEntryView>::empty());
            assert(dir_rows(result@) =~= visible_rows(listing));
            assert(self.fat_type == fat_type_spec(bs_total_clusters(self.boot_bytes())));
            assert(fat_dir_listing(self.disk(), self.boot_bytes(), path@, entry@,
                listing));
        }
        Ok(result)
    }

    /// Mounting needs no extra work: the parameters were derived when the
    /// driver was created.
    pub fn mount(&mut self) -> (r: Result<(), KernelError>)
        ensures
            r is Ok,
            *final(self) == *old(self),
    {
        Ok(())
    }

    /// Unmounting needs no extra work on a read-only volume.
    pub fn unmount(&mut self) -> (r: Result<(), KernelError>)
        ensures
            r is Ok,
            *final(self) == *old(self),
    {
        Ok(())
    }

    /// This driver is read-only: file creation is not implemented.
    pub fn create_file(&mut self, _path: &str) -> (r: Result<(), KernelError>)
        ensures
            r == Result::<(), KernelError>::Err(KernelError::NotImplemented),
            *final(self) == *old(self),
    {
        Err(KernelError::NotImplemented)
    }

    /// This driver is read-only: directory creation is not implemented.
    pub fn create_directory(&mut self, _path: &str) -> (r: Result<(), KernelError>)
        ensures
            r == Result::<(), KernelError>::Err(KernelError::NotImplemented),
            *final(self) == *old(self),
    {
        Err(KernelError::NotImplemented)
    }

    /// This driver is read-only: removal is not implemented.
    pub fn remove(&mut self, _path: &str) -> (r: Result<(), KernelError>)
        ensures
            r == Result::<(), KernelError>::Err(KernelError::NotImplemented),
            *final(self) == *old(self),
    {
        Err(KernelError::NotImplemented)
    }

    /// This driver is read-only: renaming is not implemented.
    pub fn rename(&mut self, _from: &str, _to: &str) -> (r: Result<(), KernelError>)
        ensures
            r == Result::<(), KernelError>::Err(KernelError::NotImplemented),
            *final(self) == *old(self),
    {
        Err(KernelError::NotImplemented)
    }

    /// Opening file handles on this driver is not implemented.
    pub fn open(&self, _path: &str, _write: bool)
        -> (r: Result<crate::vfs::FileHandle, KernelError>)
        ensures
            r is Err && r->Err_0 == KernelError::NotImplemented,
    {
        Err(KernelError::NotImplemented)
    }

    /// The sector where data cluster `cluster` starts; data clusters are
    /// numbered from two.
    pub fn cluster_to_sector(&self, cluster: u32) -> (r: u64)
        requires
            self.wf(),
            cluster >= 2,
        ensures
            r as nat == bs_first_data_sector(self.boot_bytes())
                + (cluster - 2) as nat
                    * bs_sectors_per_cluster(self.boot_bytes()),
    {
        proof {
            assert(((cluster - 2) as int) * (self.sectors_per_cluster as int)
                <= 0xFFFFFFFFu64 * 255) by (nonlinear_arith)
                requires
                    0 <= (cluster - 2) as int <= 0xFFFFFFFFu64,
                    0 <= self.sectors_per_cluster as int <= 255,
            ;
        }
        self.first_data_sector as u64
            + ((cluster - 2) as u64) * (self.sectors_per_cluster as u64)
    }

    /// The FAT variant of the mounted volume.
    pub fn fat_type(&self) -> (r: FatType)
        ensures
            r == self.fat_type_of_fs(),
    {
        self.fat_type
    }

    /// The volume's display name, after its FAT variant.
    pub fn name(&self) -> (r: &'static str)
        ensures
            self.fat_type_of_fs() == FatType::Fat12 ==> r@ == "FAT12"@,
            self.fat_type_of_fs() == FatType::Fat16 ==> r@ == "FAT16"@,
            self.fat_type_of_fs() == FatType::Fat32 ==> r@ == "FAT32"@,
    {
        match self.fat_type {
            FatType::Fat12 => "FAT12",
            FatType::Fat16 => "FAT16",
            FatType::Fat32 => "FAT32",
        }
    }

    /// Total capacity of the data region, in bytes.
    pub fn total_space(&self) -> (r: u64)
        requires
            self.wf(),
        ensures
            r as nat == bs_total_clusters(self.boot_bytes())
                * bs_sectors_per_cluster(self.boot_bytes())
                * bs_bytes_per_sector(self.boot_bytes()),
    {
        proof {
            assert((self.total_clusters as int) * (self.sectors_per_cluster as int)
                * (self.bytes_per_sector as int)
                <= 0xFFFFFFFFu64 * 255 * 65535) by (nonlinear_arith)
                requires
                    0 <= self.total_clusters as int <= 0xFFFFFFFFu64,
                    0 <= self.sectors_per_cluster as int <= 255,
                    0 <= self.bytes_per_sector as int <= 65535,
            ;
        }
        (self.total_clusters as u64) * (self.sectors_per_cluster as u64)
            * (self.bytes_per_sector as u64)
    }

    /// Free space is not tracked; half the capacity is reported.
    pub fn available_space(&self) -> (r: u64)
        requires
            self.wf(),
        ensures
            r as nat == bs_total_clusters(self.boot_bytes())
                * bs_sectors_per_cluster(self.boot_bytes())
                * bs_bytes_per_sector(self.boot_bytes()) / 2,
    {
        self.total_space() / 2
    }
}

} // verus!
