//! System configuration: typed key–value settings, their textual file
//! form, and the manager that loads, edits and saves them through the VFS.

use vstd::prelude::*;
use crate::errors::KernelError;
use crate::strutil::{
    append_str, dec_str_i64, eq_ignore_case, find_char, i64_to_string, int_literal_ok,
    int_literal_val, parse_i64, push_char, str_eq, trim,
};
use crate::vfs::VfsManager;
use vstd::string::StrSliceExecFns;

verus! {

/// The mathematical image of a configuration value.
pub ghost enum CfgView {
    S(Seq<char>),
    I(int),
    B(bool),
}

/// A single configuration value: text, integer, or switch.
#[derive(Debug, Clone)]
pub enum ConfigValue {
    String(String),
    Integer(i64),
    Boolean(bool),
}

impl View for ConfigValue {
    type V = CfgView;

    open spec fn view(&self) -> CfgView {
        match self {
            ConfigValue::String(s) => CfgView::S(s@),
            ConfigValue::Integer(i) => CfgView::I(*i as int),
            ConfigValue::Boolean(b) => CfgView::B(*b),
        }
    }
}

/// The text a value renders to in the configuration file.
pub open spec fn cfg_value_str(v: CfgView) -> Seq<char> {
    match v {
        CfgView::S(s) => s,
        CfgView::I(i) => dec_str_i64(i),
        CfgView::B(b) => if b { "true"@ } else { "false"@ },
    }
}

impl ConfigValue {
    /// A text value.
    pub fn string(value: &str) -> (r: ConfigValue)
        ensures
            r@ == CfgView::S(value@),
    {
        ConfigValue::String(value.to_owned())
    }

    /// An integer value.
    pub fn integer(value: i64) -> (r: ConfigValue)
        ensures
            r@ == CfgView::I(value as int),
    {
        ConfigValue::Integer(value)
    }

    /// A switch value.
    pub fn boolean(value: bool) -> (r: ConfigValue)
        ensures
            r@ == CfgView::B(value),
    {
        ConfigValue::Boolean(value)
    }

    /// The value's file text.
    pub fn as_string(&self) -> (r: String)
        ensures
            r@ == cfg_value_str(self@),
    {
        match self {
            ConfigValue::String(s) => s.clone(),
            ConfigValue::Integer(i) => i64_to_string(*i),
            ConfigValue::Boolean(b) => {
                let mut s = String::new();
                if *b {
                    append_str(&mut s, "true");
                } else {
                    append_str(&mut s, "false");
                }
                proof {
                    assert(s@ =~= cfg_value_str(self@));
                }
                s
            },
        }
    }

    /// The text, when this is a text value.
    pub fn try_as_string(&self) -> (r: Option<&String>)
        ensures
            match r {
                Some(s) => self@ == CfgView::S(s@),
                None => !(self@ is S),
            },
    {
        match self {
            ConfigValue::String(s) => Some(s),
            _ => None,
        }
    }

    /// The integer, when this is an integer value.
    pub fn try_as_integer(&self) -> (r: Option<i64>)
        ensures
            match r {
                Some(i) => self@ == CfgView::I(i as int),
                None => !(self@ is I),
            },
    {
        match self {
            ConfigValue::Integer(i) => Some(*i),
            _ => None,
        }
    }

    /// The switch, when this is a switch value.
    pub fn try_as_boolean(&self) -> (r: Option<bool>)
        ensures
            match r {
                Some(b) => self@ == CfgView::B(b),
                None => !(self@ is B),
            },
    {
        match self {
            ConfigValue::Boolean(b) => Some(*b),
            _ => None,
        }
    }
}

/// How a value's file text is classified when a file is loaded: the words
/// `true` and `false` in any ASCII case are switches, an integer literal
/// that fits is an integer, everything else is text.
pub open spec fn classify_value(s: Seq<char>) -> CfgView {
    if eq_ignore_case(s, "true"@) {
        CfgView::B(true)
    } else if eq_ignore_case(s, "false"@) {
        CfgView::B(false)
    } else if int_literal_ok(s) && i64::MIN <= int_literal_val(s) <= i64::MAX {
        CfgView::I(int_literal_val(s))
    } else {
        CfgView::S(s)
    }
}

/// Classifies a value's file text.
pub fn value_of_str(s: &str) -> (r: ConfigValue)
    ensures
        r@ == classify_value(s@),
{
    if crate::strutil::str_eq_ignore_case(s, "true") {
        ConfigValue::boolean(true)
    } else if crate::strutil::str_eq_ignore_case(s, "false") {
        ConfigValue::boolean(false)
    } else {
        match parse_i64(s) {
            Some(v) => ConfigValue::integer(v),
            None => ConfigValue::string(s),
        }
    }
}

/// One stored setting.
pub struct ConfigEntry {
    pub key: String,
    pub value: ConfigValue,
}

/// The setting stored under `key`, if any.
pub open spec fn cfg_lookup(es: Seq<ConfigEntry>, key: Seq<char>) -> Option<CfgView>
    decreases es.len(),
{
    if es.len() == 0 {
        None
    } else if es[0].key@ == key {
        Some(es[0].value@)
    } else {
        cfg_lookup(es.drop_first(), key)
    }
}

/// The configuration manager: the settings, a dirty flag, and the path of
/// the backing file.
pub struct ConfigManager {
    values: Vec<ConfigEntry>,
    modified: bool,
    config_file: String,
}

impl ConfigManager {
    /// The stored settings, in insertion order.
    pub closed spec fn entries(&self) -> Seq<ConfigEntry> {
        self.values@
    }

    /// Whether unsaved changes exist.
    pub closed spec fn modified_spec(&self) -> bool {
        self.modified
    }

    /// The path of the backing file.
    pub closed spec fn config_file_spec(&self) -> Seq<char> {
        self.config_file@
    }

    /// Keys are never stored twice.
    pub open spec fn wf(&self) -> bool {
        forall|i: int, j: int|
            0 <= i < j < self.entries().len()
                ==> (#[trigger] self.entries()[i].key@)
                    != (#[trigger] self.entries()[j].key@)
    }

    /// An empty configuration backed by the standard file path.
    pub fn new() -> (r: ConfigManager)
        ensures
            r.wf(),
            r.entries() =~= Seq::<ConfigEntry>::empty(),
            !r.modified_spec(),
            r.config_file_spec() == "/System/Library/config.ini"@,
    {
        let mut path = String::new();
        append_str(&mut path, "/System/Library/config.ini");
        ConfigManager { values: Vec::new(), modified: false, config_file: path }
    }

    /// Finds the index of a key.
    fn find_key(&self, key: &str) -> (r: Option<usize>)
        ensures
            match r {
                Some(i) => i < self.entries().len()
                    && self.entries()[i as int].key@ == key@
                    && cfg_lookup(self.entries(), key@)
                        == Some(self.entries()[i as int].value@)
                    && forall|j: int| 0 <= j < i
                        ==> (#[trigger] self.entries()[j].key@) != key@,
                None => cfg_lookup(self.entries(), key@) is None
                    && forall|j: int| 0 <= j < self.entries().len()
                        ==> (#[trigger] self.entries()[j].key@) != key@,
            },
    {
        let n = self.values.len();
        let mut i: usize = 0;
        proof {
            assert(self.entries().skip(0) =~= self.entries());
        }
        while i < n
            invariant
                n == self.entries().len(),
                i <= n,
                cfg_lookup(self.entries(), key@)
                    == cfg_lookup(self.entries().skip(i as int), key@),
                forall|j: int| 0 <= j < i
                    ==> (#[trigger] self.entries()[j].key@) != key@,
            decreases n - i,
        {
            proof {
                assert(self.entries().skip(i as int)[0] == self.entries()[i as int]);
                assert(self.entries().skip(i as int).drop_first()
                    =~= self.entries().skip(i + 1));
            }
            if str_eq(self.values[i].key.as_str(), key) {
                return Some(i);
            }
            i = i + 1;
        }
        proof {
            assert(self.entries().skip(n as int) =~= Seq::<ConfigEntry>::empty());
        }
        None
    }

    /// The setting stored under `key`.
    pub fn get(&self, key: &str) -> (r: Option<&ConfigValue>)
        ensures
            match r {
                Some(v) => cfg_lookup(self.entries(), key@) == Some(v@),
                None => cfg_lookup(self.entries(), key@) is None,
            },
    {
        match self.find_key(key) {
            Some(i) => Some(&self.values[i].value),
            None => None,
        }
    }

    /// Stores `value` under `key`, replacing any previous setting.
    pub fn set(&mut self, key: &str, value: ConfigValue)
        requires
            old(self).wf(),
        ensures
            final(self).wf(),
            final(self).modified_spec(),
            final(self).config_file_spec() == old(self).config_file_spec(),
            cfg_lookup(final(self).entries(), key@) == Some(value@),
            forall|k: Seq<char>| k != key@
                ==> #[trigger] cfg_lookup(final(self).entries(), k)
                    == cfg_lookup(old(self).entries(), k),
    {
        let entry = ConfigEntry { key: key.to_owned(), value };
        match self.find_key(key) {
            Some(i) => {
                self.values[i] = entry;
                self.modified = true;
                proof {
                    let pre = old(self).entries();
                    let post = final(self).entries();
                    assert(post =~= pre.update(i as int, post[i as int]));
                    Self::lemma_lookup_update(pre, post, i as int, key@);
                    assert(final(self).wf()) by {
                        assert forall|a: int, b: int| 0 <= a < b < post.len()
                            implies (#[trigger] post[a].key@)
                                != (#[trigger] post[b].key@) by {
                            assert(pre[a].key@ != pre[b].key@);
                        }
                    }
                }
            },
            None => {
                self.values.push(entry);
                self.modified = true;
                proof {
                    let pre = old(self).entries();
                    let post = final(self).entries();
                    Self::lemma_lookup_push(pre, post[post.len() - 1], key@);
                    assert(final(self).wf()) by {
                        assert forall|a: int, b: int| 0 <= a < b < post.len()
                            implies (#[trigger] post[a].key@)
                                != (#[trigger] post[b].key@) by {
                            if b < post.len() - 1 {
                                assert(pre[a].key@ != pre[b].key@);
                            } else {
                                assert(pre[a].key@ != key@);
                            }
                        }
                    }
                }
            },
        }
    }

    /// After replacing the entry at the unique index of `key`, that key
    /// reads the new value and every other key is untouched.
    proof fn lemma_lookup_update(
        pre: Seq<ConfigEntry>,
        post: Seq<ConfigEntry>,
        i: int,
        key: Seq<char>,
    )
        requires
            pre.len() == post.len(),
            0 <= i < pre.len(),
            pre[i].key@ == key,
            post[i].key@ == key,
            forall|j: int| 0 <= j < pre.len() && j != i ==> post[j] == pre[j],
            forall|j: int| 0 <= j < i ==> (#[trigger] pre[j].key@) != key,
        ensures
            cfg_lookup(post, key) == Some(post[i].value@),
            forall|k: Seq<char>| k != key
                ==> #[trigger] cfg_lookup(post, k) == cfg_lookup(pre, k),
        decreases pre.len(),
    {
        if i == 0 {
            assert forall|k: Seq<char>| k != key
                implies #[trigger] cfg_lookup(post, k) == cfg_lookup(pre, k) by {
                assert(post.drop_first() =~= pre.drop_first());
            }
        } else {
            Self::lemma_lookup_update(pre.drop_first(), post.drop_first(), i - 1, key);
            assert(post[0] == pre[0]);
            assert(pre[0].key@ != key);
            assert(cfg_lookup(post, key)
                == cfg_lookup(post.drop_first(), key));
            assert(post.drop_first()[i - 1] == post[i]);
            assert forall|k: Seq<char>| k != key
                implies #[trigger] cfg_lookup(post, k) == cfg_lookup(pre, k) by {
                assert(cfg_lookup(post.drop_first(), k)
                    == cfg_lookup(pre.drop_first(), k));
            }
        }
    }

    /// After appending an entry under a fresh key, that key reads the new
    /// value and every other key is untouched.
    proof fn lemma_lookup_push(pre: Seq<ConfigEntry>, e: ConfigEntry, key: Seq<char>)
        requires
            e.key@ == key,
            forall|j: int| 0 <= j < pre.len() ==> (#[trigger] pre[j].key@) != key,
        ensures
            cfg_lookup(pre.push(e), key) == Some(e.value@),
            forall|k: Seq<char>| k != key
                ==> #[trigger] cfg_lookup(pre.push(e), k) == cfg_lookup(pre, k),
        decreases pre.len(),
    {
        if pre.len() == 0 {
            assert(pre.push(e)[0] == e);
            assert forall|k: Seq<char>| k != key
                implies #[trigger] cfg_lookup(pre.push(e), k) == cfg_lookup(pre, k) by {
                assert(pre.push(e).drop_first() =~= Seq::<ConfigEntry>::empty());
                assert(cfg_lookup(Seq::<ConfigEntry>::empty(), k) is None);
                assert(cfg_lookup(pre, k) is None);
                assert(cfg_lookup(pre.push(e), k) is None);
            }
        } else {
            assert forall|j: int| 0 <= j < pre.drop_first().len()
                implies (#[trigger] pre.drop_first()[j].key@) != key by {
                assert(pre[j + 1].key@ != key);
            }
            Self::lemma_lookup_push(pre.drop_first(), e, key);
            assert(pre.push(e)[0] == pre[0]);
            assert(pre.push(e).drop_first() =~= pre.drop_first().push(e));
            assert(pre[0].key@ != key);
            assert(cfg_lookup(pre.push(e), key) == Some(e.value@));
            assert forall|k: Seq<char>| k != key
                implies #[trigger] cfg_lookup(pre.push(e), k)
                    == cfg_lookup(pre, k) by {
                assert(cfg_lookup(pre.drop_first().push(e), k)
                    == cfg_lookup(pre.drop_first(), k));
            }
        }
    }

    /// After removing the entry at the unique index of `key`, that key is
    /// gone and every other key is untouched.
    proof fn lemma_lookup_remove(pre: Seq<ConfigEntry>, i: int, key: Seq<char>)
        requires
            0 <= i < pre.len(),
            pre[i].key@ == key,
            forall|a: int, b: int| 0 <= a < b < pre.len()
                ==> (#[trigger] pre[a].key@) != (#[trigger] pre[b].key@),
        ensures
            cfg_lookup(pre.remove(i), key) is None,
            forall|k: Seq<char>| k != key
                ==> #[trigger] cfg_lookup(pre.remove(i), k) == cfg_lookup(pre, k),
        decreases pre.len(),
    {
        if i == 0 {
            assert(pre.remove(0) =~= pre.drop_first());
            assert forall|j: int| 0 <= j < pre.drop_first().len()
                implies (#[trigger] pre.drop_first()[j].key@) != key by {
                assert(pre[0].key@ != pre[j + 1].key@);
            }
            Self::lemma_lookup_absent(pre.drop_first(), key);
        } else {
            assert forall|a: int, b: int| 0 <= a < b < pre.drop_first().len()
                implies (#[trigger] pre.drop_first()[a].key@)
                    != (#[trigger] pre.drop_first()[b].key@) by {
                assert(pre[a + 1].key@ != pre[b + 1].key@);
            }
            assert(pre.drop_first()[i - 1].key@ == key);
            Self::lemma_lookup_remove(pre.drop_first(), i - 1, key);
            assert(pre.remove(i)[0] == pre[0]);
            assert(pre.remove(i).drop_first() =~= pre.drop_first().remove(i - 1));
            assert(pre[0].key@ != key) by {
                assert(pre[0].key@ != pre[i].key@);
            }
            assert(cfg_lookup(pre.remove(i), key) is None);
            assert forall|k: Seq<char>| k != key
                implies #[trigger] cfg_lookup(pre.remove(i), k)
                    == cfg_lookup(pre, k) by {
                assert(cfg_lookup(pre.drop_first().remove(i - 1), k)
                    == cfg_lookup(pre.drop_first(), k));
            }
        }
    }

    /// A key held by no entry reads as absent.
    proof fn lemma_lookup_absent(es: Seq<ConfigEntry>, key: Seq<char>)
        requires
            forall|j: int| 0 <= j < es.len() ==> (#[trigger] es[j].key@) != key,
        ensures
            cfg_lookup(es, key) is None,
        decreases es.len(),
    {
        if es.len() > 0 {
            Self::lemma_lookup_absent(es.drop_first(), key);
        }
    }

    /// Removes the setting under `key` and hands it back.
    pub fn remove(&mut self, key: &str) -> (r: Option<ConfigValue>)
        requires
            old(self).wf(),
        ensures
            final(self).wf(),
            final(self).config_file_spec() == old(self).config_file_spec(),
            match r {
                Some(v) => {
                    &&& cfg_lookup(old(self).entries(), key@) == Some(v@)
                    &&& cfg_lookup(final(self).entries(), key@) is None
                    &&& forall|k: Seq<char>| k != key@
                        ==> #[trigger] cfg_lookup(final(self).entries(), k)
                            == cfg_lookup(old(self).entries(), k)
                    &&& final(self).modified_spec()
                },
                None => *final(self) == *old(self)
                    && cfg_lookup(old(self).entries(), key@) is None,
            },
    {
        match self.find_key(key) {
            Some(i) => {
                let entry = self.values.remove(i);
                self.modified = true;
                proof {
                    Self::lemma_lookup_remove(old(self).entries(), i as int, key@);
                    assert(final(self).wf()) by {
                        let pre = old(self).entries();
                        let post = final(self).entries();
                        assert forall|a: int, b: int| 0 <= a < b < post.len()
                            implies (#[trigger] post[a].key@)
                                != (#[trigger] post[b].key@) by {
                            if a < i as int {
                                assert(post[a] == pre[a]);
                            } else {
                                assert(post[a] == pre[a + 1]);
                            }
                            if b < i as int {
                                assert(post[b] == pre[b]);
                            } else {
                                assert(post[b] == pre[b + 1]);
                            }
                        }
                    }
                }
                Some(entry.value)
            },
            None => None,
        }
    }

    /// Fills in the default settings of a fresh system.
    pub fn set_defaults(&mut self)
        requires
            old(self).wf(),
        ensures
            final(self).wf(),
            final(self).modified_spec(),
            final(self).config_file_spec() == old(self).config_file_spec(),
            cfg_lookup(final(self).entries(), "system.name"@)
                == Some(CfgView::S("UniverseK OS"@)),
            cfg_lookup(final(self).entries(), "system.version"@)
                == Some(CfgView::S("0.1.0"@)),
            cfg_lookup(final(self).entries(), "system.safe_mode"@)
                == Some(CfgView::B(true)),
            cfg_lookup(final(self).entries(), "ui.theme"@)
                == Some(CfgView::S("default"@)),
            cfg_lookup(final(self).entries(), "ui.color_scheme"@)
                == Some(CfgView::S("blue"@)),
            cfg_lookup(final(self).entries(), "fs.root_device"@)
                == Some(CfgView::S("ramdisk"@)),
            cfg_lookup(final(self).entries(), "fs.automount"@)
                == Some(CfgView::B(true)),
            cfg_lookup(final(self).entries(), "network.enabled"@)
                == Some(CfgView::B(false)),
            cfg_lookup(final(self).entries(), "network.dhcp"@)
                == Some(CfgView::B(true)),
            cfg_lookup(final(self).entries(), "user.auto_login"@)
                == Some(CfgView::B(false)),
            cfg_lookup(final(self).entries(), "user.default"@)
                == Some(CfgView::S("user"@)),
    {
        self.set("system.name", ConfigValue::string("UniverseK OS"));
        self.set("system.version", ConfigValue::string("0.1.0"));
        self.set("system.safe_mode", ConfigValue::boolean(true));
        self.set("ui.theme", ConfigValue::string("default"));
        self.set("ui.color_scheme", ConfigValue::string("blue"));
        self.set("fs.root_device", ConfigValue::string("ramdisk"));
        self.set("fs.automount", ConfigValue::boolean(true));
        self.set("network.enabled", ConfigValue::boolean(false));
        self.set("network.dhcp", ConfigValue::boolean(true));
        self.set("user.auto_login", ConfigValue::boolean(false));
        self.set("user.default", ConfigValue::string("user"));
        proof {
            reveal_strlit("system.name");
            reveal_strlit("system.version");
            reveal_strlit("system.safe_mode");
            reveal_strlit("ui.theme");
            reveal_strlit("ui.color_scheme");
            reveal_strlit("fs.root_device");
            reveal_strlit("fs.automount");
            reveal_strlit("network.enabled");
            reveal_strlit("network.dhcp");
            reveal_strlit("user.auto_login");
            reveal_strlit("user.default");
            assert("system.name"@.len() == 11);
            assert("system.version"@.len() == 14);
            assert("system.safe_mode"@.len() == 16);
            assert("ui.theme"@.len() == 8);
            assert("ui.color_scheme"@.len() == 15);
            assert("fs.root_device"@.len() == 14);
            assert("fs.automount"@.len() == 12);
            assert("network.enabled"@.len() == 15);
            assert("network.dhcp"@.len() == 12);
            assert("user.auto_login"@.len() == 15);
            assert("user.default"@.len() == 12);
            assert("system.version"@[0] == 's');
            assert("fs.root_device"@[0] == 'f');
            assert("ui.color_scheme"@[0] == 'u');
            assert("ui.color_scheme"@[1] == 'i');
            assert("network.enabled"@[0] == 'n');
            assert("user.auto_login"@[0] == 'u');
            assert("user.auto_login"@[1] == 's');
            assert("fs.automount"@[0] == 'f');
            assert("network.dhcp"@[0] == 'n');
            assert("user.default"@[0] == 'u');
            assert("user.default"@[1] == 's');
        }
    }

    /// Whether the boot option `option` is switched on: only a stored
    /// switch value under `boot.option` counts.
    pub fn is_boot_option_enabled(&self, option: &str) -> (r: bool)
        ensures
            r == (cfg_lookup(self.entries(), "boot."@ + option@)
                == Some(CfgView::B(true))),
    {
        let mut key = String::new();
        append_str(&mut key, "boot.");
        append_str(&mut key, option);
        match self.get(key.as_str()) {
            Some(v) => match v {
                ConfigValue::Boolean(b) => *b,
                _ => false,
            },
            None => false,
        }
    }

    /// Switches the boot option `option`.
    pub fn set_boot_option(&mut self, option: &str, enabled: bool)
        requires
            old(self).wf(),
        ensures
            final(self).wf(),
            final(self).modified_spec(),
            cfg_lookup(final(self).entries(), "boot."@ + option@)
                == Some(CfgView::B(enabled)),
            forall|k: Seq<char>| k != "boot."@ + option@
                ==> #[trigger] cfg_lookup(final(self).entries(), k)
                    == cfg_lookup(old(self).entries(), k),
    {
        let mut key = String::new();
        append_str(&mut key, "boot.");
        append_str(&mut key, option);
        self.set(key.as_str(), ConfigValue::boolean(enabled));
    }

    /// Loads the configuration from its standard file.
    pub fn load(&mut self, vfs: &VfsManager) -> (r: Result<(), KernelError>)
        requires
            old(self).wf(),
            vfs.wf(),
        ensures
            final(self).wf(),
    {
        let path = self.config_file.clone();
        self.load_from_file(vfs, path.as_str())
    }

    /// Loads the configuration from a file: a missing or empty file keeps
    /// the defaults; otherwise every `key=value` line is parsed, comments
    /// and blank lines are skipped, and values are classified as switches,
    /// integers or text.
    pub fn load_from_file(&mut self, vfs: &VfsManager, path: &str)
        -> (r: Result<(), KernelError>)
        requires
            old(self).wf(),
            vfs.wf(),
        ensures
            final(self).wf(),
            r is Ok ==> final(self).config_file_spec()
                == old(self).config_file_spec(),
    {
        let meta = vfs.metadata(path);
        match meta {
            Err(KernelError::NotFound) => {
                self.set_defaults();
                return Ok(());
            },
            _ => {},
        }
        let mut buffer: Vec<u8> = Vec::new();
        let mut i: usize = 0;
        while i < 1024
            invariant
                i <= 1024,
                buffer@.len() == i,
            decreases 1024 - i,
        {
            buffer.push(0u8);
            i = i + 1;
        }
        let bytes_read = match crate::storage::direct_read_file(vfs, path, &mut buffer) {
            Ok(n) => n,
            Err(e) => {
                return Err(e);
            },
        };
        if bytes_read == 0 {
            self.set_defaults();
            return Ok(());
        }
        let len = if bytes_read > 1024 { 1024 } else { bytes_read };
        let content = match crate::strutil::ascii_bytes_to_string(&buffer, len) {
            Some(s) => s,
            None => {
                return Err(KernelError::InvalidData);
            },
        };
        self.values.clear();
        proof {
            assert(self.wf());
        }
        let lines = crate::strutil::split_char(content.as_str(), '\n');
        let nlines = lines.len();
        let mut li: usize = 0;
        while li < nlines
            invariant
                self.wf(),
                self.config_file_spec() == old(self).config_file_spec(),
                nlines == lines@.len(),
            decreases nlines - li,
        {
            let line = trim(lines[li].as_str());
            let line_len = line.as_str().unicode_len();
            if line_len > 0 && line.as_str().get_char(0) != '#' {
                match find_char(line.as_str(), '=') {
                    Some(pos) => {
                        let raw_key = line.as_str().substring_char(0, pos);
                        let key = trim(raw_key);
                        let raw_value = line.as_str().substring_char(pos + 1, line_len);
                        let value = trim(raw_value);
                        if key.as_str().unicode_len() > 0 {
                            self.set(key.as_str(), value_of_str(value.as_str()));
                        }
                    },
                    None => {},
                }
            }
            li = li + 1;
        }
        self.modified = false;
        Ok(())
    }

    /// Saves the configuration to its standard file.
    pub fn save(&mut self, vfs: &mut VfsManager) -> (r: Result<(), KernelError>)
        requires
            old(self).wf(),
            old(vfs).wf(),
        ensures
            final(self).wf(),
            final(vfs).wf(),
            final(vfs).mounts().len() == old(vfs).mounts().len(),
    {
        let path = self.config_file.clone();
        self.save_to_file(vfs, path.as_str())
    }

    /// The file text of the stored settings, one `key=value` line each.
    pub fn render(&self) -> (r: String)
        ensures
            r@ == render_entries(self.entries()),
    {
        let mut out = String::new();
        let n = self.values.len();
        let mut i: usize = 0;
        proof {
            assert(self.entries().take(0) =~= Seq::<ConfigEntry>::empty());
        }
        while i < n
            invariant
                n == self.entries().len(),
                i <= n,
                out@ == render_entries(self.entries().take(i as int)),
            decreases n - i,
        {
            proof {
                assert(self.entries().take(i + 1).drop_last()
                    =~= self.entries().take(i as int));
                assert(self.entries().take(i + 1).last() == self.entries()[i as int]);
            }
            append_str(&mut out, self.values[i].key.as_str());
            push_char(&mut out, '=');
            let value_text = self.values[i].value.as_string();
            append_str(&mut out, value_text.as_str());
            push_char(&mut out, '\n');
            proof {
                assert(out@ =~= render_entries(self.entries().take(i + 1)));
            }
            i = i + 1;
        }
        proof {
            assert(self.entries().take(n as int) =~= self.entries());
        }
        out
    }

    /// Saves the configuration to a file: the file is created (or emptied
    /// by recreation), a comment header is written, then one `key=value`
    /// line per setting.
    pub fn save_to_file(&mut self, vfs: &mut VfsManager, path: &str)
        -> (r: Result<(), KernelError>)
        requires
            old(self).wf(),
            old(vfs).wf(),
        ensures
            final(self).wf(),
            final(vfs).wf(),
            final(vfs).mounts().len() == old(vfs).mounts().len(),
            r is Ok ==> !final(self).modified_spec(),
    {
        let created = vfs.create_file(path);
        match created {
            Err(KernelError::AlreadyExists) => {
                match vfs.remove(path) {
                    Ok(_) => {},
                    Err(e) => {
                        return Err(e);
                    },
                }
                match vfs.create_file(path) {
                    Ok(_) => {},
                    Err(e) => {
                        return Err(e);
                    },
                }
            },
            _ => {},
        }
        let mut content = String::new();
        append_str(&mut content, "# Kernel configuration\n");
        append_str(&mut content, "# Auto-generated - do not edit manually\n\n");
        let body = self.render();
        append_str(&mut content, body.as_str());
        let bytes = content.as_str().as_bytes_vec();
        proof {
            vstd::std_specs::vec::axiom_spec_len(&bytes);
        }
        match crate::storage::direct_write_file(vfs, path, bytes.as_slice()) {
            Ok(_) => {},
            Err(e) => {
                return Err(e);
            },
        }
        self.modified = false;
        Ok(())
    }
}

/// The file text of a setting list.
pub open spec fn render_entries(es: Seq<ConfigEntry>) -> Seq<char>
    decreases es.len(),
{
    if es.len() == 0 {
        Seq::empty()
    } else {
        render_entries(es.drop_last()) + es.last().key@ + seq!['=']
            + cfg_value_str(es.last().value@) + seq!['\n']
    }
}

} // verus!
