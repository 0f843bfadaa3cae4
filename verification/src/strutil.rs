//! Small verified string helpers shared by the kernel subsystems: building
//! strings character by character, decimal formatting, integer parsing and
//! prefix tests.

use vstd::prelude::*;
use vstd::string::StrSliceExecFns;

verus! {

/// Relies on `String::push` of std: appends the given character to the end
/// of the string.
#[verifier::external_body]
pub fn push_char(s: &mut String, c: char)
    ensures
        final(s)@ == old(s)@.push(c),
{
    s.push(c);
}

/// Appends every character of `t` to `s`.
pub fn append_str(s: &mut String, t: &str)
    ensures
        final(s)@ == old(s)@ + t@,
{
    let n: usize = t.unicode_len();
    let mut i: usize = 0;
    while i < n
        invariant
            n == t@.len(),
            i <= n,
            s@ == old(s)@ + t@.subrange(0, i as int),
        decreases n - i,
    {
        let c = t.get_char(i);
        push_char(s, c);
        i = i + 1;
        proof {
            assert(s@ =~= old(s)@ + t@.subrange(0, i as int));
        }
    }
    proof {
        assert(t@.subrange(0, n as int) =~= t@);
        assert(s@ =~= old(s)@ + t@);
    }
}

/// The decimal digit character for a value below ten.
pub open spec fn dec_digit(d: nat) -> char {
    if d == 0 { '0' }
    else if d == 1 { '1' }
    else if d == 2 { '2' }
    else if d == 3 { '3' }
    else if d == 4 { '4' }
    else if d == 5 { '5' }
    else if d == 6 { '6' }
    else if d == 7 { '7' }
    else if d == 8 { '8' }
    else { '9' }
}

/// The decimal representation of a natural number, most significant digit
/// first, with no leading zeros (a single `'0'` for zero).
pub open spec fn dec_str(n: nat) -> Seq<char>
    decreases n,
{
    if n < 10 {
        seq![dec_digit(n)]
    } else {
        dec_str(n / 10).push(dec_digit(n % 10))
    }
}

/// The decimal digit character for `d < 10`.
pub fn digit_char(d: u8) -> (c: char)
    requires
        d < 10,
    ensures
        c == dec_digit(d as nat),
{
    match d {
        0 => '0',
        1 => '1',
        2 => '2',
        3 => '3',
        4 => '4',
        5 => '5',
        6 => '6',
        7 => '7',
        8 => '8',
        _ => '9',
    }
}

/// Appends the decimal representation of `n` to `s`.
pub fn append_u64(s: &mut String, n: u64)
    ensures
        final(s)@ == old(s)@ + dec_str(n as nat),
    decreases n,
{
    if n < 10 {
        push_char(s, digit_char(n as u8));
    } else {
        append_u64(s, n / 10);
        push_char(s, digit_char((n % 10) as u8));
        proof {
            assert(s@ =~= old(s)@ + dec_str(n as nat));
        }
    }
}

/// The decimal representation of `n`, as a fresh string.
pub fn u64_to_string(n: u64) -> (s: String)
    ensures
        s@ == dec_str(n as nat),
{
    let mut s = String::new();
    append_u64(&mut s, n);
    proof {
        assert(s@ =~= dec_str(n as nat));
    }
    s
}

/// The decimal representation of a signed value: a leading `'-'` for
/// negative values, then the digits of the magnitude.
pub open spec fn dec_str_i64(n: int) -> Seq<char> {
    if n < 0 {
        seq!['-'] + dec_str((-n) as nat)
    } else {
        dec_str(n as nat)
    }
}

/// The decimal representation of `n`, sign included, as a fresh string.
pub fn i64_to_string(n: i64) -> (s: String)
    ensures
        s@ == dec_str_i64(n as int),
{
    let mut s = String::new();
    if n < 0 {
        push_char(&mut s, '-');
        // -i64::MIN does not fit in i64; compute the magnitude in u64.
        let mag: u64 = ((-(n + 1)) as u64) + 1;
        assert(mag == -(n as int));
        append_u64(&mut s, mag);
        proof {
            assert(s@ =~= dec_str_i64(n as int));
        }
    } else {
        append_u64(&mut s, n as u64);
    }
    s
}

/// The decimal representation of `n`, left-padded with `'0'` to at least
/// `width` characters.
pub open spec fn dec_str_pad(n: nat, width: nat) -> Seq<char> {
    let d = dec_str(n);
    if d.len() >= width {
        d
    } else {
        Seq::new((width - d.len()) as nat, |i: int| '0') + d
    }
}

/// How many decimal digits `n` has.
pub fn dec_len(n: u64) -> (r: usize)
    ensures
        r == dec_str(n as nat).len(),
    decreases n,
{
    if n < 10 {
        1
    } else {
        let rest = dec_len(n / 10);
        assert(rest < usize::MAX) by {
            assert(pow10(20) == 100000000000000000000) by {
                reveal_with_fuel(pow10, 21);
            }
            lemma_dec_str_len_bound((n / 10) as nat, 20);
        }
        rest + 1
    }
}

/// Powers of ten.
pub open spec fn pow10(d: nat) -> nat
    decreases d,
{
    if d == 0 {
        1
    } else {
        10 * pow10((d - 1) as nat)
    }
}

/// A number below the `d`-th power of ten has at most `d` decimal digits.
pub proof fn lemma_dec_str_len_bound(n: nat, d: nat)
    requires
        1 <= d,
        n < pow10(d),
    ensures
        dec_str(n).len() <= d,
    decreases n,
{
    if n >= 10 {
        if d == 1 {
            assert(pow10(1) == 10) by {
                reveal_with_fuel(pow10, 2);
            }
        }
        assert(pow10(d) == 10 * pow10((d - 1) as nat));
        assert(pow10((d - 1) as nat) >= 1) by {
            lemma_pow10_pos((d - 1) as nat);
        }
        assert(n / 10 < pow10((d - 1) as nat)) by (nonlinear_arith)
            requires
                n < 10 * pow10((d - 1) as nat),
                pow10((d - 1) as nat) >= 1,
        ;
        lemma_dec_str_len_bound(n / 10, (d - 1) as nat);
    }
}

/// Powers of ten are positive.
pub proof fn lemma_pow10_pos(d: nat)
    ensures
        pow10(d) >= 1,
    decreases d,
{
    if d > 0 {
        lemma_pow10_pos((d - 1) as nat);
    }
}

/// Appends `n` in decimal, zero-padded on the left to at least `width`
/// characters.
pub fn append_u64_pad(s: &mut String, n: u64, width: usize)
    ensures
        final(s)@ == old(s)@ + dec_str_pad(n as nat, width as nat),
{
    let digits = dec_len(n);
    let mut i: usize = digits;
    while i < width
        invariant
            digits == dec_str(n as nat).len(),
            digits <= i || i == digits,
            i <= width || digits >= width,
            digits <= i,
            i <= vstd::math::max(width as int, digits as int),
            s@ == old(s)@ + Seq::new((i - digits) as nat, |k: int| '0'),
        decreases width - i,
    {
        push_char(s, '0');
        i = i + 1;
    }
    append_u64(s, n);
    proof {
        if digits >= width {
            assert(s@ =~= old(s)@ + dec_str_pad(n as nat, width as nat));
        } else {
            assert(s@ =~= old(s)@ + dec_str_pad(n as nat, width as nat));
        }
    }
}

/// Whether `p` is a character-for-character prefix of `s`.
pub fn str_is_prefix(p: &str, s: &str) -> (r: bool)
    ensures
        r == p@.is_prefix_of(s@),
{
    let pn = p.unicode_len();
    let sn = s.unicode_len();
    if pn > sn {
        assert(!p@.is_prefix_of(s@));
        return false;
    }
    let mut i: usize = 0;
    while i < pn
        invariant
            pn == p@.len(),
            sn == s@.len(),
            pn <= sn,
            i <= pn,
            forall|j: int| 0 <= j < i ==> p@[j] == s@[j],
        decreases pn - i,
    {
        if p.get_char(i) != s.get_char(i) {
            assert(!p@.is_prefix_of(s@));
            return false;
        }
        i = i + 1;
    }
    proof {
        assert(p@ =~= s@.subrange(0, pn as int));
    }
    true
}

/// Whether two strings hold the same characters.
pub fn str_eq(a: &str, b: &str) -> (r: bool)
    ensures
        r == (a@ == b@),
{
    let an = a.unicode_len();
    let bn = b.unicode_len();
    if an != bn {
        return false;
    }
    let mut i: usize = 0;
    while i < an
        invariant
            an == a@.len(),
            bn == b@.len(),
            an == bn,
            i <= an,
            forall|j: int| 0 <= j < i ==> a@[j] == b@[j],
        decreases an - i,
    {
        if a.get_char(i) != b.get_char(i) {
            return false;
        }
        i = i + 1;
    }
    proof {
        assert(a@ =~= b@);
    }
    true
}

/// ASCII whitespace: space, tab, carriage return, line feed.
pub open spec fn is_ascii_ws(c: char) -> bool {
    c == ' ' || c == '\t' || c == '\r' || c == '\n'
}

/// How many whitespace characters lead `s`.
pub open spec fn leading_ws(s: Seq<char>) -> nat
    decreases s.len(),
{
    if s.len() == 0 {
        0
    } else if is_ascii_ws(s[0]) {
        1 + leading_ws(s.drop_first())
    } else {
        0
    }
}

/// How many whitespace characters trail `s`.
pub open spec fn trailing_ws(s: Seq<char>) -> nat
    decreases s.len(),
{
    if s.len() == 0 {
        0
    } else if is_ascii_ws(s.last()) {
        1 + trailing_ws(s.drop_last())
    } else {
        0
    }
}

/// `s` with leading and trailing ASCII whitespace removed.
pub open spec fn trim_spec(s: Seq<char>) -> Seq<char> {
    let t = s.skip(leading_ws(s) as int);
    t.take(t.len() - trailing_ws(t))
}

proof fn lemma_leading_ws(s: Seq<char>)
    ensures
        leading_ws(s) <= s.len(),
        forall|j: int| 0 <= j < leading_ws(s) ==> is_ascii_ws(#[trigger] s[j]),
        leading_ws(s) < s.len() ==> !is_ascii_ws(s[leading_ws(s) as int]),
    decreases s.len(),
{
    if s.len() > 0 && is_ascii_ws(s[0]) {
        lemma_leading_ws(s.drop_first());
        let v = s.drop_first();
        assert forall|j: int| 0 <= j < leading_ws(s) implies is_ascii_ws(#[trigger] s[j]) by {
            if j > 0 {
                assert(is_ascii_ws(v[j - 1]));
            }
        }
    }
}

proof fn lemma_trailing_ws(s: Seq<char>)
    ensures
        trailing_ws(s) <= s.len(),
        forall|j: int|
            s.len() - trailing_ws(s) <= j < s.len() ==> is_ascii_ws(#[trigger] s[j]),
        trailing_ws(s) < s.len()
            ==> !is_ascii_ws(s[s.len() - trailing_ws(s) - 1]),
    decreases s.len(),
{
    if s.len() > 0 && is_ascii_ws(s.last()) {
        lemma_trailing_ws(s.drop_last());
        let v = s.drop_last();
        assert forall|j: int|
            s.len() - trailing_ws(s) <= j < s.len()
            implies is_ascii_ws(#[trigger] s[j]) by {
            if j < s.len() - 1 {
                assert(is_ascii_ws(v[j]));
            }
        }
    }
}

/// Tests a character for ASCII whitespace.
fn is_ws_char(c: char) -> (r: bool)
    ensures
        r == is_ascii_ws(c),
{
    c == ' ' || c == '\t' || c == '\r' || c == '\n'
}

/// Removes leading and trailing ASCII whitespace.
pub fn trim(s: &str) -> (r: String)
    ensures
        r@ == trim_spec(s@),
{
    proof {
        lemma_leading_ws(s@);
    }
    let n = s.unicode_len();
    let mut a: usize = 0;
    while a < n && is_ws_char(s.get_char(a))
        invariant
            n == s@.len(),
            a <= n,
            forall|j: int| 0 <= j < a ==> is_ascii_ws(#[trigger] s@[j]),
            a <= leading_ws(s@),
            leading_ws(s@) <= n,
            forall|j: int| 0 <= j < leading_ws(s@) ==> is_ascii_ws(#[trigger] s@[j]),
            leading_ws(s@) < n ==> !is_ascii_ws(s@[leading_ws(s@) as int]),
        decreases n - a,
    {
        proof {
            assert(a != leading_ws(s@));
        }
        a = a + 1;
    }
    proof {
        assert(a == leading_ws(s@));
        lemma_trailing_ws(s@.skip(a as int));
    }
    let ghost t = s@.skip(a as int);
    let mut b: usize = n;
    while b > a && is_ws_char(s.get_char(b - 1))
        invariant
            n == s@.len(),
            a <= b <= n,
            t == s@.skip(a as int),
            forall|j: int| b <= j < n ==> is_ascii_ws(#[trigger] s@[j]),
            trailing_ws(t) <= t.len(),
            forall|j: int|
                t.len() - trailing_ws(t) <= j < t.len()
                    ==> is_ascii_ws(#[trigger] t[j]),
            trailing_ws(t) < t.len()
                ==> !is_ascii_ws(t[t.len() - trailing_ws(t) - 1]),
            n - b <= trailing_ws(t),
            forall|j: int| 0 <= j < leading_ws(s@) ==> is_ascii_ws(#[trigger] s@[j]),
            a == leading_ws(s@),
            a < n ==> !is_ascii_ws(s@[a as int]),
        decreases b,
    {
        proof {
            assert(t[b - 1 - a] == s@[b - 1]);
            if n - b == trailing_ws(t) {
                if trailing_ws(t) < t.len() {
                    assert(t[t.len() - trailing_ws(t) - 1] == s@[b - 1]);
                }
            }
        }
        b = b - 1;
    }
    proof {
        if b > a {
            assert(t[b - a - 1] == s@[b - 1]);
            assert(n - b >= trailing_ws(t)) by {
                if n - b < trailing_ws(t) {
                    assert(is_ascii_ws(t[b - a - 1]));
                }
            }
        } else {
            assert(b == a);
            assert(n - b >= trailing_ws(t)) by {
                if n - a < trailing_ws(t) {
                    assert(trailing_ws(t) > t.len());
                }
            }
        }
        assert(n - b == trailing_ws(t));
    }
    let r = s.substring_char(a, b).to_owned();
    proof {
        assert(r@ =~= trim_spec(s@));
    }
    r
}

/// Whether `c` is a decimal digit.
pub open spec fn is_digit(c: char) -> bool {
    '0' <= c <= '9'
}

/// The numeric value of a run of decimal digits.
pub open spec fn digits_val(s: Seq<char>) -> nat
    decreases s.len(),
{
    if s.len() == 0 {
        0
    } else {
        digits_val(s.drop_last()) * 10 + (s.last() as int - 48) as nat
    }
}

/// The digit run of an optionally signed integer literal: everything
/// after a single leading sign.
pub open spec fn int_digits(s: Seq<char>) -> Seq<char> {
    if s.len() >= 1 && (s[0] == '+' || s[0] == '-') {
        s.drop_first()
    } else {
        s
    }
}

/// Whether `s` is an optionally signed decimal integer literal.
pub open spec fn int_literal_ok(s: Seq<char>) -> bool {
    int_digits(s).len() >= 1 && forall|j: int| 0 <= j < int_digits(s).len()
        ==> is_digit(#[trigger] int_digits(s)[j])
}

/// The value of an optionally signed decimal integer literal.
pub open spec fn int_literal_val(s: Seq<char>) -> int {
    if s.len() >= 1 && s[0] == '-' {
        -(digits_val(s.drop_first()) as int)
    } else {
        digits_val(int_digits(s)) as int
    }
}

/// Extending a digit run never shrinks its value.
proof fn lemma_digits_val_monotone(s: Seq<char>, i: int)
    requires
        0 <= i <= s.len(),
    ensures
        digits_val(s.take(i)) <= digits_val(s),
    decreases s.len() - i,
{
    if i < s.len() {
        lemma_digits_val_monotone(s, i + 1);
        assert(s.take(i + 1).drop_last() =~= s.take(i));
        assert(digits_val(s.take(i)) <= digits_val(s.take(i + 1)));
    } else {
        assert(s.take(i) =~= s);
    }
}

/// Parses an optionally signed decimal integer, as `i64` parsing does:
/// `None` for a malformed literal or one whose value does not fit.
pub fn parse_i64(s: &str) -> (r: Option<i64>)
    ensures
        match r {
            Some(v) => int_literal_ok(s@) && v as int == int_literal_val(s@),
            None => !int_literal_ok(s@)
                || int_literal_val(s@) < i64::MIN
                || int_literal_val(s@) > i64::MAX,
        },
{
    let n = s.unicode_len();
    if n == 0 {
        return None;
    }
    let first = s.get_char(0);
    let neg = first == '-';
    let has_sign = first == '-' || first == '+';
    let start: usize = if has_sign { 1 } else { 0 };
    let ghost digits = if has_sign { s@.drop_first() } else { s@ };
    if start >= n {
        proof {
            assert(digits.len() == 0);
        }
        return None;
    }
    let limit: u64 = if neg { 9223372036854775808u64 } else { 9223372036854775807u64 };
    let mut mag: u64 = 0;
    let mut i: usize = start;
    while i < n
        invariant
            n == s@.len(),
            start <= i <= n,
            start == if has_sign { 1int } else { 0int },
            digits == if has_sign { s@.drop_first() } else { s@ },
            has_sign ==> (s@[0] == '+' || s@[0] == '-'),
            !has_sign ==> s@.len() == 0 || !(s@[0] == '+' || s@[0] == '-'),
            neg ==> s@[0] == '-',
            !neg && has_sign ==> s@[0] == '+',
            limit == if neg { 9223372036854775808u64 } else { 9223372036854775807u64 },
            forall|j: int| 0 <= j < i - start ==> is_digit(#[trigger] digits[j]),
            mag == digits_val(digits.take(i - start)),
            mag <= limit,
        decreases n - i,
    {
        let c = s.get_char(i);
        if !(c >= '0' && c <= '9') {
            proof {
                assert(digits == (if s@.len() >= 1 && (s@[0] == '+' || s@[0] == '-') {
                    s@.drop_first()
                } else {
                    s@
                }));
                assert(int_digits(s@) == digits);
                assert(0 <= i - start < int_digits(s@).len());
                assert(!is_digit(int_digits(s@)[i - start]));
                assert(!int_literal_ok(s@));
            }
            return None;
        }
        let d: u64 = (c as u32 as u64) - 48;
        proof {
            assert(digits[i - start] == s@[i as int]);
            assert(d < 10);
        }
        if mag > (limit - d) / 10 {
            proof {
                assert(mag * 10 + d > limit) by (nonlinear_arith)
                    requires
                        mag > (limit - d) / 10,
                        d < 10,
                        limit >= d,
                        limit == (limit - d) / 10 * 10 + (limit - d) % 10 + d,
                        (limit - d) % 10 < 10,
                ;
                assert(digits.take(i - start + 1).drop_last() =~= digits.take(i - start));
                assert(digits.take(i - start + 1).last() == digits[i - start]);
                assert(digits_val(digits.take(i - start + 1)) > limit);
                lemma_digits_val_monotone(digits, i - start + 1);
                assert(digits_val(digits) > limit);
                if neg {
                    assert(int_literal_val(s@) < i64::MIN);
                } else if int_literal_ok(s@) {
                    assert(int_literal_val(s@) > i64::MAX);
                }
            }
            return None;
        }
        proof {
            vstd::arithmetic::div_mod::lemma_fundamental_div_mod(
                (limit - d) as int, 10);
            assert(mag * 10 + d <= limit) by (nonlinear_arith)
                requires
                    mag <= (limit - d) / 10,
                    limit == (limit - d) / 10 * 10 + (limit - d) % 10 + d,
                    0 <= (limit - d) % 10,
                    d < 10,
            ;
            assert(digits.take(i - start + 1).drop_last() =~= digits.take(i - start));
            assert(digits.take(i - start + 1).last() == digits[i - start]);
        }
        mag = mag * 10 + d;
        i = i + 1;
    }
    proof {
        assert(digits.take(n - start) =~= digits);
        assert(int_literal_ok(s@));
    }
    if neg {
        if mag == 9223372036854775808u64 {
            proof {
                assert(int_literal_val(s@) == i64::MIN);
            }
            Some(i64::MIN)
        } else {
            let v = -(mag as i64);
            Some(v)
        }
    } else {
        Some(mag as i64)
    }
}

/// Interprets ASCII bytes as text; any byte outside ASCII is refused.
pub fn ascii_bytes_to_string(b: &Vec<u8>, len: usize) -> (r: Option<String>)
    requires
        len <= b@.len(),
    ensures
        match r {
            Some(s) => s@ == Seq::new(len as nat, |i: int| b@[i] as char)
                && forall|i: int| 0 <= i < len ==> (#[trigger] b@[i]) < 128,
            None => exists|i: int| 0 <= i < len && (#[trigger] b@[i]) >= 128,
        },
{
    proof {
        vstd::std_specs::vec::axiom_spec_len(b);
    }
    let mut s = String::new();
    let mut i: usize = 0;
    while i < len
        invariant
            len <= b@.len(),
            b@.len() <= usize::MAX,
            i <= len,
            s@ == Seq::new(i as nat, |k: int| b@[k] as char),
            forall|k: int| 0 <= k < i ==> (#[trigger] b@[k]) < 128,
        decreases len - i,
    {
        let byte = b[i];
        if byte >= 128 {
            return None;
        }
        push_char(&mut s, byte as char);
        proof {
            assert(s@ =~= Seq::new((i + 1) as nat, |k: int| b@[k] as char));
        }
        i = i + 1;
    }
    Some(s)
}

/// The pieces of `s` between occurrences of `sep`, empty pieces kept.
pub open spec fn split_on(s: Seq<char>, sep: char) -> Seq<Seq<char>>
    decreases s.len(),
{
    if s.len() == 0 {
        seq![Seq::empty()]
    } else if s.last() == sep {
        split_on(s.drop_last(), sep).push(Seq::empty())
    } else {
        let r = split_on(s.drop_last(), sep);
        r.update(r.len() - 1, r.last().push(s.last()))
    }
}

/// Splitting always yields at least one piece.
pub proof fn lemma_split_on_len(s: Seq<char>, sep: char)
    ensures
        split_on(s, sep).len() >= 1,
    decreases s.len(),
{
    if s.len() > 0 {
        lemma_split_on_len(s.drop_last(), sep);
    }
}

/// Splits `s` on `sep`, keeping empty pieces.
pub fn split_char(s: &str, sep: char) -> (r: Vec<String>)
    ensures
        r@.map_values(|t: String| t@) == split_on(s@, sep),
{
    let n = s.unicode_len();
    let mut tokens: Vec<String> = Vec::new();
    let mut cur = String::new();
    proof {
        assert(tokens@.map_values(|t: String| t@).push(cur@)
            =~= split_on(s@.take(0), sep));
    }
    let mut i: usize = 0;
    while i < n
        invariant
            n == s@.len(),
            i <= n,
            tokens@.map_values(|t: String| t@).push(cur@)
                == split_on(s@.take(i as int), sep),
        decreases n - i,
    {
        let c = s.get_char(i);
        let ghost toks0 = tokens@;
        let ghost cur0 = cur@;
        proof {
            assert(s@.take(i + 1).drop_last() =~= s@.take(i as int));
            assert(s@.take(i + 1).last() == s@[i as int]);
            lemma_split_on_len(s@.take(i as int), sep);
        }
        if c == sep {
            tokens.push(cur);
            cur = String::new();
            proof {
                assert(tokens@.map_values(|t: String| t@)
                    =~= toks0.map_values(|t: String| t@).push(cur0));
                assert(tokens@.map_values(|t: String| t@).push(cur@)
                    =~= split_on(s@.take(i + 1), sep));
            }
        } else {
            push_char(&mut cur, c);
            proof {
                let prev = split_on(s@.take(i as int), sep);
                assert(split_on(s@.take(i + 1), sep)
                    =~= prev.update(prev.len() - 1, prev.last().push(s@[i as int])));
                assert(tokens@.map_values(|t: String| t@).push(cur@)
                    =~= split_on(s@.take(i + 1), sep));
            }
        }
        i = i + 1;
    }
    proof {
        assert(s@.take(n as int) =~= s@);
    }
    tokens.push(cur);
    proof {
        assert(tokens@.map_values(|t: String| t@) =~= split_on(s@, sep));
    }
    tokens
}

/// The index of the first occurrence of `c` in `s`, if any.
pub fn find_char(s: &str, c: char) -> (r: Option<usize>)
    ensures
        match r {
            Some(k) => k < s@.len() && s@[k as int] == c
                && forall|j: int| 0 <= j < k ==> s@[j] != c,
            None => forall|j: int| 0 <= j < s@.len() ==> s@[j] != c,
        },
{
    let n = s.unicode_len();
    let mut i: usize = 0;
    while i < n
        invariant
            n == s@.len(),
            i <= n,
            forall|j: int| 0 <= j < i ==> s@[j] != c,
        decreases n - i,
    {
        if s.get_char(i) == c {
            return Some(i);
        }
        i = i + 1;
    }
    None
}

/// Lexicographic order on character sequences, by character value.
pub open spec fn lex_le(a: Seq<char>, b: Seq<char>) -> bool
    decreases a.len(),
{
    if a.len() == 0 {
        true
    } else if b.len() == 0 {
        false
    } else if a[0] == b[0] {
        lex_le(a.drop_first(), b.drop_first())
    } else {
        a[0] < b[0]
    }
}

/// The order is total: one of the two directions always holds.
pub proof fn lemma_lex_le_total(a: Seq<char>, b: Seq<char>)
    ensures
        lex_le(a, b) || lex_le(b, a),
    decreases a.len(),
{
    if a.len() > 0 && b.len() > 0 && a[0] == b[0] {
        lemma_lex_le_total(a.drop_first(), b.drop_first());
    }
}

/// The order is transitive.
pub proof fn lemma_lex_le_trans(a: Seq<char>, b: Seq<char>, c: Seq<char>)
    requires
        lex_le(a, b),
        lex_le(b, c),
    ensures
        lex_le(a, c),
    decreases a.len(),
{
    if a.len() > 0 {
        if a[0] == b[0] {
            if b[0] == c[0] {
                lemma_lex_le_trans(a.drop_first(), b.drop_first(), c.drop_first());
            }
        }
    }
}

/// Compares two strings in lexicographic order.
pub fn str_le(a: &str, b: &str) -> (r: bool)
    ensures
        r == lex_le(a@, b@),
{
    let an = a.unicode_len();
    let bn = b.unicode_len();
    let n = if an < bn { an } else { bn };
    proof {
        assert(a@.skip(0) =~= a@);
        assert(b@.skip(0) =~= b@);
    }
    let mut i: usize = 0;
    while i < n
        invariant
            an == a@.len(),
            bn == b@.len(),
            n == if an < bn { an as int } else { bn as int },
            i <= n,
            forall|j: int| 0 <= j < i ==> a@[j] == b@[j],
            lex_le(a@, b@) == lex_le(a@.skip(i as int), b@.skip(i as int)),
        decreases n - i,
    {
        let ca = a.get_char(i);
        let cb = b.get_char(i);
        proof {
            let sa = a@.skip(i as int);
            let sb = b@.skip(i as int);
            assert(sa[0] == a@[i as int] && sb[0] == b@[i as int]);
            assert(sa.drop_first() =~= a@.skip(i + 1));
            assert(sb.drop_first() =~= b@.skip(i + 1));
        }
        if ca != cb {
            return ca < cb;
        }
        i = i + 1;
    }
    proof {
        if an <= bn {
            assert(a@.skip(i as int) =~= Seq::<char>::empty());
        } else {
            assert(b@.skip(i as int) =~= Seq::<char>::empty());
            assert(a@.skip(i as int).len() > 0);
        }
    }
    an <= bn
}

/// The character with upper-case ASCII letters folded to lower case.
pub open spec fn lower_char(c: char) -> char {
    if 'A' <= c <= 'Z' {
        (c as u8 + 32) as char
    } else {
        c
    }
}

/// Folds an upper-case ASCII letter to lower case.
pub fn to_lower_char(c: char) -> (r: char)
    ensures
        r == lower_char(c),
{
    if 'A' <= c && c <= 'Z' {
        ((c as u8) + 32) as char
    } else {
        c
    }
}

/// Whether two strings agree once ASCII letters are folded to one case.
pub open spec fn eq_ignore_case(a: Seq<char>, b: Seq<char>) -> bool {
    a.len() == b.len() && forall|i: int|
        0 <= i < a.len() ==> lower_char(a[i]) == lower_char(b[i])
}

/// Compares two strings ignoring ASCII case.
pub fn str_eq_ignore_case(a: &str, b: &str) -> (r: bool)
    ensures
        r == eq_ignore_case(a@, b@),
{
    let an = a.unicode_len();
    let bn = b.unicode_len();
    if an != bn {
        return false;
    }
    let mut i: usize = 0;
    while i < an
        invariant
            an == a@.len(),
            bn == b@.len(),
            an == bn,
            i <= an,
            forall|j: int| 0 <= j < i ==> lower_char(a@[j]) == lower_char(b@[j]),
        decreases an - i,
    {
        if to_lower_char(a.get_char(i)) != to_lower_char(b.get_char(i)) {
            return false;
        }
        i = i + 1;
    }
    true
}

} // verus!
