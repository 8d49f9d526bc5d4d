//! Character-level helpers: trimming, ASCII case folding, decimal integers.
//!
//! Each function here is specified over `Seq<char>` and behaves as the
//! standard library routine whose name it carries (`str::trim`,
//! `str::to_ascii_lowercase`, `i64::from_str`, `i64::to_string`, ...).

use vstd::prelude::*;
use vstd::string::*;

verus! {

// ---------------------------------------------------------------------------
// Whitespace and trimming
// ---------------------------------------------------------------------------

/// The Unicode `White_Space` property, the set that `char::is_whitespace`
/// and `str::trim` use.
pub open spec fn is_whitespace_spec(c: char) -> bool {
    let u = c as u32;
    (0x9 <= u <= 0xd) || u == 0x20 || u == 0x85 || u == 0xa0 || u == 0x1680 || (0x2000 <= u
        <= 0x200a) || u == 0x2028 || u == 0x2029 || u == 0x202f || u == 0x205f || u == 0x3000
}

/// Whether `c` is Unicode whitespace.
pub fn is_whitespace(c: char) -> (r: bool)
    ensures
        r == is_whitespace_spec(c),
{
    let u = c as u32;
    (0x9 <= u && u <= 0xd) || u == 0x20 || u == 0x85 || u == 0xa0 || u == 0x1680 || (0x2000 <= u
        && u <= 0x200a) || u == 0x2028 || u == 0x2029 || u == 0x202f || u == 0x205f || u == 0x3000
}

/// `s` without its leading whitespace.
pub open spec fn trim_start_spec(s: Seq<char>) -> Seq<char>
    decreases s.len(),
{
    if s.len() > 0 && is_whitespace_spec(s[0]) {
        trim_start_spec(s.drop_first())
    } else {
        s
    }
}

/// `s` without its trailing whitespace.
pub open spec fn trim_end_spec(s: Seq<char>) -> Seq<char>
    decreases s.len(),
{
    if s.len() > 0 && is_whitespace_spec(s.last()) {
        trim_end_spec(s.drop_last())
    } else {
        s
    }
}

/// `s` without leading and trailing whitespace, as `str::trim` gives it.
pub open spec fn trim_spec(s: Seq<char>) -> Seq<char> {
    trim_end_spec(trim_start_spec(s))
}

/// Removes leading and trailing Unicode whitespace.
pub fn trim<'a>(s: &'a str) -> (r: &'a str)
    ensures
        r@ == trim_spec(s@),
{
    let n = s.unicode_len();
    let mut i: usize = 0;
    assert(s@ =~= s@.subrange(0, n as int));
    while i < n && is_whitespace(s.get_char(i))
        invariant
            0 <= i <= n,
            n == s@.len(),
            trim_start_spec(s@) == trim_start_spec(s@.subrange(i as int, n as int)),
        decreases n - i,
    {
        assert(s@.subrange(i as int, n as int).drop_first() =~= s@.subrange(i + 1, n as int));
        i = i + 1;
    }
    assert(trim_start_spec(s@) == s@.subrange(i as int, n as int));
    let mut j: usize = n;
    while j > i && is_whitespace(s.get_char(j - 1))
        invariant
            0 <= i <= j <= n,
            n == s@.len(),
            trim_spec(s@) == trim_end_spec(s@.subrange(i as int, j as int)),
        decreases j,
    {
        assert(s@.subrange(i as int, j as int).drop_last() =~= s@.subrange(i as int, j - 1));
        j = j - 1;
    }
    assert(trim_spec(s@) == s@.subrange(i as int, j as int));
    s.substring_char(i, j)
}

// ---------------------------------------------------------------------------
// Strings built character by character
// ---------------------------------------------------------------------------

/// `String::push`: appends `c` to `s`.
#[verifier::external_body]
pub(crate) fn push_char(s: &mut String, c: char)
    ensures
        final(s)@ == old(s)@.push(c),
{
    s.push(c);
}

/// Whether two string slices hold the same characters.
pub fn str_eq(a: &str, b: &str) -> (r: bool)
    ensures
        r == (a@ == b@),
{
    let n = a.unicode_len();
    let m = b.unicode_len();
    if n != m {
        return false;
    }
    let mut i: usize = 0;
    while i < n
        invariant
            0 <= i <= n,
            n == a@.len(),
            n == b@.len(),
            forall|k: int| 0 <= k < i ==> a@[k] == b@[k],
        decreases n - i,
    {
        if a.get_char(i) != b.get_char(i) {
            return false;
        }
        i = i + 1;
    }
    assert(a@ =~= b@);
    true
}

/// Whether `s` starts with `prefix`.
pub fn starts_with(s: &str, prefix: &str) -> (r: bool)
    ensures
        r == (prefix@.len() <= s@.len() && s@.subrange(0, prefix@.len() as int) == prefix@),
{
    let n = s.unicode_len();
    let m = prefix.unicode_len();
    if m > n {
        return false;
    }
    let head = s.substring_char(0, m);
    str_eq(head, prefix)
}

/// `s` without `prefix`, where it starts with it.
pub open spec fn strip_prefix_spec(s: Seq<char>, prefix: Seq<char>) -> Option<Seq<char>> {
    if prefix.len() <= s.len() && s.subrange(0, prefix.len() as int) == prefix {
        Some(s.subrange(prefix.len() as int, s.len() as int))
    } else {
        None
    }
}

/// `s` without `prefix`, as `str::strip_prefix` gives it.
pub fn strip_prefix<'a>(s: &'a str, prefix: &str) -> (r: Option<&'a str>)
    ensures
        r matches Some(t) ==> strip_prefix_spec(s@, prefix@) == Some(t@),
        r is None ==> strip_prefix_spec(s@, prefix@) is None,
{
    if starts_with(s, prefix) {
        Some(s.substring_char(prefix.unicode_len(), s.unicode_len()))
    } else {
        None
    }
}

/// Whether `s` ends with `suffix`.
pub fn ends_with(s: &str, suffix: &str) -> (r: bool)
    ensures
        r == (suffix@.len() <= s@.len() && s@.subrange(s@.len() - suffix@.len(), s@.len() as int)
            == suffix@),
{
    let n = s.unicode_len();
    let m = suffix.unicode_len();
    if m > n {
        return false;
    }
    let tail = s.substring_char(n - m, n);
    str_eq(tail, suffix)
}

/// `s` with every trailing `c` removed, as `str::trim_end_matches(c)` gives it.
pub open spec fn trim_end_char_spec(s: Seq<char>, c: char) -> Seq<char>
    decreases s.len(),
{
    if s.len() > 0 && s.last() == c {
        trim_end_char_spec(s.drop_last(), c)
    } else {
        s
    }
}

/// `s` with every leading `c` removed, as `str::trim_start_matches(c)` gives it.
pub open spec fn trim_start_char_spec(s: Seq<char>, c: char) -> Seq<char>
    decreases s.len(),
{
    if s.len() > 0 && s[0] == c {
        trim_start_char_spec(s.drop_first(), c)
    } else {
        s
    }
}

/// Removes every trailing occurrence of `c`.
pub fn trim_end_char<'a>(s: &'a str, c: char) -> (r: &'a str)
    ensures
        r@ == trim_end_char_spec(s@, c),
{
    let n = s.unicode_len();
    let mut j: usize = n;
    assert(s@ =~= s@.subrange(0, n as int));
    while j > 0 && s.get_char(j - 1) == c
        invariant
            0 <= j <= n,
            n == s@.len(),
            trim_end_char_spec(s@, c) == trim_end_char_spec(s@.subrange(0, j as int), c),
        decreases j,
    {
        assert(s@.subrange(0, j as int).drop_last() =~= s@.subrange(0, j - 1));
        j = j - 1;
    }
    s.substring_char(0, j)
}

/// Removes every leading occurrence of `c`.
pub fn trim_start_char<'a>(s: &'a str, c: char) -> (r: &'a str)
    ensures
        r@ == trim_start_char_spec(s@, c),
{
    let n = s.unicode_len();
    let mut i: usize = 0;
    assert(s@ =~= s@.subrange(0, n as int));
    while i < n && s.get_char(i) == c
        invariant
            0 <= i <= n,
            n == s@.len(),
            trim_start_char_spec(s@, c) == trim_start_char_spec(s@.subrange(i as int, n as int), c),
        decreases n - i,
    {
        assert(s@.subrange(i as int, n as int).drop_first() =~= s@.subrange(i + 1, n as int));
        i = i + 1;
    }
    s.substring_char(i, n)
}

// ---------------------------------------------------------------------------
// ASCII classes and case folding
// ---------------------------------------------------------------------------

/// ASCII uppercase letters map to lowercase; every other character is kept.
pub open spec fn ascii_lower_char(c: char) -> char {
    if 65 <= (c as u32) <= 90 {
        ((c as u32) + 32) as char
    } else {
        c
    }
}

/// `s` with ASCII uppercase letters folded, as `str::to_ascii_lowercase` gives it.
pub open spec fn ascii_lower_spec(s: Seq<char>) -> Seq<char> {
    Seq::new(s.len(), |i: int| ascii_lower_char(s[i]))
}

/// Folds ASCII uppercase letters to lowercase.
pub fn to_ascii_lowercase(s: &str) -> (r: String)
    ensures
        r@ == ascii_lower_spec(s@),
{
    let n = s.unicode_len();
    let mut out = String::new();
    let mut i: usize = 0;
    while i < n
        invariant
            0 <= i <= n,
            n == s@.len(),
            out@ =~= ascii_lower_spec(s@).subrange(0, i as int),
        decreases n - i,
    {
        let c = s.get_char(i);
        let u = c as u32;
        let lower = if 65 <= u && u <= 90 {
            ((c as u8) + 32) as char
        } else {
            c
        };
        push_char(&mut out, lower);
        i = i + 1;
    }
    out
}

/// An ASCII decimal digit.
pub open spec fn is_ascii_digit_spec(c: char) -> bool {
    48 <= (c as u32) <= 57
}

/// Every character of `s` is an ASCII decimal digit.
pub open spec fn all_ascii_digits(s: Seq<char>) -> bool {
    forall|i: int| 0 <= i < s.len() ==> is_ascii_digit_spec(#[trigger] s[i])
}

/// An ASCII control character: U+0000 to U+001F, or U+007F.
pub open spec fn is_ascii_control_spec(c: char) -> bool {
    (c as u32) < 32 || (c as u32) == 127
}

/// A character of the ASCII range.
pub open spec fn is_ascii_char_spec(c: char) -> bool {
    (c as u32) < 128
}

// ---------------------------------------------------------------------------
// Decimal integers
// ---------------------------------------------------------------------------

/// The value of the decimal digit `c`.
pub open spec fn digit_value(c: char) -> int {
    (c as u32) - 48
}

/// The value of a string of decimal digits, most significant first.
pub open spec fn digits_value(s: Seq<char>) -> int
    decreases s.len(),
{
    if s.len() == 0 {
        0
    } else {
        digits_value(s.drop_last()) * 10 + digit_value(s.last())
    }
}

/// What `u64::from_str` and the other unsigned parsers accept: an optional
/// `+`, then one or more ASCII digits whose value is at most `max`.
pub open spec fn parse_unsigned_spec(s: Seq<char>, max: int) -> Option<int> {
    let d = if s.len() > 0 && s[0] == '+' {
        s.drop_first()
    } else {
        s
    };
    if d.len() > 0 && all_ascii_digits(d) && digits_value(d) <= max {
        Some(digits_value(d))
    } else {
        None
    }
}

/// What `i64::from_str` accepts: an optional sign, then one or more ASCII
/// digits, with the value in the range of `i64`.
pub open spec fn parse_i64_spec(s: Seq<char>) -> Option<int> {
    if s.len() > 0 && s[0] == '-' {
        let d = s.drop_first();
        if d.len() > 0 && all_ascii_digits(d) && digits_value(d) <= 0x8000_0000_0000_0000 {
            Some(-digits_value(d))
        } else {
            None
        }
    } else {
        parse_unsigned_spec(s, i64::MAX as int)
    }
}

proof fn lemma_digits_value_nonneg(s: Seq<char>)
    requires
        all_ascii_digits(s),
    ensures
        digits_value(s) >= 0,
    decreases s.len(),
{
    if s.len() > 0 {
        assert(all_ascii_digits(s.drop_last()));
        lemma_digits_value_nonneg(s.drop_last());
        assert(is_ascii_digit_spec(s[s.len() - 1]));
    }
}

/// What `parse_i64_spec` gives lies in the range of `i64`.
pub proof fn lemma_parse_i64_in_range(s: Seq<char>)
    ensures
        parse_i64_spec(s) matches Some(v) ==> i64::MIN <= v <= i64::MAX,
{
    if s.len() > 0 && s[0] == '-' {
        let d = s.drop_first();
        if d.len() > 0 && all_ascii_digits(d) {
            lemma_digits_value_nonneg(d);
        }
    } else {
        let d = if s.len() > 0 && s[0] == '+' {
            s.drop_first()
        } else {
            s
        };
        if d.len() > 0 && all_ascii_digits(d) {
            lemma_digits_value_nonneg(d);
        }
    }
}

/// Extending a digit string never lowers its value.
proof fn lemma_digits_value_prefix(s: Seq<char>, k: int)
    requires
        all_ascii_digits(s),
        0 <= k <= s.len(),
    ensures
        digits_value(s.subrange(0, k)) <= digits_value(s),
    decreases s.len() - k,
{
    if k < s.len() {
        let t = s.subrange(0, k + 1);
        assert(t.drop_last() =~= s.subrange(0, k));
        assert(all_ascii_digits(s.subrange(0, k)));
        lemma_digits_value_nonneg(s.subrange(0, k));
        assert(is_ascii_digit_spec(s[k]));
        lemma_digits_value_prefix(s, k + 1);
    } else {
        assert(s.subrange(0, k) =~= s);
    }
}

/// Reads the digits `s[start..]` as a number of at most `bound`.
fn parse_digits(s: &str, start: usize, bound: u64) -> (r: Option<u64>)
    requires
        start <= s@.len(),
    ensures
        ({
            let d = s@.subrange(start as int, s@.len() as int);
            &&& r is Some <==> (d.len() > 0 && all_ascii_digits(d) && digits_value(d) <= bound)
            &&& r matches Some(v) ==> v == digits_value(d)
        }),
{
    let n = s.unicode_len();
    let ghost d = s@.subrange(start as int, n as int);
    if start == n {
        return None;
    }
    let mut acc: u64 = 0;
    let mut i: usize = start;
    while i < n
        invariant
            start <= i <= n,
            n == s@.len(),
            d == s@.subrange(start as int, n as int),
            all_ascii_digits(d.subrange(0, i - start)),
            acc == digits_value(d.subrange(0, i - start)),
            acc <= bound,
        decreases n - i,
    {
        let c = s.get_char(i);
        let u = c as u32;
        if u < 48 || u > 57 {
            assert(d[i - start] == c);
            return None;
        }
        let dv = (u - 48) as u64;
        let ghost prefix = d.subrange(0, i + 1 - start);
        assert(prefix.drop_last() =~= d.subrange(0, i - start));
        assert(prefix.last() == c);
        if dv > bound || acc > (bound - dv) / 10 {
            assert(acc * 10 + dv > bound) by (nonlinear_arith)
                requires
                    dv > bound || acc > (bound - dv) / 10,
                    acc >= 0,
            ;
            proof {
                if forall|k: int| 0 <= k < d.len() ==> is_ascii_digit_spec(#[trigger] d[k]) {
                    lemma_digits_value_prefix(d, i + 1 - start);
                }
            }
            return None;
        }
        assert(acc * 10 + dv <= bound) by (nonlinear_arith)
            requires
                acc <= (bound - dv) / 10,
                dv <= bound,
        ;
        acc = acc * 10 + dv;
        i = i + 1;
        assert(all_ascii_digits(d.subrange(0, i - start)));
    }
    assert(d.subrange(0, n - start) =~= d);
    Some(acc)
}

/// Parses an unsigned decimal number of at most `max`, as `u64::from_str`
/// (or `u16::from_str` with `max` 65535) does.
pub fn parse_unsigned(s: &str, max: u64) -> (r: Option<u64>)
    ensures
        r matches Some(v) ==> parse_unsigned_spec(s@, max as int) == Some(v as int),
        r is None ==> parse_unsigned_spec(s@, max as int) is None,
{
    let n = s.unicode_len();
    let start: usize = if n > 0 && s.get_char(0) == '+' {
        1
    } else {
        0
    };
    assert(s@.subrange(start as int, n as int) =~= (if s@.len() > 0 && s@[0] == '+' {
        s@.drop_first()
    } else {
        s@
    }));
    parse_digits(s, start, max)
}

/// Parses a signed decimal number, as `i64::from_str` does.
pub fn parse_i64(s: &str) -> (r: Option<i64>)
    ensures
        r matches Some(v) ==> parse_i64_spec(s@) == Some(v as int),
        r is None ==> parse_i64_spec(s@) is None,
{
    let n = s.unicode_len();
    if n > 0 && s.get_char(0) == '-' {
        assert(s@.subrange(1, n as int) =~= s@.drop_first());
        match parse_digits(s, 1, 0x8000_0000_0000_0000u64) {
            Some(m) => {
                if m == 0x8000_0000_0000_0000u64 {
                    Some(i64::MIN)
                } else {
                    Some(-(m as i64))
                }
            },
            None => None,
        }
    } else {
        match parse_unsigned(s, 0x7fff_ffff_ffff_ffffu64) {
            Some(m) => Some(m as i64),
            None => None,
        }
    }
}

/// The character of the decimal digit `d`.
pub open spec fn digit_char(d: nat) -> char {
    (d + 48) as char
}

/// The decimal digits of `n`, without leading zeros.
pub open spec fn nat_decimal(n: nat) -> Seq<char>
    decreases n,
{
    if n < 10 {
        seq![digit_char(n)]
    } else {
        nat_decimal(n / 10) + seq![digit_char(n % 10)]
    }
}

/// The decimal representation of `n`, as `i64::to_string` writes it.
pub open spec fn int_decimal(n: int) -> Seq<char> {
    if n < 0 {
        seq!['-'] + nat_decimal((-n) as nat)
    } else {
        nat_decimal(n as nat)
    }
}

/// Writes `m` in decimal.
pub fn decimal_u64(m: u64) -> (r: String)
    ensures
        r@ == nat_decimal(m as nat),
    decreases m,
{
    let digit = ((m % 10) as u8 + 48) as char;
    if m < 10 {
        let mut s = String::new();
        push_char(&mut s, digit);
        assert(s@ =~= nat_decimal(m as nat));
        s
    } else {
        let mut s = decimal_u64(m / 10);
        push_char(&mut s, digit);
        assert(s@ =~= nat_decimal(m as nat));
        s
    }
}

/// Writes `n` in decimal, with a leading `-` when it is negative.
pub fn decimal_i64(n: i64) -> (r: String)
    ensures
        r@ == int_decimal(n as int),
{
    if n < 0 {
        let magnitude: u64 = ((-(n + 1)) as u64) + 1;
        let digits = decimal_u64(magnitude);
        let mut s = String::new();
        push_char(&mut s, '-');
        let s = s.concat(digits.as_str());
        assert(s@ =~= int_decimal(n as int));
        s
    } else {
        decimal_u64(n as u64)
    }
}

// ---------------------------------------------------------------------------
// Laws
// ---------------------------------------------------------------------------

proof fn lemma_nat_decimal_digits(n: nat)
    ensures
        nat_decimal(n).len() > 0,
        all_ascii_digits(nat_decimal(n)),
        digits_value(nat_decimal(n)) == n,
        nat_decimal(n)[0] != '-',
        nat_decimal(n)[0] != '+',
    decreases n,
{
    if n < 10 {
        assert(digits_value(nat_decimal(n).drop_last()) == 0) by {
            assert(nat_decimal(n).drop_last() =~= Seq::<char>::empty());
        }
    } else {
        lemma_nat_decimal_digits(n / 10);
        let s = nat_decimal(n);
        assert(s.drop_last() =~= nat_decimal(n / 10));
    }
}

/// Reading back what `decimal_i64` writes gives the number again:
/// `parse_i64` inverts `decimal_i64`.
pub proof fn law_decimal_parse_roundtrip(n: i64)
    ensures
        parse_i64_spec(int_decimal(n as int)) == Some(n as int),
{
    if n < 0 {
        let m = (-(n as int)) as nat;
        lemma_nat_decimal_digits(m);
        let s = int_decimal(n as int);
        assert(s.drop_first() =~= nat_decimal(m));
    } else {
        lemma_nat_decimal_digits(n as nat);
    }
}

} // verus!
