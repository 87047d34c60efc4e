//! Small verified helpers on strings.
use vstd::prelude::*;
use vstd::string::*;
use vstd::utf8::*;

verus! {

broadcast use vstd::utf8::encode_utf8_decode_utf8;

/// The characters of `s`.
pub fn str_chars(s: &str) -> (v: Vec<char>)
    ensures
        v@ == s@,
{
    let n = s.unicode_len();
    let mut v: Vec<char> = Vec::new();
    let mut i: usize = 0;
    while i < n
        invariant
            0 <= i <= n,
            n == s@.len(),
            v@ == s@.subrange(0, i as int),
        decreases n - i,
    {
        v.push(s.get_char(i));
        i = i + 1;
        assert(v@ =~= s@.subrange(0, i as int));
    }
    assert(v@ =~= s@);
    v
}

/// Whether two strings hold the same characters.
pub fn str_eq(a: &str, b: &str) -> (r: bool)
    ensures
        r == (a@ == b@),
{
    let x = a.as_bytes();
    let y = b.as_bytes();
    proof {
        assert(decode_utf8(encode_utf8(a@)) == a@);
        assert(decode_utf8(encode_utf8(b@)) == b@);
    }
    if x.len() != y.len() {
        return false;
    }
    let mut i: usize = 0;
    while i < x.len()
        invariant
            0 <= i <= x@.len(),
            x@.len() == y@.len(),
            x@ == encode_utf8(a@),
            y@ == encode_utf8(b@),
            forall|j: int| 0 <= j < i ==> x@[j] == y@[j],
        decreases x@.len() - i,
    {
        if x[i] != y[i] {
            assert(x@[i as int] != y@[i as int]);
            return false;
        }
        i = i + 1;
    }
    assert(x@ =~= y@);
    true
}

/// A character with the Unicode `White_Space` property.
pub open spec fn is_ws(c: char) -> bool {
    let u = c as u32;
    (0x09 <= u <= 0x0d) || u == 0x20 || u == 0x85 || u == 0xa0 || u == 0x1680 || (0x2000 <= u
        <= 0x200a) || u == 0x2028 || u == 0x2029 || u == 0x202f || u == 0x205f || u == 0x3000
}

/// `s` without its leading and trailing whitespace.
pub open spec fn trim(s: Seq<char>) -> Seq<char>
    decreases s.len(),
{
    if s.len() > 0 && is_ws(s[0]) {
        trim(s.drop_first())
    } else if s.len() > 0 && is_ws(s.last()) {
        trim(s.drop_last())
    } else {
        s
    }
}

pub open spec fn is_digit(c: char) -> bool {
    0x30 <= c as u32 <= 0x39
}

/// The number that a string of decimal digits denotes.
pub open spec fn decimal_value(ds: Seq<char>) -> int
    decreases ds.len(),
{
    if ds.len() == 0 {
        0
    } else {
        decimal_value(ds.drop_last()) * 10 + (ds.last() as u32 - 0x30)
    }
}

/// The digits of a number's text: without a leading `+`.
pub open spec fn unsigned_digits(t: Seq<char>) -> Seq<char> {
    if t.len() > 0 && t[0] == '+' {
        t.drop_first()
    } else {
        t
    }
}

/// The number a text denotes when read as a `u32`: an optional `+` and at
/// least one decimal digit, denoting a number that fits.
pub open spec fn u32_of_text(t: Seq<char>) -> Option<u32> {
    let ds = unsigned_digits(t);
    if ds.len() > 0 && (forall|i: int| 0 <= i < ds.len() ==> is_digit(#[trigger] ds[i]))
        && decimal_value(ds) <= u32::MAX {
        Some(decimal_value(ds) as u32)
    } else {
        None
    }
}

pub proof fn lemma_trim_bounds(s: Seq<char>, a: int, b: int)
    requires
        0 <= a <= b <= s.len(),
        forall|i: int| 0 <= i < a ==> is_ws(#[trigger] s[i]),
        forall|i: int| b <= i < s.len() ==> is_ws(#[trigger] s[i]),
        a < b ==> !is_ws(s[a]) && !is_ws(s[b - 1]),
        a == b ==> b == s.len(),
    ensures
        trim(s) == s.subrange(a, b),
    decreases s.len(),
{
    if a > 0 {
        lemma_trim_bounds(s.drop_first(), a - 1, b - 1);
        assert(s.drop_first().subrange(a - 1, b - 1) =~= s.subrange(a, b));
    } else if b < s.len() {
        if s.len() > 0 && is_ws(s[0]) {
            assert(a == b);
            lemma_trim_bounds(s.drop_first(), 0, b - 1);
            assert(s.drop_first().subrange(0, b - 1) =~= s.subrange(a, b));
        } else {
            lemma_trim_bounds(s.drop_last(), a, b);
            assert(s.drop_last().subrange(a, b) =~= s.subrange(a, b));
        }
    } else {
        assert(s.subrange(a, b) =~= s);
        if a == b {
            assert(s.len() == 0);
        }
    }
}

pub fn char_is_ws(c: char) -> (r: bool)
    ensures
        r == is_ws(c),
{
    let u = c as u32;
    (0x09 <= u && u <= 0x0d) || u == 0x20 || u == 0x85 || u == 0xa0 || u == 0x1680 || (0x2000
        <= u && u <= 0x200a) || u == 0x2028 || u == 0x2029 || u == 0x202f || u == 0x205f || u
        == 0x3000
}

/// A longer run of digits never denotes a smaller number.
pub proof fn lemma_prefix_value_grows(ds: Seq<char>, m: int)
    requires
        0 <= m <= ds.len(),
        forall|i: int| 0 <= i < ds.len() ==> is_digit(#[trigger] ds[i]),
    ensures
        decimal_value(ds.subrange(0, m)) <= decimal_value(ds),
    decreases ds.len() - m,
{
    if m < ds.len() {
        lemma_prefix_value_grows(ds, m + 1);
        assert(ds.subrange(0, m + 1).drop_last() =~= ds.subrange(0, m));
        lemma_value_nonneg(ds.subrange(0, m));
    } else {
        assert(ds.subrange(0, m) =~= ds);
    }
}

pub proof fn lemma_value_nonneg(ds: Seq<char>)
    requires
        forall|i: int| 0 <= i < ds.len() ==> is_digit(#[trigger] ds[i]),
    ensures
        decimal_value(ds) >= 0,
    decreases ds.len(),
{
    if ds.len() > 0 {
        lemma_value_nonneg(ds.drop_last());
    }
}


/// `s` without its leading and trailing whitespace.
pub fn trim_str<'a>(s: &'a str) -> (r: &'a str)
    ensures
        r@ == trim(s@),
{
    let cs = str_chars(s);
    let n = cs.len();
    let mut a: usize = 0;
    while a < n && char_is_ws(cs[a])
        invariant
            0 <= a <= n,
            n == cs@.len(),
            forall|i: int| 0 <= i < a ==> is_ws(#[trigger] cs@[i]),
        decreases n - a,
    {
        a = a + 1;
    }
    let mut b: usize = n;
    while b > a && char_is_ws(cs[b - 1])
        invariant
            a <= b <= n,
            n == cs@.len(),
            forall|i: int| b <= i < n ==> is_ws(#[trigger] cs@[i]),
        decreases b - a,
    {
        b = b - 1;
    }
    proof {
        lemma_trim_bounds(cs@, a as int, b as int);
    }
    s.substring_char(a, b)
}

/// The text read as a `u32`, if it denotes one.
pub fn parse_u32(s: &str) -> (r: Option<u32>)
    ensures
        r == u32_of_text(s@),
{
    let cs = str_chars(s);
    let n = cs.len();
    let mut start: usize = 0;
    if n > 0 && cs[0] == '+' {
        start = 1;
    }
    let ghost ds = cs@.subrange(start as int, n as int);
    assert(ds =~= unsigned_digits(s@));
    if start == n {
        return None;
    }
    let mut value: u32 = 0;
    let mut i = start;
    while i < n
        invariant
            start <= i <= n,
            n == cs@.len(),
            ds == cs@.subrange(start as int, n as int),
            ds == unsigned_digits(s@),
            forall|k: int| start <= k < i ==> is_digit(#[trigger] cs@[k]),
            value as int == decimal_value(cs@.subrange(start as int, i as int)),
        decreases n - i,
    {
        let c = cs[i];
        let u = c as u32;
        if !(0x30 <= u && u <= 0x39) {
            assert(ds[i - start] == c);
            return None;
        }
        let d = u - 0x30;
        assert(cs@.subrange(start as int, i + 1).drop_last() =~= cs@.subrange(start as int, i as int));
        if value > (u32::MAX - d) / 10 {
            proof {
                assert(value * 10 + d > u32::MAX);
                assert(forall|k: int| 0 <= k < ds.len() ==> #[trigger] ds[k] == cs@[start + k]);
                if forall|k: int| 0 <= k < ds.len() ==> is_digit(#[trigger] ds[k]) {
                    lemma_prefix_value_grows(ds, i + 1 - start);
                    assert(ds.subrange(0, i + 1 - start) =~= cs@.subrange(start as int, i + 1));
                }
            }
            return None;
        }
        value = value * 10 + d;
        i = i + 1;
    }
    proof {
        assert(forall|k: int| 0 <= k < ds.len() ==> #[trigger] ds[k] == cs@[start + k]);
    }
    Some(value)
}


/// The decimal digit character for `d`.
pub open spec fn digit_char(d: int) -> char {
    ((d + 0x30) as u8) as char
}

/// The decimal text of `v`, without leading zeros.
pub open spec fn decimal_text(v: nat) -> Seq<char>
    decreases v,
{
    if v < 10 {
        seq![digit_char(v as int)]
    } else {
        decimal_text(v / 10).push(digit_char((v % 10) as int))
    }
}

/// `String::from_iter` over characters: the string holding `cs`.
#[verifier::external_body]
pub fn string_from_chars(cs: Vec<char>) -> (s: String)
    ensures
        s@ == cs@,
{
    cs.into_iter().collect()
}

fn decimal_chars(v: u32) -> (cs: Vec<char>)
    ensures
        cs@ == decimal_text(v as nat),
    decreases v,
{
    let d = v % 10;
    let c = ((d as u8) + 48) as char;
    if v < 10 {
        let mut cs: Vec<char> = Vec::new();
        cs.push(c);
        assert(cs@ =~= decimal_text(v as nat));
        cs
    } else {
        let mut cs = decimal_chars(v / 10);
        cs.push(c);
        cs
    }
}

/// The decimal text of `v`, as `v.to_string()` writes it.
pub fn u32_to_text(v: u32) -> (s: String)
    ensures
        s@ == decimal_text(v as nat),
{
    string_from_chars(decimal_chars(v))
}

pub proof fn lemma_decimal_text(v: nat)
    ensures
        decimal_text(v).len() > 0,
        forall|i: int| 0 <= i < decimal_text(v).len() ==> is_digit(#[trigger] decimal_text(v)[i]),
        decimal_value(decimal_text(v)) == v,
    decreases v,
{
    if v < 10 {
        assert(digit_char(v as int) as u32 == v + 0x30);
        assert(decimal_text(v).drop_last() =~= Seq::<char>::empty());
        assert(decimal_value(Seq::<char>::empty()) == 0);
        assert(decimal_value(decimal_text(v)) == v);
    } else {
        lemma_decimal_text(v / 10);
        let s = decimal_text(v / 10);
        let c = digit_char((v % 10) as int);
        assert(c as u32 == v % 10 + 0x30);
        assert(decimal_text(v).drop_last() =~= s);
        assert(decimal_text(v).last() == c);
        assert(decimal_value(decimal_text(v)) == decimal_value(s) * 10 + (v % 10));
        assert(v == (v / 10) * 10 + v % 10);
    }
}

/// Reading back the decimal text of a number gives the number.
pub proof fn law_u32_text_roundtrip(v: u32)
    ensures
        u32_of_text(decimal_text(v as nat)) == Some(v),
{
    lemma_decimal_text(v as nat);
    let t = decimal_text(v as nat);
    assert(is_digit(t[0]));
    assert(unsigned_digits(t) == t);
}

} // verus!
