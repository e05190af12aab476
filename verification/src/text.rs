//! Character classes and small string helpers used by the lexer.
use vstd::prelude::*;
use vstd::string::StrSliceExecFns;

verus! {

broadcast use vstd::string::group_string_axioms;

/// The Unicode `Alphabetic` or `Numeric` property on characters outside ASCII.
pub uninterp spec fn non_ascii_alphanumeric(c: char) -> bool;

/// The Unicode `White_Space` property on characters outside ASCII: NEL,
/// no-break space, ogham space mark, the spaces from en quad to hair space,
/// the line and paragraph separators, narrow no-break space, medium
/// mathematical space and ideographic space.
pub open spec fn non_ascii_white_space(c: char) -> bool {
    let u = c as u32;
    u == 0x85 || u == 0xA0 || u == 0x1680 || (0x2000 <= u && u <= 0x200A) || u == 0x2028
        || u == 0x2029 || u == 0x202F || u == 0x205F || u == 0x3000
}

/// What `char::is_whitespace` answers: on ASCII, space and `'\t'..='\r'`.
pub open spec fn is_white_space(c: char) -> bool {
    if (c as u32) < 128 {
        c == ' ' || ('\t' <= c && c <= '\r')
    } else {
        non_ascii_white_space(c)
    }
}

/// What `char::is_alphanumeric` answers: on ASCII, letters and digits.
pub open spec fn is_alphanumeric(c: char) -> bool {
    if (c as u32) < 128 {
        is_ascii_letter(c) || is_ascii_digit(c)
    } else {
        non_ascii_alphanumeric(c)
    }
}

pub open spec fn is_ascii_letter(c: char) -> bool {
    ('a' <= c && c <= 'z') || ('A' <= c && c <= 'Z')
}

pub open spec fn is_ascii_digit(c: char) -> bool {
    '0' <= c && c <= '9'
}

/// Whether the character is white space, as `char::is_whitespace` decides:
/// the Unicode `White_Space` property, which on ASCII is the space and the
/// five controls from tab to carriage return, and outside ASCII the
/// characters that `non_ascii_white_space` lists.
pub fn char_is_whitespace(c: char) -> (b: bool)
    ensures
        b == is_white_space(c),
{
    let u = c as u32;
    if u < 128 {
        c == ' ' || ('\t' <= c && c <= '\r')
    } else {
        u == 0x85 || u == 0xA0 || u == 0x1680 || (0x2000 <= u && u <= 0x200A) || u == 0x2028
            || u == 0x2029 || u == 0x202F || u == 0x205F || u == 0x3000
    }
}

/// `char::is_alphanumeric`: `is_alphabetic() || is_numeric()`. On ASCII that is
/// exactly the letters and the decimal digits; outside ASCII the answer is named.
#[verifier::external_body]
pub(crate) fn char_is_alphanumeric(c: char) -> (b: bool)
    ensures
        (c as u32) < 128 ==> (b <==> ((('a' <= c && c <= 'z') || ('A' <= c && c <= 'Z')) || ('0' <= c && c <= '9'))),
        (c as u32) >= 128 ==> b == non_ascii_alphanumeric(c),
{
    c.is_alphanumeric()
}

/// `String::push`: appends one character.
#[verifier::external_body]
pub(crate) fn push_char(s: &mut String, c: char)
    ensures
        final(s)@ == old(s)@.push(c),
{
    s.push(c)
}

/// The characters of a string slice, in order.
pub fn chars_of(s: &str) -> (v: Vec<char>)
    ensures
        v@ == s@,
{
    let mut v: Vec<char> = Vec::new();
    for c in iter: s.chars()
        invariant
            v@ == iter.seq().take(iter.index() as int),
            iter.seq() == s@,
    {
        v.push(c);
    }
    v
}

/// The number of characters of a string slice.
pub fn char_count(s: &str) -> (n: usize)
    ensures
        n == s@.len(),
{
    s.unicode_len()
}

/// The value of a sequence of decimal digits.
pub open spec fn decimal_value(ds: Seq<char>) -> nat
    decreases ds.len(),
{
    if ds.len() == 0 {
        0
    } else {
        decimal_value(ds.drop_last()) * 10 + ((ds.last() as u32) - ('0' as u32)) as nat
    }
}

pub proof fn lemma_decimal_value_monotone(ds: Seq<char>, k: int)
    requires
        0 <= k <= ds.len(),
    ensures
        decimal_value(ds.take(k)) <= decimal_value(ds),
    decreases ds.len(),
{
    if k < ds.len() {
        assert(ds.drop_last().take(k) =~= ds.take(k));
        lemma_decimal_value_monotone(ds.drop_last(), k);
    } else {
        assert(ds.take(k) =~= ds);
    }
}

/// A text without its leading sign, if it has one.
pub open spec fn unsigned_part(s: Seq<char>) -> Seq<char> {
    if s.len() > 0 && (s[0] == '-' || s[0] == '+') {
        s.drop_first()
    } else {
        s
    }
}

/// What `i64::from_str` makes of a text: an optional `+` or `-`, then one
/// or more decimal digits, whose value fits in `i64`.
pub open spec fn parse_int_spec(s: Seq<char>) -> Option<i64> {
    if s.len() == 0 {
        None
    } else {
        let neg = s[0] == '-';
        let ds = unsigned_part(s);
        if ds.len() == 0 || !(forall|i: int| 0 <= i < ds.len() ==> is_ascii_digit(#[trigger] ds[i])) {
            None
        } else {
            let v: int = if neg { -(decimal_value(ds) as int) } else { decimal_value(ds) as int };
            if i64::MIN <= v <= i64::MAX {
                Some(v as i64)
            } else {
                None
            }
        }
    }
}

/// `i64::from_str` on a string.
pub fn parse_int(s: &str) -> (r: Option<i64>)
    ensures
        r == parse_int_spec(s@),
{
    let cs = chars_of(s);
    if cs.len() == 0 {
        return None;
    }
    let neg = cs[0] == '-';
    let start: usize = if cs[0] == '-' || cs[0] == '+' { 1 } else { 0 };
    let ghost ds = unsigned_part(cs@);
    proof {
        assert(ds =~= cs@.subrange(start as int, cs@.len() as int));
    }
    if start == cs.len() {
        return None;
    }
    let limit: u64 = if neg { 9223372036854775808u64 } else { 9223372036854775807u64 };
    let mut acc: u64 = 0;
    let mut i = start;
    while i < cs.len()
        invariant
            start <= i <= cs.len(),
            cs@ == s@,
            cs@.len() > 0,
            neg == (cs@[0] == '-'),
            start == (if cs@[0] == '-' || cs@[0] == '+' { 1usize } else { 0usize }),
            limit == (if neg { 9223372036854775808u64 } else { 9223372036854775807u64 }),
            ds == unsigned_part(cs@),
            ds == cs@.subrange(start as int, cs@.len() as int),
            forall|k: int| start <= k < i ==> is_ascii_digit(#[trigger] cs@[k]),
            acc == decimal_value(cs@.subrange(start as int, i as int)),
            acc <= limit,
        decreases cs.len() - i,
    {
        let c = cs[i];
        if !('0' <= c && c <= '9') {
            proof {
                assert(ds[i - start] == c);
                assert(!is_ascii_digit(ds[i - start]));
            }
            return None;
        }
        proof {
            assert(cs@.subrange(start as int, i + 1).drop_last() =~= cs@.subrange(start as int, i as int));
        }
        let d = (c as u32 - '0' as u32) as u64;
        let next = match acc.checked_mul(10) {
            Some(m) => m.checked_add(d),
            None => None,
        };
        match next {
            Some(n) => {
                if n > limit {
                    proof {
                        lemma_decimal_value_monotone(ds, (i + 1 - start) as int);
                        assert(ds.take((i + 1 - start) as int) =~= cs@.subrange(start as int, i + 1));
                    }
                    return None;
                }
                acc = n;
            },
            None => {
                proof {
                    lemma_decimal_value_monotone(ds, (i + 1 - start) as int);
                    assert(ds.take((i + 1 - start) as int) =~= cs@.subrange(start as int, i + 1));
                }
                return None;
            },
        }
        i = i + 1;
    }
    proof {
        assert(cs@.subrange(start as int, cs@.len() as int) =~= ds);
    }
    if neg {
        if acc == 9223372036854775808u64 {
            Some(i64::MIN)
        } else {
            Some(-(acc as i64))
        }
    } else {
        Some(acc as i64)
    }
}

/// The first position from `i` on that holds no white space.
pub open spec fn lead_end(s: Seq<char>, i: int) -> int
    decreases s.len() - i,
{
    if 0 <= i < s.len() && is_white_space(s[i]) {
        lead_end(s, i + 1)
    } else {
        i
    }
}

/// Going back from `j`, no further than `lo`: the position after the last
/// character that is no white space.
pub open spec fn trail_start(s: Seq<char>, j: int, lo: int) -> int
    decreases j - lo,
{
    if lo < j <= s.len() && is_white_space(s[j - 1]) {
        trail_start(s, j - 1, lo)
    } else {
        j
    }
}

/// `str::trim`: the text without its leading and trailing white space.
pub open spec fn trimmed(s: Seq<char>) -> Seq<char> {
    let a = lead_end(s, 0);
    s.subrange(a, trail_start(s, s.len() as int, a))
}

pub proof fn lemma_lead_end(s: Seq<char>, i: int)
    requires
        0 <= i <= s.len(),
    ensures
        i <= lead_end(s, i) <= s.len(),
    decreases s.len() - i,
{
    if i < s.len() && is_white_space(s[i]) {
        lemma_lead_end(s, i + 1);
    }
}

pub proof fn lemma_trail_start(s: Seq<char>, j: int, lo: int)
    requires
        0 <= lo <= j <= s.len(),
    ensures
        lo <= trail_start(s, j, lo) <= j,
    decreases j - lo,
{
    if lo < j && is_white_space(s[j - 1]) {
        lemma_trail_start(s, j - 1, lo);
    }
}

/// The characters from `a` to `b` as a string.
pub fn string_of(cs: &Vec<char>, a: usize, b: usize) -> (r: String)
    requires
        a <= b <= cs.len(),
    ensures
        r@ == cs@.subrange(a as int, b as int),
{
    let mut r = String::new();
    let mut i = a;
    while i < b
        invariant
            a <= i <= b <= cs.len(),
            r@ == cs@.subrange(a as int, i as int),
        decreases b - i,
    {
        push_char(&mut r, cs[i]);
        proof {
            assert(r@ =~= cs@.subrange(a as int, i + 1));
        }
        i = i + 1;
    }
    r
}

/// The text without its leading and trailing white space.
pub fn trim_text(s: &str) -> (r: String)
    ensures
        r@ == trimmed(s@),
{
    let cs = chars_of(s);
    let mut a: usize = 0;
    while a < cs.len() && char_is_whitespace(cs[a])
        invariant
            cs@ == s@,
            a <= cs.len(),
            lead_end(cs@, a as int) == lead_end(cs@, 0),
        decreases cs.len() - a,
    {
        a = a + 1;
    }
    let mut b: usize = cs.len();
    while b > a && char_is_whitespace(cs[b - 1])
        invariant
            cs@ == s@,
            a <= b <= cs.len(),
            lead_end(cs@, 0) == a,
            trail_start(cs@, b as int, a as int) == trail_start(cs@, cs.len() as int, a as int),
        decreases b,
    {
        b = b - 1;
    }
    string_of(&cs, a, b)
}

} // verus!
