//! Byte-string utilities: ASCII case folding, lexicographic order,
//! whitespace trimming, decimal rendering and port-number parsing.

use vstd::prelude::*;

verus! {

/// ASCII lower-casing of a single byte, as used for case-insensitive
/// header-name comparison.
pub open spec fn lower_byte(b: u8) -> u8 {
    if 65 <= b && b <= 90 {
        (b + 32) as u8
    } else {
        b
    }
}

/// Case-insensitive view of a byte string.
pub open spec fn lower(s: Seq<u8>) -> Seq<u8> {
    s.map_values(|b: u8| lower_byte(b))
}

/// Case-insensitive equality of two byte strings.
pub open spec fn eq_ignore_case_spec(a: Seq<u8>, b: Seq<u8>) -> bool {
    lower(a) == lower(b)
}

/// Compares two byte strings ignoring ASCII case.
pub fn eq_ignore_ascii_case(a: &[u8], b: &[u8]) -> (r: bool)
    ensures
        r == eq_ignore_case_spec(a@, b@),
{
    if a.len() != b.len() {
        assert(lower(a@).len() != lower(b@).len());
        return false;
    }
    let n = a.len();
    let mut i: usize = 0;
    while i < n
        invariant
            n == a@.len() == b@.len(),
            0 <= i <= n,
            forall|k: int| 0 <= k < i ==> lower_byte(a@[k]) == lower_byte(b@[k]),
        decreases n - i,
    {
        let x = a[i];
        let y = b[i];
        let xl = if 65 <= x && x <= 90 { x + 32 } else { x };
        let yl = if 65 <= y && y <= 90 { y + 32 } else { y };
        if xl != yl {
            assert(lower(a@)[i as int] != lower(b@)[i as int]);
            return false;
        }
        i += 1;
    }
    assert(lower(a@) =~= lower(b@));
    true
}

/// Lexicographic order on byte strings, with a prefix ordered before
/// its extensions. This is the order `str` comparison uses on ASCII
/// header names.
pub open spec fn bytes_le(a: Seq<u8>, b: Seq<u8>) -> bool
    decreases a.len(),
{
    if a.len() == 0 {
        true
    } else if b.len() == 0 {
        false
    } else if a[0] < b[0] {
        true
    } else if a[0] > b[0] {
        false
    } else {
        bytes_le(a.drop_first(), b.drop_first())
    }
}

pub proof fn lemma_bytes_le_total(a: Seq<u8>, b: Seq<u8>)
    ensures
        bytes_le(a, b) || bytes_le(b, a),
    decreases a.len(),
{
    if a.len() != 0 && b.len() != 0 && a[0] == b[0] {
        lemma_bytes_le_total(a.drop_first(), b.drop_first());
    }
}

pub proof fn lemma_bytes_le_trans(a: Seq<u8>, b: Seq<u8>, c: Seq<u8>)
    requires
        bytes_le(a, b),
        bytes_le(b, c),
    ensures
        bytes_le(a, c),
    decreases a.len(),
{
    if a.len() != 0 && b.len() != 0 && c.len() != 0 && a[0] == b[0] && b[0] == c[0] {
        lemma_bytes_le_trans(a.drop_first(), b.drop_first(), c.drop_first());
    }
}

pub proof fn lemma_bytes_le_refl(a: Seq<u8>)
    ensures
        bytes_le(a, a),
    decreases a.len(),
{
    if a.len() != 0 {
        lemma_bytes_le_refl(a.drop_first());
    }
}

pub proof fn lemma_bytes_le_antisym(a: Seq<u8>, b: Seq<u8>)
    requires
        bytes_le(a, b),
        bytes_le(b, a),
    ensures
        a == b,
    decreases a.len(),
{
    if a.len() != 0 && b.len() != 0 {
        lemma_bytes_le_antisym(a.drop_first(), b.drop_first());
        assert(a =~= seq![a[0]] + a.drop_first());
        assert(b =~= seq![b[0]] + b.drop_first());
    } else {
        assert(a =~= b);
    }
}

/// The closure form of `bytes_le`, as sorting specifications take it.
pub open spec fn bytes_le_order() -> spec_fn(Seq<u8>, Seq<u8>) -> bool {
    |a: Seq<u8>, b: Seq<u8>| bytes_le(a, b)
}

/// Lexicographic byte order is a total order.
pub proof fn lemma_bytes_le_total_ordering()
    ensures
        vstd::relations::total_ordering(bytes_le_order()),
{
    let leq = bytes_le_order();
    assert forall|a: Seq<u8>| #[trigger] leq(a, a) by {
        lemma_bytes_le_refl(a);
    }
    assert forall|a: Seq<u8>, b: Seq<u8>| #[trigger] leq(a, b) && #[trigger] leq(b, a) implies a
        == b by {
        lemma_bytes_le_antisym(a, b);
    }
    assert forall|a: Seq<u8>, b: Seq<u8>, c: Seq<u8>|
        #[trigger] leq(a, b) && #[trigger] leq(b, c) implies leq(a, c) by {
        lemma_bytes_le_trans(a, b, c);
    }
    assert forall|a: Seq<u8>, b: Seq<u8>| #[trigger] leq(a, b) || #[trigger] leq(b, a) by {
        lemma_bytes_le_total(a, b);
    }
}

/// If two byte strings agree on their first `i` bytes, their order is
/// decided by the remainders.
proof fn lemma_bytes_le_skip(a: Seq<u8>, b: Seq<u8>, i: int)
    requires
        0 <= i <= a.len(),
        i <= b.len(),
        forall|k: int| 0 <= k < i ==> a[k] == b[k],
    ensures
        bytes_le(a, b) == bytes_le(a.skip(i), b.skip(i)),
    decreases i,
{
    if i > 0 {
        assert(a.len() > 0 && b.len() > 0 && a[0] == b[0]);
        lemma_bytes_le_skip(a.drop_first(), b.drop_first(), i - 1);
        assert(a.drop_first().skip(i - 1) =~= a.skip(i));
        assert(b.drop_first().skip(i - 1) =~= b.skip(i));
    } else {
        assert(a.skip(0) =~= a);
        assert(b.skip(0) =~= b);
    }
}

/// Decides the lexicographic order of two byte strings.
pub fn bytes_le_exec(a: &[u8], b: &[u8]) -> (r: bool)
    ensures
        r == bytes_le(a@, b@),
{
    let alen = a.len();
    let blen = b.len();
    let n = if alen < blen { alen } else { blen };
    let mut i: usize = 0;
    while i < n
        invariant
            n <= a@.len(),
            n <= b@.len(),
            0 <= i <= n,
            forall|k: int| 0 <= k < i ==> a@[k] == b@[k],
        decreases n - i,
    {
        let x = a[i];
        let y = b[i];
        if x < y {
            proof {
                lemma_bytes_le_skip(a@, b@, i as int);
                assert(a@.skip(i as int)[0] == a@[i as int]);
                assert(b@.skip(i as int)[0] == b@[i as int]);
            }
            return true;
        }
        if x > y {
            proof {
                lemma_bytes_le_skip(a@, b@, i as int);
                assert(a@.skip(i as int)[0] == a@[i as int]);
                assert(b@.skip(i as int)[0] == b@[i as int]);
            }
            return false;
        }
        i += 1;
    }
    proof {
        lemma_bytes_le_skip(a@, b@, n as int);
        if a@.len() <= b@.len() {
            assert(a@.skip(n as int).len() == 0);
        } else {
            assert(a@.skip(n as int).len() > 0);
            assert(b@.skip(n as int).len() == 0);
        }
    }
    alen <= blen
}

/// A byte readable as part of a header value's text: visible ASCII,
/// space, or horizontal tab. This is the rule hyper's `http` types use
/// when turning a header value into text.
pub open spec fn visible_ascii(b: u8) -> bool {
    (b >= 32 && b < 127) || b == 9
}

/// A header value that can be read as text at all.
pub open spec fn printable_value(v: Seq<u8>) -> bool {
    forall|i: int| 0 <= i < v.len() ==> visible_ascii(#[trigger] v[i])
}

/// Decides whether a header value can be read as text.
#[verifier::loop_isolation(false)]
pub fn is_printable_value(v: &[u8]) -> (r: bool)
    ensures
        r == printable_value(v@),
{
    let n = v.len();
    let mut i: usize = 0;
    while i < n
        invariant
            0 <= i <= n,
            forall|k: int| 0 <= k < i ==> visible_ascii(#[trigger] v@[k]),
        decreases n - i,
    {
        let b = v[i];
        if !((b >= 32 && b < 127) || b == 9) {
            return false;
        }
        i += 1;
    }
    true
}

/// ASCII whitespace, as trimmed around tokens of a comma-separated
/// header value.
pub open spec fn is_ascii_space(b: u8) -> bool {
    b == 32 || b == 9 || b == 13 || b == 10
}

pub fn is_ascii_space_exec(b: u8) -> (r: bool)
    ensures
        r == is_ascii_space(b),
{
    b == 32 || b == 9 || b == 13 || b == 10
}

/// Copies a byte vector.
pub fn copy_bytes(v: &Vec<u8>) -> (r: Vec<u8>)
    ensures
        r@ == v@,
{
    let r = v.clone();
    assert forall|i: int| 0 <= i < v@.len() implies r@[i] == v@[i] by {
        assert(vstd::pervasive::cloned::<u8>(v@[i], r@[i]));
    }
    assert(r@ =~= v@);
    r
}

/// Builds a vector from a byte-string slice, as with literals.
pub fn bytes_of(s: &[u8]) -> (r: Vec<u8>)
    ensures
        r@ == s@,
{
    let mut r: Vec<u8> = Vec::new();
    let n = s.len();
    let mut i: usize = 0;
    while i < n
        invariant
            n == s@.len(),
            0 <= i <= n,
            r@ == s@.take(i as int),
        decreases n - i,
    {
        r.push(s[i]);
        assert(s@.take(i + 1 as int) =~= s@.take(i as int).push(s@[i as int]));
        i += 1;
    }
    assert(s@.take(n as int) =~= s@);
    r
}

/// The decimal digits of `n`, most significant first, as `format!`
/// prints an unsigned integer.
pub open spec fn dec_digits(n: nat) -> Seq<u8>
    decreases n,
{
    if n < 10 {
        seq![(48 + n) as u8]
    } else {
        dec_digits(n / 10).push((48 + n % 10) as u8)
    }
}

/// Renders an unsigned integer in decimal.
pub fn render_u64(n: u64) -> (r: Vec<u8>)
    ensures
        r@ == dec_digits(n as nat),
    decreases n,
{
    if n < 10 {
        let mut v: Vec<u8> = Vec::new();
        v.push((48 + n) as u8);
        assert(v@ =~= dec_digits(n as nat));
        v
    } else {
        let mut v = render_u64(n / 10);
        v.push((48 + (n % 10)) as u8);
        assert(v@ =~= dec_digits(n as nat));
        v
    }
}

/// The value of an all-digit byte string, or `None` when empty, too
/// large for `u16`, or containing a non-digit.
pub open spec fn digits_value(s: Seq<u8>) -> Option<int>
    decreases s.len(),
{
    if s.len() == 0 {
        None
    } else if !(48 <= s.last() <= 57) {
        None
    } else if s.len() == 1 {
        Some(s.last() - 48)
    } else {
        match digits_value(s.drop_last()) {
            None => None,
            Some(hi) => Some(hi * 10 + (s.last() - 48)),
        }
    }
}

/// The result of parsing a byte string as `u16`, as `str::parse::<u16>`
/// does: an optional leading `+`, then one or more decimal digits, and
/// the value must fit in 16 bits.
pub open spec fn parse_u16_spec(s: Seq<u8>) -> Option<u16> {
    let digits = if s.len() > 0 && s[0] == 43 {
        s.drop_first()
    } else {
        s
    };
    match digits_value(digits) {
        None => None,
        Some(v) => if v <= 65535 {
            Some(v as u16)
        } else {
            None
        },
    }
}

proof fn lemma_digits_value_bounds(s: Seq<u8>)
    requires
        digits_value(s) is Some,
    ensures
        digits_value(s)->Some_0 >= 0,
    decreases s.len(),
{
    if s.len() > 1 {
        lemma_digits_value_bounds(s.drop_last());
    }
}

/// Parses a byte string as a 16-bit unsigned integer.
#[verifier::loop_isolation(false)]
pub fn parse_u16(s: &[u8]) -> (r: Option<u16>)
    ensures
        r == parse_u16_spec(s@),
{
    let ghost digits: Seq<u8> = if s@.len() > 0 && s@[0] == 43 {
        s@.drop_first()
    } else {
        s@
    };
    let start: usize = if s.len() > 0 && s[0] == 43 {
        1
    } else {
        0
    };
    if s.len() == start {
        assert(digits.len() == 0);
        return None;
    }
    let n = s.len();
    let mut i: usize = start;
    let mut acc: u32 = 0;
    while i < n
        invariant
            start <= i <= n,
            n == s@.len(),
            start < n,
            digits =~= s@.skip(start as int),
            i > start ==> digits_value(digits.take((i - start) as int)) == Some(acc as int),
            i == start ==> acc == 0,
            acc <= 65535,
        decreases n - i,
    {
        let b = s[i];
        proof {
            assert(digits[(i - start) as int] == s@[i as int]);
        }
        if b < 48 || b > 57 {
            proof {
                lemma_digits_prefix_none(digits, (i - start) as int);
            }
            return None;
        }
        let d: u32 = (b - 48) as u32;
        let next: u32 = acc * 10 + d;
        proof {
            let j = (i + 1 - start) as int;
            assert(digits.take(j).drop_last() =~= digits.take((i - start) as int));
            assert(digits.take(j).last() == digits[(i - start) as int]);
            if i == start {
                assert(digits.take(j).len() == 1);
                assert(digits_value(digits.take(j)) == Some(next as int));
            } else {
                assert(digits_value(digits.take(j).drop_last()) == Some(acc as int));
                assert(digits_value(digits.take(j)) == Some(acc as int * 10 + (b - 48)));
                assert(digits_value(digits.take(j)) == Some(next as int));
            }
        }
        if next > 65535 {
            proof {
                lemma_digits_prefix_too_big(digits, (i + 1 - start) as int, next as int);
            }
            return None;
        }
        acc = next;
        i += 1;
    }
    proof {
        assert(digits.take((n - start) as int) =~= digits);
    }
    Some(acc as u16)
}

/// Once a non-digit appears, the whole string has no digits value.
proof fn lemma_digits_prefix_none(s: Seq<u8>, i: int)
    requires
        0 <= i < s.len(),
        !(48 <= s[i] <= 57),
    ensures
        digits_value(s) is None,
    decreases s.len(),
{
    if s.len() > 0 && i < s.len() - 1 {
        lemma_digits_prefix_none(s.drop_last(), i);
    }
}

/// Digit values only grow with more digits; a too-large prefix value
/// means the whole string is not a `u16`.
proof fn lemma_digits_prefix_too_big(s: Seq<u8>, i: int, v: int)
    requires
        0 < i <= s.len(),
        digits_value(s.take(i)) == Some(v),
        v > 65535,
    ensures
        digits_value(s) is None || digits_value(s)->Some_0 > 65535,
    decreases s.len() - i,
{
    if i == s.len() {
        assert(s.take(i) =~= s);
    } else {
        if digits_value(s.take(i + 1)) is Some {
            assert(s.take(i + 1).drop_last() =~= s.take(i));
            let last = s.take(i + 1).last();
            assert(digits_value(s.take(i + 1)) == Some(v * 10 + (last - 48)));
            assert(v * 10 + (last - 48) > 65535);
            lemma_digits_prefix_too_big(s, i + 1, v * 10 + (last - 48));
        } else {
            assert(s.take(i + 1).drop_last() =~= s.take(i));
            lemma_digits_none_extends(s, i + 1);
        }
    }
}

/// For an ASCII string the UTF-8 bytes are the characters themselves;
/// with the literal revealed this makes its bytes concrete.
pub proof fn lemma_ascii_literal_bytes(s: &str)
    requires
        vstd::string::is_ascii(s),
    ensures
        vstd::string::StringSliceAdditionalSpecFns::spec_bytes(s).len() == s@.len(),
        forall|i: int|
            0 <= i < s@.len() ==> vstd::string::StringSliceAdditionalSpecFns::spec_bytes(s)[i]
                == s@[i] as u8,
{
    vstd::string::is_ascii_spec_bytes(s);
}

/// Once a prefix has no digits value, no extension of it has one.
proof fn lemma_digits_none_extends(s: Seq<u8>, i: int)
    requires
        0 < i <= s.len(),
        digits_value(s.take(i)) is None,
    ensures
        digits_value(s) is None,
    decreases s.len() - i,
{
    if i < s.len() {
        assert(s.take(i + 1).drop_last() =~= s.take(i));
        lemma_digits_none_extends(s, i + 1);
    } else {
        assert(s.take(i) =~= s);
    }
}

} // verus!
