//! The header model: named byte-string values, case-insensitive
//! lookup, hop-by-hop stripping and the Host rewrite applied to every
//! forwarded request.

use vstd::prelude::*;

use crate::ascii::{copy_bytes, eq_ignore_ascii_case, eq_ignore_case_spec};
use vstd::string::StringSliceAdditionalSpecFns;

verus! {

/// One HTTP header: a name and a value, both byte strings.
pub struct Header {
    pub name: Vec<u8>,
    pub value: Vec<u8>,
}

/// Mathematical view of a header.
pub ghost struct HeaderView {
    pub name: Seq<u8>,
    pub value: Seq<u8>,
}

impl View for Header {
    type V = HeaderView;

    open spec fn view(&self) -> HeaderView {
        HeaderView { name: self.name@, value: self.value@ }
    }
}

impl DeepView for Header {
    type V = HeaderView;

    open spec fn deep_view(&self) -> HeaderView {
        self@
    }
}

/// Copies a header.
pub fn copy_header(h: &Header) -> (r: Header)
    ensures
        r@ == h@,
{
    Header { name: copy_bytes(&h.name), value: copy_bytes(&h.value) }
}

/// The hop-by-hop header names that must never cross the proxy
/// boundary (RFC 7230 connection-level headers).
pub open spec fn is_hop_name(n: Seq<u8>) -> bool {
    ||| eq_ignore_case_spec(n, "connection".spec_bytes())
    ||| eq_ignore_case_spec(n, "proxy-connection".spec_bytes())
    ||| eq_ignore_case_spec(n, "keep-alive".spec_bytes())
    ||| eq_ignore_case_spec(n, "transfer-encoding".spec_bytes())
    ||| eq_ignore_case_spec(n, "upgrade".spec_bytes())
    ||| eq_ignore_case_spec(n, "te".spec_bytes())
    ||| eq_ignore_case_spec(n, "trailer".spec_bytes())
}

/// Decides whether a header name is hop-by-hop.
pub fn is_hop_by_hop(name: &[u8]) -> (r: bool)
    ensures
        r == is_hop_name(name@),
{
    eq_ignore_ascii_case(name, "connection".as_bytes())
        || eq_ignore_ascii_case(name, "proxy-connection".as_bytes())
        || eq_ignore_ascii_case(name, "keep-alive".as_bytes())
        || eq_ignore_ascii_case(name, "transfer-encoding".as_bytes())
        || eq_ignore_ascii_case(name, "upgrade".as_bytes())
        || eq_ignore_ascii_case(name, "te".as_bytes())
        || eq_ignore_ascii_case(name, "trailer".as_bytes())
}

/// The value of the first header whose name matches case-insensitively,
/// as a multi-map lookup returns it.
pub open spec fn first_match(hs: Seq<HeaderView>, name: Seq<u8>) -> Option<Seq<u8>>
    decreases hs.len(),
{
    if hs.len() == 0 {
        None
    } else if eq_ignore_case_spec(hs[0].name, name) {
        Some(hs[0].value)
    } else {
        first_match(hs.drop_first(), name)
    }
}

/// With no match among the first `i` headers, the lookup is decided by
/// the rest.
proof fn lemma_first_match_skip(hs: Seq<HeaderView>, name: Seq<u8>, i: int)
    requires
        0 <= i <= hs.len(),
        forall|k: int| 0 <= k < i ==> !eq_ignore_case_spec(hs[k].name, name),
    ensures
        first_match(hs, name) == first_match(hs.skip(i), name),
    decreases i,
{
    if i > 0 {
        lemma_first_match_skip(hs.drop_first(), name, i - 1);
        assert(hs.drop_first().skip(i - 1) =~= hs.skip(i));
    } else {
        assert(hs.skip(0) =~= hs);
    }
}

/// Looks up the first header whose name matches, ignoring case.
#[verifier::loop_isolation(false)]
pub fn get_header<'a>(hs: &'a Vec<Header>, name: &[u8]) -> (r: Option<&'a Vec<u8>>)
    ensures
        match r {
            Some(v) => first_match(hs.deep_view(), name@) == Some(v@),
            None => first_match(hs.deep_view(), name@) is None,
        },
{
    let n = hs.len();
    let mut i: usize = 0;
    while i < n
        invariant
            0 <= i <= n,
            forall|k: int| 0 <= k < i ==> !eq_ignore_case_spec(hs.deep_view()[k].name, name@),
        decreases n - i,
    {
        if eq_ignore_ascii_case(hs[i].name.as_slice(), name) {
            proof {
                lemma_first_match_skip(hs.deep_view(), name@, i as int);
                assert(hs.deep_view().skip(i as int)[0] == hs.deep_view()[i as int]);
            }
            return Some(&hs[i].value);
        }
        i += 1;
    }
    proof {
        lemma_first_match_skip(hs.deep_view(), name@, n as int);
    }
    None
}

/// The headers satisfying `pred`, in their original order.
pub open spec fn keep_filter(hs: Seq<HeaderView>, pred: spec_fn(HeaderView) -> bool) -> Seq<
    HeaderView,
>
    decreases hs.len(),
{
    if hs.len() == 0 {
        Seq::empty()
    } else {
        let rest = keep_filter(hs.drop_last(), pred);
        if pred(hs.last()) {
            rest.push(hs.last())
        } else {
            rest
        }
    }
}

pub proof fn lemma_keep_filter_push(
    hs: Seq<HeaderView>,
    pred: spec_fn(HeaderView) -> bool,
    h: HeaderView,
)
    ensures
        keep_filter(hs.push(h), pred) == if pred(h) {
            keep_filter(hs, pred).push(h)
        } else {
            keep_filter(hs, pred)
        },
{
    assert(hs.push(h).drop_last() =~= hs);
    assert(hs.push(h).last() == h);
}

/// Every kept header satisfies the predicate and comes from the input.
pub proof fn lemma_keep_filter_sound(hs: Seq<HeaderView>, pred: spec_fn(HeaderView) -> bool)
    ensures
        forall|i: int|
            0 <= i < keep_filter(hs, pred).len() ==> #[trigger] pred(keep_filter(hs, pred)[i]),
        forall|i: int|
            0 <= i < keep_filter(hs, pred).len() ==> hs.contains(#[trigger] keep_filter(hs, pred)[i]),
        forall|j: int|
            0 <= j < hs.len() && pred(#[trigger] hs[j]) ==> keep_filter(hs, pred).contains(hs[j]),
    decreases hs.len(),
{
    if hs.len() > 0 {
        lemma_keep_filter_sound(hs.drop_last(), pred);
        assert forall|j: int| 0 <= j < hs.len() && pred(#[trigger] hs[j]) implies keep_filter(
            hs,
            pred,
        ).contains(hs[j]) by {
            if j < hs.len() - 1 {
                assert(hs.drop_last()[j] == hs[j]);
                let k = choose|k: int|
                    0 <= k < keep_filter(hs.drop_last(), pred).len() && keep_filter(
                        hs.drop_last(),
                        pred,
                    )[k] == hs[j];
                assert(keep_filter(hs, pred)[k] == hs[j]);
            } else {
                assert(keep_filter(hs, pred).last() == hs[j]);
            }
        }
        assert forall|i: int| 0 <= i < keep_filter(hs, pred).len() implies hs.contains(
            #[trigger] keep_filter(hs, pred)[i],
        ) by {
            let sub = keep_filter(hs.drop_last(), pred);
            if i < sub.len() {
                let k = choose|k: int| 0 <= k < hs.drop_last().len() && hs.drop_last()[k] == sub[i];
                assert(hs[k] == sub[i]);
            } else {
                assert(hs.last() == keep_filter(hs, pred)[i]);
            }
        }
    }
}

/// Removing by name: the headers whose name does not match, in order.
pub open spec fn remove_name_spec(hs: Seq<HeaderView>, name: Seq<u8>) -> Seq<HeaderView> {
    keep_filter(hs, |h: HeaderView| !eq_ignore_case_spec(h.name, name))
}

/// Inserting a header replaces every header of that name (matched
/// case-insensitively) with a single one, placed last.
pub open spec fn insert_header_spec(hs: Seq<HeaderView>, name: Seq<u8>, value: Seq<u8>) -> Seq<
    HeaderView,
> {
    remove_name_spec(hs, name).push(HeaderView { name: name, value: value })
}

/// A byte that may appear in an HTTP header value: this is the rule
/// hyper's `http` types enforce when a value is built from bytes
/// (visible characters, spaces, obs-text, and horizontal tab).
pub open spec fn header_value_byte_ok(b: u8) -> bool {
    (b >= 32 && b != 127) || b == 9
}

/// A byte string accepted as a header value.
pub open spec fn valid_header_value(v: Seq<u8>) -> bool {
    forall|i: int| 0 <= i < v.len() ==> header_value_byte_ok(#[trigger] v[i])
}

/// Decides whether a byte string is accepted as a header value.
#[verifier::loop_isolation(false)]
pub fn is_valid_header_value(v: &[u8]) -> (r: bool)
    ensures
        r == valid_header_value(v@),
{
    let n = v.len();
    let mut i: usize = 0;
    while i < n
        invariant
            0 <= i <= n,
            forall|k: int| 0 <= k < i ==> header_value_byte_ok(#[trigger] v@[k]),
        decreases n - i,
    {
        let b = v[i];
        if !((b >= 32 && b != 127) || b == 9) {
            return false;
        }
        i += 1;
    }
    true
}

/// Removes every header matching `name` and appends `name: value`.
#[verifier::loop_isolation(false)]
pub fn insert_header(hs: &mut Vec<Header>, name: &[u8], value: &Vec<u8>)
    ensures
        final(hs).deep_view() == insert_header_spec(old(hs).deep_view(), name@, value@),
{
    let ghost pred = |h: HeaderView| !eq_ignore_case_spec(h.name, name@);
    let n = hs.len();
    let mut out: Vec<Header> = Vec::new();
    let mut i: usize = 0;
    while i < n
        invariant
            0 <= i <= n,
            n == old(hs).len(),
            *hs == *old(hs),
            out.deep_view() == keep_filter(old(hs).deep_view().take(i as int), pred),
        decreases n - i,
    {
        proof {
            assert(old(hs).deep_view().take(i + 1) =~= old(hs).deep_view().take(i as int).push(
                old(hs).deep_view()[i as int],
            ));
            lemma_keep_filter_push(old(hs).deep_view().take(i as int), pred, old(
                hs,
            ).deep_view()[i as int]);
        }
        if !eq_ignore_ascii_case(hs[i].name.as_slice(), name) {
            let h = copy_header(&hs[i]);
            out.push(h);
        }
        i += 1;
    }
    proof {
        assert(old(hs).deep_view().take(n as int) =~= old(hs).deep_view());
    }
    out.push(Header { name: crate::ascii::bytes_of(name), value: copy_bytes(value) });
    *hs = out;
    assert(final(hs).deep_view() =~= insert_header_spec(old(hs).deep_view(), name@, value@));
}

} // verus!
