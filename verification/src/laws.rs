//! The engine's cross-cutting guarantees, stated and proved over the
//! same specifications its functions carry.

use vstd::prelude::*;

use crate::ascii::{eq_ignore_case_spec, lemma_ascii_literal_bytes, lower, lower_byte};
use crate::config::{scheme_bytes_spec, ConfigView, Scheme};
use crate::forward::{forward_headers_spec, forward_keep, host_header_value_spec};
use crate::headers::{
    first_match, insert_header_spec, is_hop_name, keep_filter, lemma_keep_filter_sound,
    remove_name_spec, HeaderView,
};
use crate::logfmt::{display_value_spec, in_redact_set};
use crate::response::{response_headers_spec, response_keep};
use crate::uri::{pq_or_root, target_uri_spec};
use crate::ws::{reinsert_one, ws_forward_headers_spec};
use vstd::string::StringSliceAdditionalSpecFns;

verus! {

/// The forwarded URI is exactly the configured scheme and authority
/// followed by the inbound path and query, unchanged: only scheme and
/// authority differ from the inbound request target.
pub proof fn lemma_forwarded_uri_preserves_path_query(
    scheme: Scheme,
    authority: Seq<u8>,
    pq: Option<Seq<u8>>,
)
    ensures
        ({
            let full = target_uri_spec(scheme, authority, pq);
            let prefix = scheme_bytes_spec(scheme) + "://".spec_bytes() + authority;
            &&& full.len() == prefix.len() + pq_or_root(pq).len()
            &&& full.skip(prefix.len() as int) == pq_or_root(pq)
            &&& full.take(prefix.len() as int) == prefix
        }),
{
    let full = target_uri_spec(scheme, authority, pq);
    let prefix = scheme_bytes_spec(scheme) + "://".spec_bytes() + authority;
    assert(full =~= prefix + pq_or_root(pq));
    assert(full.skip(prefix.len() as int) =~= pq_or_root(pq));
    assert(full.take(prefix.len() as int) =~= prefix);
}

/// The lower-casing of a string keeps its length.
proof fn lemma_lower_len(s: Seq<u8>)
    ensures
        lower(s).len() == s.len(),
{
}

/// The literal byte lengths this module's distinctness arguments rest
/// on.
proof fn lemma_name_literal_lens()
    ensures
        "host".spec_bytes().len() == 4,
        "connection".spec_bytes().len() == 10,
        "proxy-connection".spec_bytes().len() == 16,
        "keep-alive".spec_bytes().len() == 10,
        "transfer-encoding".spec_bytes().len() == 17,
        "upgrade".spec_bytes().len() == 7,
        "te".spec_bytes().len() == 2,
        "trailer".spec_bytes().len() == 7,
        "sec-websocket-key".spec_bytes().len() == 17,
        "sec-websocket-version".spec_bytes().len() == 21,
        "sec-websocket-protocol".spec_bytes().len() == 22,
        "sec-websocket-extensions".spec_bytes().len() == 24,
{
    reveal_strlit("host");
    reveal_strlit("connection");
    reveal_strlit("proxy-connection");
    reveal_strlit("keep-alive");
    reveal_strlit("transfer-encoding");
    reveal_strlit("upgrade");
    reveal_strlit("te");
    reveal_strlit("trailer");
    reveal_strlit("sec-websocket-key");
    reveal_strlit("sec-websocket-version");
    reveal_strlit("sec-websocket-protocol");
    reveal_strlit("sec-websocket-extensions");
    assert(vstd::string::is_ascii("host"));
    assert(vstd::string::is_ascii("connection"));
    assert(vstd::string::is_ascii("proxy-connection"));
    assert(vstd::string::is_ascii("keep-alive"));
    assert(vstd::string::is_ascii("transfer-encoding"));
    assert(vstd::string::is_ascii("upgrade"));
    assert(vstd::string::is_ascii("te"));
    assert(vstd::string::is_ascii("trailer"));
    assert(vstd::string::is_ascii("sec-websocket-key"));
    assert(vstd::string::is_ascii("sec-websocket-version"));
    assert(vstd::string::is_ascii("sec-websocket-protocol"));
    assert(vstd::string::is_ascii("sec-websocket-extensions"));
    lemma_ascii_literal_bytes("host");
    lemma_ascii_literal_bytes("connection");
    lemma_ascii_literal_bytes("proxy-connection");
    lemma_ascii_literal_bytes("keep-alive");
    lemma_ascii_literal_bytes("transfer-encoding");
    lemma_ascii_literal_bytes("upgrade");
    lemma_ascii_literal_bytes("te");
    lemma_ascii_literal_bytes("trailer");
    lemma_ascii_literal_bytes("sec-websocket-key");
    lemma_ascii_literal_bytes("sec-websocket-version");
    lemma_ascii_literal_bytes("sec-websocket-protocol");
    lemma_ascii_literal_bytes("sec-websocket-extensions");
}

/// Two names whose lengths differ never match, even ignoring case.
proof fn lemma_len_no_match(a: Seq<u8>, b: Seq<u8>)
    requires
        a.len() != b.len(),
    ensures
        !eq_ignore_case_spec(a, b),
{
    lemma_lower_len(a);
    lemma_lower_len(b);
}

/// `host` is not a hop-by-hop name.
pub proof fn lemma_host_not_hop()
    ensures
        !is_hop_name("host".spec_bytes()),
{
    lemma_name_literal_lens();
    lemma_len_no_match("host".spec_bytes(), "connection".spec_bytes());
    lemma_len_no_match("host".spec_bytes(), "proxy-connection".spec_bytes());
    lemma_len_no_match("host".spec_bytes(), "keep-alive".spec_bytes());
    lemma_len_no_match("host".spec_bytes(), "transfer-encoding".spec_bytes());
    lemma_len_no_match("host".spec_bytes(), "upgrade".spec_bytes());
    lemma_len_no_match("host".spec_bytes(), "te".spec_bytes());
    lemma_len_no_match("host".spec_bytes(), "trailer".spec_bytes());
}

/// None of the hop-by-hop names appears among the headers sent
/// upstream on the plain forwarding path, whatever the client sent.
pub proof fn lemma_no_hop_headers_forwarded(hs: Seq<HeaderView>, cfg: ConfigView)
    ensures
        forall|i: int|
            0 <= i < forward_headers_spec(hs, cfg).len() ==> !is_hop_name(
                #[trigger] forward_headers_spec(hs, cfg)[i].name,
            ),
{
    let kept = keep_filter(hs, forward_keep());
    let out = forward_headers_spec(hs, cfg);
    lemma_keep_filter_sound(hs, forward_keep());
    lemma_host_not_hop();
    assert forall|i: int| 0 <= i < out.len() implies !is_hop_name(#[trigger] out[i].name) by {
        if i < kept.len() {
            assert(out[i] == kept[i]);
            assert(forward_keep()(kept[i]));
        } else {
            assert(out[i].name == "host".spec_bytes());
        }
    }
}

/// Hop-by-hop headers never cross the boundary in the return direction
/// either: none of the seven names appears among the response headers
/// returned to the client on the plain forwarding path, whatever the
/// upstream sent.
pub proof fn lemma_no_hop_headers_in_response(hs: Seq<HeaderView>)
    ensures
        forall|i: int|
            0 <= i < response_headers_spec(hs).len() ==> !is_hop_name(
                #[trigger] response_headers_spec(hs)[i].name,
            ),
{
    lemma_keep_filter_sound(hs, response_keep());
    assert forall|i: int| 0 <= i < response_headers_spec(hs).len() implies !is_hop_name(
        #[trigger] response_headers_spec(hs)[i].name,
    ) by {
        assert(response_keep()(response_headers_spec(hs)[i]));
    }
}

/// Looking a name up in a filtered list, when the filter keeps every
/// header matching that name, finds what the unfiltered lookup finds.
proof fn lemma_first_match_snoc(hs: Seq<HeaderView>, h: HeaderView, t: Seq<u8>)
    ensures
        first_match(hs.push(h), t) == match first_match(hs, t) {
            Some(v) => Some(v),
            None => if eq_ignore_case_spec(h.name, t) {
                Some(h.value)
            } else {
                None::<Seq<u8>>
            },
        },
    decreases hs.len(),
{
    if hs.len() == 0 {
        assert(hs.push(h)[0] == h);
        assert(hs.push(h).drop_first() =~= hs);
    } else {
        assert(hs.push(h)[0] == hs[0]);
        assert(hs.push(h).drop_first() =~= hs.drop_first().push(h));
        lemma_first_match_snoc(hs.drop_first(), h, t);
    }
}

proof fn lemma_first_match_filter(
    hs: Seq<HeaderView>,
    pred: spec_fn(HeaderView) -> bool,
    t: Seq<u8>,
)
    requires
        forall|h: HeaderView| eq_ignore_case_spec(h.name, t) ==> #[trigger] pred(h),
    ensures
        first_match(keep_filter(hs, pred), t) == first_match(hs, t),
    decreases hs.len(),
{
    if hs.len() > 0 {
        let butlast = hs.drop_last();
        lemma_first_match_filter(butlast, pred, t);
        assert(hs =~= butlast.push(hs.last()));
        lemma_first_match_snoc(butlast, hs.last(), t);
        if pred(hs.last()) {
            lemma_first_match_snoc(keep_filter(butlast, pred), hs.last(), t);
        } else {
            assert(!eq_ignore_case_spec(hs.last().name, t));
        }
    }
}

/// The Host header sent upstream is always the configured override
/// when one is set, else the target authority, whatever Host the
/// client sent — on the plain forwarding path.
pub proof fn lemma_host_header_forwarded(hs: Seq<HeaderView>, cfg: ConfigView)
    ensures
        first_match(forward_headers_spec(hs, cfg), "host".spec_bytes()) == Some(
            host_header_value_spec(cfg.target_authority, cfg.upstream_host),
        ),
{
    let host = "host".spec_bytes();
    let kept = keep_filter(hs, forward_keep());
    lemma_keep_filter_sound(hs, forward_keep());
    let entry = HeaderView {
        name: host,
        value: host_header_value_spec(cfg.target_authority, cfg.upstream_host),
    };
    lemma_first_match_snoc(kept, entry, host);
    assert forall|i: int| 0 <= i < kept.len() implies !eq_ignore_case_spec(
        #[trigger] kept[i].name,
        host,
    ) by {
        assert(forward_keep()(kept[i]));
    }
    lemma_first_match_none(kept, host);
    assert(eq_ignore_case_spec(entry.name, host));
}

/// A list none of whose names match has no first match.
proof fn lemma_first_match_none(hs: Seq<HeaderView>, t: Seq<u8>)
    requires
        forall|i: int| 0 <= i < hs.len() ==> !eq_ignore_case_spec(#[trigger] hs[i].name, t),
    ensures
        first_match(hs, t) is None,
    decreases hs.len(),
{
    if hs.len() > 0 {
        lemma_first_match_none(hs.drop_first(), t);
    }
}

/// Inserting a header under a different name does not change what a
/// Host lookup finds.
proof fn lemma_insert_keeps_other_first_match(
    hs: Seq<HeaderView>,
    name: Seq<u8>,
    value: Seq<u8>,
    t: Seq<u8>,
)
    requires
        !eq_ignore_case_spec(name, t),
        first_match(hs, t) is Some,
    ensures
        first_match(insert_header_spec(hs, name, value), t) == first_match(hs, t),
{
    let pred = |h: HeaderView| !eq_ignore_case_spec(h.name, name);
    assert forall|h: HeaderView| eq_ignore_case_spec(h.name, t) implies #[trigger] pred(h) by {
        if eq_ignore_case_spec(h.name, name) {
            assert(lower(h.name) == lower(t) && lower(h.name) == lower(name));
        }
    }
    lemma_first_match_filter(hs, pred, t);
    lemma_first_match_snoc(remove_name_spec(hs, name), HeaderView { name: name, value: value }, t);
}

/// One reinstatement step under a different name changes no other
/// name's lookup.
proof fn lemma_reinsert_keeps_other(
    hs: Seq<HeaderView>,
    original: Seq<HeaderView>,
    name: Seq<u8>,
    t: Seq<u8>,
)
    requires
        !eq_ignore_case_spec(name, t),
        first_match(hs, t) is Some,
    ensures
        first_match(reinsert_one(hs, original, name), t) == first_match(hs, t),
{
    match first_match(original, name) {
        Some(v) => {
            lemma_insert_keeps_other_first_match(hs, name, v, t);
        },
        None => {},
    }
}

/// The Host guarantee holds on the WebSocket handshake path too: the
/// reinstated WebSocket headers never touch Host.
pub proof fn lemma_host_header_forwarded_ws(hs: Seq<HeaderView>, cfg: ConfigView)
    ensures
        first_match(ws_forward_headers_spec(hs, cfg), "host".spec_bytes()) == Some(
            host_header_value_spec(cfg.target_authority, cfg.upstream_host),
        ),
{
    let host = "host".spec_bytes();
    lemma_host_header_forwarded(hs, cfg);
    lemma_name_literal_lens();
    lemma_len_no_match("connection".spec_bytes(), host);
    lemma_len_no_match("upgrade".spec_bytes(), host);
    lemma_len_no_match("sec-websocket-key".spec_bytes(), host);
    lemma_len_no_match("sec-websocket-version".spec_bytes(), host);
    lemma_len_no_match("sec-websocket-protocol".spec_bytes(), host);
    lemma_len_no_match("sec-websocket-extensions".spec_bytes(), host);
    let fwd = forward_headers_spec(hs, cfg);
    let step0 = reinsert_one(fwd, hs, "connection".spec_bytes());
    let step1 = reinsert_one(step0, hs, "upgrade".spec_bytes());
    let step2 = reinsert_one(step1, hs, "sec-websocket-key".spec_bytes());
    let step3 = reinsert_one(step2, hs, "sec-websocket-version".spec_bytes());
    let step4 = reinsert_one(step3, hs, "sec-websocket-protocol".spec_bytes());
    lemma_reinsert_keeps_other(fwd, hs, "connection".spec_bytes(), host);
    lemma_reinsert_keeps_other(step0, hs, "upgrade".spec_bytes(), host);
    lemma_reinsert_keeps_other(step1, hs, "sec-websocket-key".spec_bytes(), host);
    lemma_reinsert_keeps_other(step2, hs, "sec-websocket-version".spec_bytes(), host);
    lemma_reinsert_keeps_other(step3, hs, "sec-websocket-protocol".spec_bytes(), host);
    lemma_reinsert_keeps_other(step4, hs, "sec-websocket-extensions".spec_bytes(), host);
}

/// Two names whose first bytes differ after case folding never match.
proof fn lemma_first_byte_no_match(a: Seq<u8>, b: Seq<u8>)
    requires
        a.len() > 0,
        b.len() > 0,
        lower_byte(a[0]) != lower_byte(b[0]),
    ensures
        !eq_ignore_case_spec(a, b),
{
    assert(lower(a)[0] == lower_byte(a[0]));
    assert(lower(b)[0] == lower_byte(b[0]));
    if lower(a) == lower(b) {
        assert(lower(a)[0] == lower(b)[0]);
    }
}

/// The captured WebSocket handshake names are not hop-by-hop names.
proof fn lemma_sec_names_not_hop()
    ensures
        !is_hop_name("sec-websocket-key".spec_bytes()),
        !is_hop_name("sec-websocket-version".spec_bytes()),
        !is_hop_name("sec-websocket-protocol".spec_bytes()),
        !is_hop_name("sec-websocket-extensions".spec_bytes()),
{
    lemma_name_literal_lens();
    let names = [
        "sec-websocket-key".spec_bytes(),
        "sec-websocket-version".spec_bytes(),
        "sec-websocket-protocol".spec_bytes(),
        "sec-websocket-extensions".spec_bytes(),
    ];
    // Lengths separate every pair except sec-websocket-key against
    // transfer-encoding; there the first byte decides.
    lemma_len_no_match("sec-websocket-key".spec_bytes(), "connection".spec_bytes());
    lemma_len_no_match("sec-websocket-key".spec_bytes(), "proxy-connection".spec_bytes());
    lemma_len_no_match("sec-websocket-key".spec_bytes(), "keep-alive".spec_bytes());
    lemma_len_no_match("sec-websocket-key".spec_bytes(), "upgrade".spec_bytes());
    lemma_len_no_match("sec-websocket-key".spec_bytes(), "te".spec_bytes());
    lemma_len_no_match("sec-websocket-key".spec_bytes(), "trailer".spec_bytes());
    reveal_strlit("sec-websocket-key");
    reveal_strlit("transfer-encoding");
    assert(vstd::string::is_ascii("sec-websocket-key"));
    assert(vstd::string::is_ascii("transfer-encoding"));
    lemma_ascii_literal_bytes("sec-websocket-key");
    lemma_ascii_literal_bytes("transfer-encoding");
    assert("sec-websocket-key".spec_bytes()[0] == 115u8);
    assert("transfer-encoding".spec_bytes()[0] == 116u8);
    lemma_first_byte_no_match(
        "sec-websocket-key".spec_bytes(),
        "transfer-encoding".spec_bytes(),
    );
    assert forall|k: int| 0 <= k < 4 implies !is_hop_name(#[trigger] names[k]) by {
        if k > 0 {
            lemma_len_no_match(names[k], "connection".spec_bytes());
            lemma_len_no_match(names[k], "proxy-connection".spec_bytes());
            lemma_len_no_match(names[k], "keep-alive".spec_bytes());
            lemma_len_no_match(names[k], "transfer-encoding".spec_bytes());
            lemma_len_no_match(names[k], "upgrade".spec_bytes());
            lemma_len_no_match(names[k], "te".spec_bytes());
            lemma_len_no_match(names[k], "trailer".spec_bytes());
        }
    }
}

/// Every header of an insert is an input header or the inserted entry.
proof fn lemma_insert_members(hs: Seq<HeaderView>, name: Seq<u8>, value: Seq<u8>)
    ensures
        forall|i: int|
            0 <= i < insert_header_spec(hs, name, value).len() ==> hs.contains(
                #[trigger] insert_header_spec(hs, name, value)[i],
            ) || insert_header_spec(hs, name, value)[i] == (HeaderView {
                name: name,
                value: value,
            }),
{
    let pred = |h: HeaderView| !eq_ignore_case_spec(h.name, name);
    lemma_keep_filter_sound(hs, pred);
    let out = insert_header_spec(hs, name, value);
    let kept = remove_name_spec(hs, name);
    assert forall|i: int| 0 <= i < out.len() implies hs.contains(#[trigger] out[i]) || out[i]
        == (HeaderView { name: name, value: value }) by {
        if i < kept.len() {
            assert(out[i] == kept[i]);
        }
    }
}

/// Only headers allowed to cross do: one reinstatement step keeps
/// every name non-hop-by-hop, except names the step itself carries.
proof fn lemma_reinsert_names(
    hs: Seq<HeaderView>,
    original: Seq<HeaderView>,
    name: Seq<u8>,
    allowed: spec_fn(Seq<u8>) -> bool,
)
    requires
        forall|i: int| 0 <= i < hs.len() ==> #[trigger] allowed(hs[i].name),
        allowed(name),
    ensures
        forall|i: int|
            0 <= i < reinsert_one(hs, original, name).len() ==> #[trigger] allowed(
                reinsert_one(hs, original, name)[i].name,
            ),
{
    match first_match(original, name) {
        Some(v) => {
            lemma_insert_members(hs, name, v);
            assert forall|i: int| 0 <= i < reinsert_one(hs, original, name).len() implies allowed(
                #[trigger] reinsert_one(hs, original, name)[i].name,
            ) by {
                let h = reinsert_one(hs, original, name)[i];
                if hs.contains(h) {
                    let k = choose|k: int| 0 <= k < hs.len() && hs[k] == h;
                    assert(allowed(hs[k].name));
                }
            }
        },
        None => {},
    }
}

/// On the WebSocket handshake path, the only hop-by-hop names that
/// reach the upstream are Connection and Upgrade — reinstated there
/// deliberately, because the upstream handshake needs them.
pub proof fn lemma_ws_forward_hop_headers(hs: Seq<HeaderView>, cfg: ConfigView)
    ensures
        forall|i: int|
            0 <= i < ws_forward_headers_spec(hs, cfg).len() ==> !is_hop_name(
                #[trigger] ws_forward_headers_spec(hs, cfg)[i].name,
            ) || eq_ignore_case_spec(
                ws_forward_headers_spec(hs, cfg)[i].name,
                "connection".spec_bytes(),
            ) || eq_ignore_case_spec(
                ws_forward_headers_spec(hs, cfg)[i].name,
                "upgrade".spec_bytes(),
            ),
{
    let allowed = |n: Seq<u8>|
        !is_hop_name(n) || eq_ignore_case_spec(n, "connection".spec_bytes())
            || eq_ignore_case_spec(n, "upgrade".spec_bytes());
    lemma_no_hop_headers_forwarded(hs, cfg);
    lemma_sec_names_not_hop();
    let fwd = forward_headers_spec(hs, cfg);
    assert(forall|i: int| 0 <= i < fwd.len() ==> #[trigger] allowed(fwd[i].name));
    let step0 = reinsert_one(fwd, hs, "connection".spec_bytes());
    let step1 = reinsert_one(step0, hs, "upgrade".spec_bytes());
    let step2 = reinsert_one(step1, hs, "sec-websocket-key".spec_bytes());
    let step3 = reinsert_one(step2, hs, "sec-websocket-version".spec_bytes());
    let step4 = reinsert_one(step3, hs, "sec-websocket-protocol".spec_bytes());
    assert(allowed("connection".spec_bytes()));
    assert(allowed("upgrade".spec_bytes()));
    lemma_reinsert_names(fwd, hs, "connection".spec_bytes(), allowed);
    lemma_reinsert_names(step0, hs, "upgrade".spec_bytes(), allowed);
    lemma_reinsert_names(step1, hs, "sec-websocket-key".spec_bytes(), allowed);
    lemma_reinsert_names(step2, hs, "sec-websocket-version".spec_bytes(), allowed);
    lemma_reinsert_names(step3, hs, "sec-websocket-protocol".spec_bytes(), allowed);
    lemma_reinsert_names(step4, hs, "sec-websocket-extensions".spec_bytes(), allowed);
    assert forall|i: int| 0 <= i < ws_forward_headers_spec(hs, cfg).len() implies !is_hop_name(
        #[trigger] ws_forward_headers_spec(hs, cfg)[i].name,
    ) || eq_ignore_case_spec(
        ws_forward_headers_spec(hs, cfg)[i].name,
        "connection".spec_bytes(),
    ) || eq_ignore_case_spec(ws_forward_headers_spec(hs, cfg)[i].name, "upgrade".spec_bytes()) by {
        assert(allowed(ws_forward_headers_spec(hs, cfg)[i].name));
    }
}

/// Inserting a header makes it the one found under its name.
proof fn lemma_insert_sets_first_match(hs: Seq<HeaderView>, name: Seq<u8>, value: Seq<u8>)
    ensures
        first_match(insert_header_spec(hs, name, value), name) == Some(value),
{
    let pred = |h: HeaderView| !eq_ignore_case_spec(h.name, name);
    let kept = remove_name_spec(hs, name);
    lemma_keep_filter_sound(hs, pred);
    assert forall|i: int| 0 <= i < kept.len() implies !eq_ignore_case_spec(
        #[trigger] kept[i].name,
        name,
    ) by {
        assert(pred(kept[i]));
    }
    lemma_first_match_none(kept, name);
    lemma_first_match_snoc(kept, HeaderView { name: name, value: value }, name);
}

/// A reinstated header is found under its name with the client's
/// original value.
proof fn lemma_reinsert_sets_first_match(
    hs: Seq<HeaderView>,
    original: Seq<HeaderView>,
    name: Seq<u8>,
)
    requires
        first_match(original, name) is Some,
    ensures
        first_match(reinsert_one(hs, original, name), name) == first_match(original, name),
{
    match first_match(original, name) {
        Some(v) => {
            lemma_insert_sets_first_match(hs, name, v);
        },
        None => {},
    }
}

/// The WebSocket handshake headers the client sent are reinstated
/// verbatim on the forwarded handshake: for each captured name, the
/// value found under it upstream is exactly the client's first value.
pub proof fn lemma_ws_headers_reinstated(hs: Seq<HeaderView>, cfg: ConfigView, name: Seq<u8>)
    requires
        ({
            ||| name == "connection".spec_bytes()
            ||| name == "upgrade".spec_bytes()
            ||| name == "sec-websocket-key".spec_bytes()
            ||| name == "sec-websocket-version".spec_bytes()
            ||| name == "sec-websocket-protocol".spec_bytes()
            ||| name == "sec-websocket-extensions".spec_bytes()
        }),
        first_match(hs, name) is Some,
    ensures
        first_match(ws_forward_headers_spec(hs, cfg), name) == first_match(hs, name),
{
    lemma_name_literal_lens();
    let n0 = "connection".spec_bytes();
    let n1 = "upgrade".spec_bytes();
    let n2 = "sec-websocket-key".spec_bytes();
    let n3 = "sec-websocket-version".spec_bytes();
    let n4 = "sec-websocket-protocol".spec_bytes();
    let n5 = "sec-websocket-extensions".spec_bytes();
    lemma_len_no_match(n1, n0);
    lemma_len_no_match(n2, n0);
    lemma_len_no_match(n3, n0);
    lemma_len_no_match(n4, n0);
    lemma_len_no_match(n5, n0);
    lemma_len_no_match(n2, n1);
    lemma_len_no_match(n3, n1);
    lemma_len_no_match(n4, n1);
    lemma_len_no_match(n5, n1);
    lemma_len_no_match(n3, n2);
    lemma_len_no_match(n4, n2);
    lemma_len_no_match(n5, n2);
    lemma_len_no_match(n4, n3);
    lemma_len_no_match(n5, n3);
    lemma_len_no_match(n5, n4);
    let fwd = forward_headers_spec(hs, cfg);
    let step0 = reinsert_one(fwd, hs, n0);
    let step1 = reinsert_one(step0, hs, n1);
    let step2 = reinsert_one(step1, hs, n2);
    let step3 = reinsert_one(step2, hs, n3);
    let step4 = reinsert_one(step3, hs, n4);
    if name == n0 {
        lemma_reinsert_sets_first_match(fwd, hs, n0);
        lemma_reinsert_keeps_other(step0, hs, n1, n0);
        lemma_reinsert_keeps_other(step1, hs, n2, n0);
        lemma_reinsert_keeps_other(step2, hs, n3, n0);
        lemma_reinsert_keeps_other(step3, hs, n4, n0);
        lemma_reinsert_keeps_other(step4, hs, n5, n0);
    } else if name == n1 {
        lemma_reinsert_sets_first_match(step0, hs, n1);
        lemma_reinsert_keeps_other(step1, hs, n2, n1);
        lemma_reinsert_keeps_other(step2, hs, n3, n1);
        lemma_reinsert_keeps_other(step3, hs, n4, n1);
        lemma_reinsert_keeps_other(step4, hs, n5, n1);
    } else if name == n2 {
        lemma_reinsert_sets_first_match(step1, hs, n2);
        lemma_reinsert_keeps_other(step2, hs, n3, n2);
        lemma_reinsert_keeps_other(step3, hs, n4, n2);
        lemma_reinsert_keeps_other(step4, hs, n5, n2);
    } else if name == n3 {
        lemma_reinsert_sets_first_match(step2, hs, n3);
        lemma_reinsert_keeps_other(step3, hs, n4, n3);
        lemma_reinsert_keeps_other(step4, hs, n5, n3);
    } else if name == n4 {
        lemma_reinsert_sets_first_match(step3, hs, n4);
        lemma_reinsert_keeps_other(step4, hs, n5, n4);
    } else {
        lemma_reinsert_sets_first_match(step4, hs, n5);
    }
}

/// Redaction changes the log alone: a redacted header is logged as the
/// fixed marker, while the header itself crosses to the upstream with
/// its value untouched (provided forwarding keeps it at all: redaction
/// never drops a header).
pub proof fn lemma_redaction_logs_only(hs: Seq<HeaderView>, cfg: ConfigView, i: int)
    requires
        0 <= i < hs.len(),
        in_redact_set(hs[i].name, cfg.redact_header),
        !is_hop_name(hs[i].name),
        !eq_ignore_case_spec(hs[i].name, "host".spec_bytes()),
    ensures
        display_value_spec(hs[i].name, hs[i].value, cfg.redact_header)
            == "<redacted>".spec_bytes(),
        forward_headers_spec(hs, cfg).contains(hs[i]),
{
    lemma_keep_filter_sound(hs, forward_keep());
    assert(forward_keep()(hs[i]));
    let kept = keep_filter(hs, forward_keep());
    assert(kept.contains(hs[i]));
    let k = choose|k: int| 0 <= k < kept.len() && kept[k] == hs[i];
    assert(forward_headers_spec(hs, cfg)[k] == hs[i]);
}

} // verus!
