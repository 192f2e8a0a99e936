//! The logger's rendering: deterministic request and response blocks,
//! header lines in sorted order with redaction applied, and bounded
//! body previews. Rendering never changes what is forwarded.

use vstd::prelude::*;

use crate::ascii::{
    bytes_le, bytes_le_exec, bytes_le_order, bytes_of, copy_bytes, dec_digits,
    eq_ignore_ascii_case, eq_ignore_case_spec, lemma_bytes_le_total_ordering, lemma_bytes_le_trans,
    render_u64,
};
use crate::ascii::{is_printable_value, printable_value};
use crate::headers::{first_match, get_header, Header, HeaderView};
use vstd::relations::sorted_by;
use vstd::seq_lib::lemma_sorted_unique;
use vstd::string::StringSliceAdditionalSpecFns;

verus! {

/// The views of a sequence of byte vectors.
pub open spec fn views_of(s: Seq<Vec<u8>>) -> Seq<Seq<u8>> {
    Seq::new(s.len(), |i: int| s[i]@)
}

/// A header name is in the redaction set (matched ignoring case).
pub open spec fn in_redact_set(name: Seq<u8>, redact: Seq<Seq<u8>>) -> bool {
    exists|k: int| 0 <= k < redact.len() && eq_ignore_case_spec(#[trigger] redact[k], name)
}

/// Decides whether a header name is redacted.
#[verifier::loop_isolation(false)]
pub fn name_is_redacted(name: &[u8], redact: &Vec<Vec<u8>>) -> (r: bool)
    ensures
        r == in_redact_set(name@, views_of(redact@)),
{
    let n = redact.len();
    let mut i: usize = 0;
    while i < n
        invariant
            0 <= i <= n,
            forall|k: int|
                0 <= k < i ==> !eq_ignore_case_spec(#[trigger] views_of(redact@)[k], name@),
        decreases n - i,
    {
        if eq_ignore_ascii_case(redact[i].as_slice(), name) {
            assert(views_of(redact@)[i as int] == redact@[i as int]@);
            return true;
        }
        i += 1;
    }
    false
}

/// What the logger prints for a header value: the fixed marker for a
/// redacted name, the value itself when printable, else a byte count.
/// Only the log is affected; the forwarded value is never changed.
pub open spec fn display_value_spec(name: Seq<u8>, value: Seq<u8>, redact: Seq<Seq<u8>>) -> Seq<
    u8,
> {
    if in_redact_set(name, redact) {
        "<redacted>".spec_bytes()
    } else if printable_value(value) {
        value
    } else {
        "<".spec_bytes() + dec_digits(value.len() as nat) + " bytes>".spec_bytes()
    }
}

/// Renders the logged form of one header value.
pub fn display_value(name: &[u8], value: &Vec<u8>, redact: &Vec<Vec<u8>>) -> (r: Vec<u8>)
    ensures
        r@ == display_value_spec(name@, value@, views_of(redact@)),
{
    if name_is_redacted(name, redact) {
        bytes_of("<redacted>".as_bytes())
    } else if is_printable_value(value.as_slice()) {
        copy_bytes(value)
    } else {
        let mut out = bytes_of("<".as_bytes());
        let mut digits = render_u64(value.len() as u64);
        out.append(&mut digits);
        let mut tail = bytes_of(" bytes>".as_bytes());
        out.append(&mut tail);
        assert(out@ =~= display_value_spec(name@, value@, views_of(redact@)));
        out
    }
}

/// The names of a header list, in their original order.
pub open spec fn header_names(hs: Seq<HeaderView>) -> Seq<Seq<u8>> {
    Seq::new(hs.len(), |i: int| hs[i].name)
}

/// A name already occurs in the list, ignoring case.
pub open spec fn name_in_ci(names: Seq<Seq<u8>>, n: Seq<u8>) -> bool {
    exists|k: int| 0 <= k < names.len() && eq_ignore_case_spec(#[trigger] names[k], n)
}

/// Each name once: a multi-map yields a key once however many values
/// it holds. Names are matched ignoring case; the first spelling wins.
pub open spec fn dedup_names(names: Seq<Seq<u8>>) -> Seq<Seq<u8>>
    decreases names.len(),
{
    if names.len() == 0 {
        Seq::empty()
    } else {
        let rest = dedup_names(names.drop_last());
        if name_in_ci(rest, names.last()) {
            rest
        } else {
            rest.push(names.last())
        }
    }
}

/// The header names in sorted order, one per distinct name: the logger
/// prints one line per name so its output is deterministic.
pub open spec fn sorted_names_spec(hs: Seq<HeaderView>) -> Seq<Seq<u8>> {
    dedup_names(header_names(hs)).sort_by(bytes_le_order())
}

proof fn lemma_dedup_push(names: Seq<Seq<u8>>, x: Seq<u8>)
    ensures
        dedup_names(names.push(x)) == if name_in_ci(dedup_names(names), x) {
            dedup_names(names)
        } else {
            dedup_names(names).push(x)
        },
{
    assert(names.push(x).drop_last() =~= names);
    assert(names.push(x).last() == x);
}

/// Decides whether a name already occurs, ignoring case.
#[verifier::loop_isolation(false)]
fn contains_name_ci(names: &Vec<Vec<u8>>, n: &[u8]) -> (r: bool)
    ensures
        r == name_in_ci(views_of(names@), n@),
{
    let m = names.len();
    let mut i: usize = 0;
    while i < m
        invariant
            0 <= i <= m,
            forall|k: int|
                0 <= k < i ==> !eq_ignore_case_spec(#[trigger] views_of(names@)[k], n@),
        decreases m - i,
    {
        if eq_ignore_ascii_case(names[i].as_slice(), n) {
            assert(views_of(names@)[i as int] == names@[i as int]@);
            return true;
        }
        i += 1;
    }
    false
}

/// Views commute with push.
pub proof fn lemma_views_of_push(s: Seq<Vec<u8>>, x: Vec<u8>)
    ensures
        views_of(s.push(x)) =~= views_of(s).push(x@),
{
    assert forall|m: int| 0 <= m < s.len() + 1 implies views_of(s.push(x))[m] == views_of(s).push(
        x@,
    )[m] by {
        if m < s.len() {
            assert(s.push(x)[m] == s[m]);
        } else {
            assert(s.push(x)[m] == x);
        }
    }
}

/// Inserting an element keeps the multiset, plus the element.
proof fn lemma_to_multiset_insert(s: Seq<Seq<u8>>, j: int, x: Seq<u8>)
    requires
        0 <= j <= s.len(),
    ensures
        s.insert(j, x).to_multiset() == s.to_multiset().insert(x),
{
    broadcast use vstd::seq_lib::group_to_multiset_ensures;
    broadcast use vstd::multiset::group_multiset_axioms;

    assert(s.insert(j, x) =~= s.take(j).push(x) + s.skip(j));
    assert(s =~= s.take(j) + s.skip(j));
    vstd::seq_lib::lemma_multiset_commutative(s.take(j).push(x), s.skip(j));
    vstd::seq_lib::lemma_multiset_commutative(s.take(j), s.skip(j));
    assert(s.take(j).push(x).to_multiset() =~= s.take(j).to_multiset().insert(x));
    assert(s.insert(j, x).to_multiset() =~= s.to_multiset().insert(x));
}

/// Collects and sorts the header names. The result is exactly the
/// sorted-name sequence of the specification.
#[verifier::loop_isolation(false)]
pub fn sorted_header_names(headers: &Vec<Header>) -> (names: Vec<Vec<u8>>)
    ensures
        views_of(names@) == sorted_names_spec(headers.deep_view()),
{
    broadcast use vstd::seq_lib::group_to_multiset_ensures;

    let ghost hs = headers.deep_view();
    let n = headers.len();
    let mut raw: Vec<Vec<u8>> = Vec::new();
    let mut i: usize = 0;
    while i < n
        invariant
            0 <= i <= n,
            views_of(raw@) =~= header_names(hs).take(i as int),
        decreases n - i,
    {
        raw.push(copy_bytes(&headers[i].name));
        assert(views_of(raw@) =~= header_names(hs).take(i + 1));
        i += 1;
    }
    assert(header_names(hs).take(n as int) =~= header_names(hs));

    let mut uniq: Vec<Vec<u8>> = Vec::new();
    let mut d: usize = 0;
    while d < n
        invariant
            0 <= d <= n,
            n == raw.len(),
            views_of(raw@) == header_names(hs),
            views_of(uniq@) == dedup_names(header_names(hs).take(d as int)),
        decreases n - d,
    {
        proof {
            assert(header_names(hs).take(d + 1) =~= header_names(hs).take(d as int).push(
                header_names(hs)[d as int],
            ));
            lemma_dedup_push(header_names(hs).take(d as int), header_names(hs)[d as int]);
        }
        let nm = copy_bytes(&raw[d]);
        assert(nm@ == header_names(hs)[d as int]);
        if !contains_name_ci(&uniq, nm.as_slice()) {
            let ghost prev = uniq@;
            uniq.push(nm);
            proof {
                lemma_views_of_push(prev, nm);
            }
        }
        d += 1;
    }
    proof {
        assert(header_names(hs).take(n as int) =~= header_names(hs));
    }
    let ghost base = views_of(uniq@);

    let m = uniq.len();
    let mut out: Vec<Vec<u8>> = Vec::new();
    let mut k: usize = 0;
    while k < m
        invariant
            0 <= k <= m,
            m == uniq.len(),
            views_of(uniq@) == base,
            base == dedup_names(header_names(hs)),
            sorted_by(views_of(out@), bytes_le_order()),
            views_of(out@).to_multiset() == base.take(k as int).to_multiset(),
            out.len() == k,
        decreases m - k,
    {
        let x = copy_bytes(&uniq[k]);
        let mut j: usize = out.len();
        while j > 0 && !bytes_le_exec(out[j - 1].as_slice(), x.as_slice())
            invariant
                0 <= j <= out.len(),
                forall|m: int| j <= m < out.len() ==> !bytes_le(views_of(out@)[m], x@),
            decreases j,
        {
            assert(views_of(out@)[j - 1] == out@[j - 1]@);
            j -= 1;
        }
        let ghost before = views_of(out@);
        out.insert(j, x);
        proof {
            assert(views_of(out@) =~= before.insert(j as int, x@));
            lemma_to_multiset_insert(before, j as int, x@);
            assert(base.take(k + 1) =~= base.take(k as int).push(base[k as int]));
            assert(base.take(k as int).push(base[k as int]).to_multiset() =~= base.take(
                k as int,
            ).to_multiset().insert(base[k as int]));
            assert(x@ == base[k as int]);
            let now = views_of(out@);
            assert forall|p: int, q: int| 0 <= p < q < now.len() implies bytes_le_order()(
                now[p],
                now[q],
            ) by {
                let ji = j as int;
                if q < ji {
                    assert(bytes_le_order()(before[p], before[q]));
                } else if p > ji {
                    assert(bytes_le_order()(before[p - 1], before[q - 1]));
                } else if p < ji && q == ji {
                    assert(now[q] == x@ && now[p] == before[p]);
                    assert(bytes_le(before[ji - 1], x@));
                    if p < ji - 1 {
                        assert(bytes_le_order()(before[p], before[ji - 1]));
                        lemma_bytes_le_trans(before[p], before[ji - 1], x@);
                    }
                    assert(bytes_le(now[p], now[q]));
                } else if p == ji && q > ji {
                    assert(now[p] == x@ && now[q] == before[q - 1]);
                    assert(!bytes_le(before[q - 1], x@));
                    crate::ascii::lemma_bytes_le_total(before[q - 1], x@);
                    assert(bytes_le(now[p], now[q]));
                } else {
                    assert(p < ji && q > ji);
                    assert(now[p] == before[p] && now[q] == before[q - 1]);
                    assert(!bytes_le(before[q - 1], x@));
                    crate::ascii::lemma_bytes_le_total(before[q - 1], x@);
                    assert(bytes_le(before[ji - 1], x@));
                    if p < ji - 1 {
                        assert(bytes_le_order()(before[p], before[ji - 1]));
                        lemma_bytes_le_trans(before[p], before[ji - 1], x@);
                    }
                    lemma_bytes_le_trans(before[p], x@, before[q - 1]);
                    assert(bytes_le(now[p], now[q]));
                }
            }
        }
        k += 1;
    }
    proof {
        lemma_bytes_le_total_ordering();
        assert(base.take(m as int) =~= base);
        base.lemma_sort_by_ensures(bytes_le_order());
        lemma_sorted_unique(views_of(out@), sorted_names_spec(hs), bytes_le_order());
    }
    out
}

/// One printed header line.
pub open spec fn header_line_spec(prefix: Seq<u8>, name: Seq<u8>, display: Seq<u8>) -> Seq<u8> {
    prefix + " ".spec_bytes() + name + ": ".spec_bytes() + display
}

/// The printed header lines: one per distinct name, in sorted order,
/// each showing the first value held under that name, redacted where
/// configured.
pub open spec fn header_lines_spec(
    prefix: Seq<u8>,
    hs: Seq<HeaderView>,
    redact: Seq<Seq<u8>>,
) -> Seq<Seq<u8>> {
    let names = sorted_names_spec(hs);
    Seq::new(
        names.len(),
        |i: int|
            header_line_spec(
                prefix,
                names[i],
                match first_match(hs, names[i]) {
                    Some(v) => display_value_spec(names[i], v, redact),
                    None => Seq::empty(),
                },
            ),
    )
}

/// Renders the header lines of one log block.
#[verifier::loop_isolation(false)]
pub fn render_header_lines(prefix: &str, headers: &Vec<Header>, redact: &Vec<Vec<u8>>) -> (lines:
    Vec<Vec<u8>>)
    ensures
        views_of(lines@) == header_lines_spec(
            prefix.spec_bytes(),
            headers.deep_view(),
            views_of(redact@),
        ),
{
    let ghost hs = headers.deep_view();
    let ghost expected = header_lines_spec(prefix.spec_bytes(), hs, views_of(redact@));
    let names = sorted_header_names(headers);
    let n = names.len();
    let mut lines: Vec<Vec<u8>> = Vec::new();
    let mut i: usize = 0;
    while i < n
        invariant
            0 <= i <= n,
            n == names.len(),
            views_of(names@) == sorted_names_spec(hs),
            views_of(lines@) =~= expected.take(i as int),
        decreases n - i,
    {
        let name = &names[i];
        assert(views_of(names@)[i as int] == name@);
        let display: Vec<u8> = match get_header(headers, name.as_slice()) {
            Some(v) => display_value(name.as_slice(), v, redact),
            None => Vec::new(),
        };
        let mut line = bytes_of(prefix.as_bytes());
        let mut sp = bytes_of(" ".as_bytes());
        line.append(&mut sp);
        let mut nm = copy_bytes(name);
        line.append(&mut nm);
        let mut colon = bytes_of(": ".as_bytes());
        line.append(&mut colon);
        let mut disp = display;
        line.append(&mut disp);
        lines.push(line);
        assert(views_of(lines@) =~= expected.take(i + 1));
        i += 1;
    }
    assert(expected.take(n as int) =~= expected);
    lines
}

/// The body preview: at most `max` bytes are shown; the rest is only
/// counted. The full body is still forwarded unmodified.
pub struct BodyPreview {
    pub shown: Vec<u8>,
    pub total: usize,
    pub truncated: bool,
}

/// Computes the preview of a body under the configured byte cap.
pub fn body_preview(body: &Vec<u8>, max: usize) -> (p: BodyPreview)
    ensures
        p.shown@ == body@.take(if body@.len() <= max {
            body@.len() as int
        } else {
            max as int
        }),
        p.truncated == (body@.len() > max),
        p.total == body@.len(),
{
    let take = if body.len() < max {
        body.len()
    } else {
        max
    };
    let shown = crate::config::slice_prefix(body.as_slice(), take);
    BodyPreview { shown: shown, total: body.len(), truncated: body.len() > max }
}

/// What std's lossy UTF-8 decoding returns, as bytes.
pub uninterp spec fn lossy_utf8(bytes: Seq<u8>) -> Seq<u8>;

/// Relies on std's `String::from_utf8_lossy`: invalid sequences are
/// replaced with the replacement character rather than failing; the
/// result is a function of the bytes alone, and empty input stays
/// empty.
#[verifier::external_body]
fn lossy_utf8_exec(b: &[u8]) -> (r: Vec<u8>)
    ensures
        r@ == lossy_utf8(b@),
        b@.len() == 0 ==> r@.len() == 0,
{
    String::from_utf8_lossy(b).into_owned().into_bytes()
}

/// The printed body block: a distinct marker for an empty preview, a
/// truncation marker when the body exceeds the cap, the decoded
/// preview otherwise.
pub open spec fn body_block_spec(prefix: Seq<u8>, body: Seq<u8>, max: int) -> Seq<u8> {
    let take = if body.len() <= max {
        body.len() as int
    } else {
        max
    };
    if take == 0 {
        prefix + " <no body>".spec_bytes()
    } else if body.len() > take {
        prefix + " body (".spec_bytes() + dec_digits(take as nat) + " / ".spec_bytes()
            + dec_digits(body.len() as nat) + " bytes, truncated):\n".spec_bytes() + lossy_utf8(
            body.take(take),
        ) + "\n…".spec_bytes()
    } else {
        prefix + " body (".spec_bytes() + dec_digits(body.len() as nat) + " bytes):\n".spec_bytes()
            + lossy_utf8(body)
    }
}

/// Renders the printed body block.
pub fn render_body_block(prefix: &str, body: &Vec<u8>, max: usize) -> (r: Vec<u8>)
    ensures
        r@ == body_block_spec(prefix.spec_bytes(), body@, max as int),
{
    let p = body_preview(body, max);
    let mut out = bytes_of(prefix.as_bytes());
    if p.shown.len() == 0 {
        let mut tail = bytes_of(" <no body>".as_bytes());
        out.append(&mut tail);
        assert(out@ =~= body_block_spec(prefix.spec_bytes(), body@, max as int));
        return out;
    }
    if p.truncated {
        let mut t1 = bytes_of(" body (".as_bytes());
        out.append(&mut t1);
        let mut d1 = render_u64(p.shown.len() as u64);
        out.append(&mut d1);
        let mut t2 = bytes_of(" / ".as_bytes());
        out.append(&mut t2);
        let mut d2 = render_u64(p.total as u64);
        out.append(&mut d2);
        let mut t3 = bytes_of(" bytes, truncated):\n".as_bytes());
        out.append(&mut t3);
        let mut dec = lossy_utf8_exec(p.shown.as_slice());
        out.append(&mut dec);
        let mut t4 = bytes_of("\n…".as_bytes());
        out.append(&mut t4);
        assert(out@ =~= body_block_spec(prefix.spec_bytes(), body@, max as int));
        out
    } else {
        let mut t1 = bytes_of(" body (".as_bytes());
        out.append(&mut t1);
        let mut d1 = render_u64(p.total as u64);
        out.append(&mut d1);
        let mut t2 = bytes_of(" bytes):\n".as_bytes());
        out.append(&mut t2);
        assert(p.shown@ =~= body@);
        let mut dec = lossy_utf8_exec(p.shown.as_slice());
        out.append(&mut dec);
        assert(out@ =~= body_block_spec(prefix.spec_bytes(), body@, max as int));
        out
    }
}

/// The first line of a request block.
pub open spec fn request_line_spec(
    conn_id: nat,
    now: Seq<u8>,
    method: Seq<u8>,
    uri: Seq<u8>,
    peer: Seq<u8>,
) -> Seq<u8> {
    "\n[conn#".spec_bytes() + dec_digits(conn_id) + "] ".spec_bytes() + now
        + " REQUEST ".spec_bytes() + method + " ".spec_bytes() + uri + " from ".spec_bytes() + peer
}

/// The first line of a response block.
pub open spec fn response_line_spec(conn_id: nat, now: Seq<u8>, status: u16) -> Seq<u8> {
    "[conn#".spec_bytes() + dec_digits(conn_id) + "] ".spec_bytes() + now
        + " RESPONSE ".spec_bytes() + dec_digits(status as nat)
}

/// Renders the request block's lines: the request line, then the
/// header lines, then the body block when bodies are logged.
pub fn render_request_log(
    conn_id: u64,
    now: &Vec<u8>,
    method: &Vec<u8>,
    uri: &Vec<u8>,
    peer: &Vec<u8>,
    headers: &Vec<Header>,
    redact: &Vec<Vec<u8>>,
    include_bodies: bool,
    body: &Vec<u8>,
    max_body_bytes: usize,
) -> (lines: Vec<Vec<u8>>)
    ensures
        views_of(lines@) == seq![
            request_line_spec(conn_id as nat, now@, method@, uri@, peer@),
        ] + header_lines_spec("→".spec_bytes(), headers.deep_view(), views_of(redact@)) + if include_bodies {
            seq![body_block_spec("→".spec_bytes(), body@, max_body_bytes as int)]
        } else {
            Seq::<Seq<u8>>::empty()
        },
{
    let mut first = bytes_of("\n[conn#".as_bytes());
    let mut d = render_u64(conn_id);
    first.append(&mut d);
    let mut t1 = bytes_of("] ".as_bytes());
    first.append(&mut t1);
    let mut nw = copy_bytes(now);
    first.append(&mut nw);
    let mut t2 = bytes_of(" REQUEST ".as_bytes());
    first.append(&mut t2);
    let mut m = copy_bytes(method);
    first.append(&mut m);
    let mut t3 = bytes_of(" ".as_bytes());
    first.append(&mut t3);
    let mut u = copy_bytes(uri);
    first.append(&mut u);
    let mut t4 = bytes_of(" from ".as_bytes());
    first.append(&mut t4);
    let mut pr = copy_bytes(peer);
    first.append(&mut pr);
    assert(first@ =~= request_line_spec(conn_id as nat, now@, method@, uri@, peer@));

    let mut lines: Vec<Vec<u8>> = Vec::new();
    proof {
        lemma_views_of_push(lines@, first);
    }
    lines.push(first);
    let header_lines = render_header_lines("→", headers, redact);
    append_lines(&mut lines, header_lines);
    if include_bodies {
        let block = render_body_block("→", body, max_body_bytes);
        proof {
            lemma_views_of_push(lines@, block);
        }
        lines.push(block);
    }
    assert(views_of(lines@) =~= seq![
        request_line_spec(conn_id as nat, now@, method@, uri@, peer@),
    ] + header_lines_spec("→".spec_bytes(), headers.deep_view(), views_of(redact@)) + if include_bodies {
        seq![body_block_spec("→".spec_bytes(), body@, max_body_bytes as int)]
    } else {
        Seq::<Seq<u8>>::empty()
    });
    lines
}

/// Renders the response block's lines.
pub fn render_response_log(
    conn_id: u64,
    now: &Vec<u8>,
    status: u16,
    headers: &Vec<Header>,
    redact: &Vec<Vec<u8>>,
    include_bodies: bool,
    body: &Vec<u8>,
    max_body_bytes: usize,
) -> (lines: Vec<Vec<u8>>)
    ensures
        views_of(lines@) == seq![response_line_spec(conn_id as nat, now@, status)]
            + header_lines_spec("←".spec_bytes(), headers.deep_view(), views_of(redact@)) + if include_bodies {
            seq![body_block_spec("←".spec_bytes(), body@, max_body_bytes as int)]
        } else {
            Seq::<Seq<u8>>::empty()
        },
{
    let mut first = bytes_of("[conn#".as_bytes());
    let mut d = render_u64(conn_id);
    first.append(&mut d);
    let mut t1 = bytes_of("] ".as_bytes());
    first.append(&mut t1);
    let mut nw = copy_bytes(now);
    first.append(&mut nw);
    let mut t2 = bytes_of(" RESPONSE ".as_bytes());
    first.append(&mut t2);
    let mut st = render_u64(status as u64);
    first.append(&mut st);
    assert(first@ =~= response_line_spec(conn_id as nat, now@, status));

    let mut lines: Vec<Vec<u8>> = Vec::new();
    proof {
        lemma_views_of_push(lines@, first);
    }
    lines.push(first);
    let header_lines = render_header_lines("←", headers, redact);
    append_lines(&mut lines, header_lines);
    if include_bodies {
        let block = render_body_block("←", body, max_body_bytes);
        proof {
            lemma_views_of_push(lines@, block);
        }
        lines.push(block);
    }
    assert(views_of(lines@) =~= seq![response_line_spec(conn_id as nat, now@, status)]
        + header_lines_spec("←".spec_bytes(), headers.deep_view(), views_of(redact@)) + if include_bodies {
        seq![body_block_spec("←".spec_bytes(), body@, max_body_bytes as int)]
    } else {
        Seq::<Seq<u8>>::empty()
    });
    lines
}

/// Appends all of `more` to `lines`.
#[verifier::loop_isolation(false)]
fn append_lines(lines: &mut Vec<Vec<u8>>, more: Vec<Vec<u8>>)
    ensures
        views_of(final(lines)@) == views_of(old(lines)@) + views_of(more@),
{
    let n = more.len();
    let ghost more0 = views_of(more@);
    let mut i: usize = 0;
    while i < n
        invariant
            0 <= i <= n,
            n == more.len(),
            views_of(more@) == more0,
            views_of(lines@) =~= views_of(old(lines)@) + more0.take(i as int),
        decreases n - i,
    {
        let x = copy_bytes(&more[i]);
        assert(x@ == more0[i as int]);
        let ghost prev = lines@;
        lines.push(x);
        proof {
            lemma_views_of_push(prev, x);
            assert(more0.take(i + 1) =~= more0.take(i as int).push(more0[i as int]));
            assert(views_of(lines@) =~= views_of(old(lines)@) + more0.take(i + 1));
        }
        i += 1;
    }
    assert(more0.take(n as int) =~= more0);
}

} // verus!
