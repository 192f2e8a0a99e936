//! Request statistics: one event per forwarded non-tunnel request,
//! aggregated per path into per-method counters plus a last-seen time.
//! The channel that carries events to the dashboard lives in the
//! runtime layer; the aggregation itself is verified here.

use vstd::prelude::*;

use crate::ascii::copy_bytes;
use crate::uri::pq_or_root;
use vstd::pervasive::VecAdditionalExecFns;
use vstd::relations::sorted_by;
use vstd::string::StringSliceAdditionalSpecFns;

verus! {

/// One observability event: emitted once per forwarded, non-tunnel
/// request, never surfaced as a request error.
pub struct StatsEvent {
    pub method: Vec<u8>,
    pub path: Vec<u8>,
    pub at: u64,
}

/// Mathematical view of an event.
pub ghost struct StatsEventView {
    pub method: Seq<u8>,
    pub path: Seq<u8>,
    pub at: u64,
}

impl View for StatsEvent {
    type V = StatsEventView;

    open spec fn view(&self) -> StatsEventView {
        StatsEventView { method: self.method@, path: self.path@, at: self.at }
    }
}

/// Builds the event for a request: the method, the request's path and
/// query (or `/` when it has none), and the time it was seen.
pub fn stats_event(method: &Vec<u8>, pq: &Option<Vec<u8>>, at: u64) -> (ev: StatsEvent)
    ensures
        ev.method@ == method@,
        ev.path@ == pq_or_root(pq.deep_view()),
        ev.at == at,
{
    let path = match pq {
        Some(p) => copy_bytes(p),
        None => crate::ascii::bytes_of("/".as_bytes()),
    };
    StatsEvent { method: copy_bytes(method), path: path, at: at }
}

/// Per-method request counters for one path.
#[derive(Clone, Copy, Debug, PartialEq, Eq, Structural)]
pub struct MethodCounts {
    pub get: u64,
    pub post: u64,
    pub put: u64,
    pub patch: u64,
    pub delete_: u64,
    pub other: u64,
}

/// The all-zero counters.
pub open spec fn zero_counts() -> MethodCounts {
    MethodCounts { get: 0, post: 0, put: 0, patch: 0, delete_: 0, other: 0 }
}

impl Default for MethodCounts {
    /// Fresh counters start at zero.
    fn default() -> (r: MethodCounts)
        ensures
            r == zero_counts(),
    {
        MethodCounts { get: 0, post: 0, put: 0, patch: 0, delete_: 0, other: 0 }
    }
}

/// The method classes that are counted separately.
#[derive(Clone, Copy, Debug, PartialEq, Eq, Structural)]
pub enum MethodKind {
    Get,
    Post,
    Put,
    Patch,
    Delete,
    Other,
}

/// Classifies a method name. The match is exact, as HTTP methods are
/// case-sensitive.
pub open spec fn method_kind(m: Seq<u8>) -> MethodKind {
    if m == "GET".spec_bytes() {
        MethodKind::Get
    } else if m == "POST".spec_bytes() {
        MethodKind::Post
    } else if m == "PUT".spec_bytes() {
        MethodKind::Put
    } else if m == "PATCH".spec_bytes() {
        MethodKind::Patch
    } else if m == "DELETE".spec_bytes() {
        MethodKind::Delete
    } else {
        MethodKind::Other
    }
}

/// Exact equality of two byte strings.
#[verifier::loop_isolation(false)]
pub fn bytes_eq(a: &[u8], b: &[u8]) -> (r: bool)
    ensures
        r == (a@ == b@),
{
    if a.len() != b.len() {
        return false;
    }
    let n = a.len();
    let mut i: usize = 0;
    while i < n
        invariant
            0 <= i <= n,
            n == a@.len() == b@.len(),
            forall|k: int| 0 <= k < i ==> a@[k] == b@[k],
        decreases n - i,
    {
        if a[i] != b[i] {
            return false;
        }
        i += 1;
    }
    assert(a@ =~= b@);
    true
}

/// Classifies a method name.
pub fn classify_method(m: &[u8]) -> (r: MethodKind)
    ensures
        r == method_kind(m@),
{
    if bytes_eq(m, "GET".as_bytes()) {
        MethodKind::Get
    } else if bytes_eq(m, "POST".as_bytes()) {
        MethodKind::Post
    } else if bytes_eq(m, "PUT".as_bytes()) {
        MethodKind::Put
    } else if bytes_eq(m, "PATCH".as_bytes()) {
        MethodKind::Patch
    } else if bytes_eq(m, "DELETE".as_bytes()) {
        MethodKind::Delete
    } else {
        MethodKind::Other
    }
}

/// One more request counted, staying put at the counter's ceiling.
pub open spec fn bump(c: u64) -> u64 {
    if c < u64::MAX {
        (c + 1) as u64
    } else {
        c
    }
}

/// The counters after one event of the given kind.
pub open spec fn counts_bumped(c: MethodCounts, k: MethodKind) -> MethodCounts {
    match k {
        MethodKind::Get => MethodCounts { get: bump(c.get), ..c },
        MethodKind::Post => MethodCounts { post: bump(c.post), ..c },
        MethodKind::Put => MethodCounts { put: bump(c.put), ..c },
        MethodKind::Patch => MethodCounts { patch: bump(c.patch), ..c },
        MethodKind::Delete => MethodCounts { delete_: bump(c.delete_), ..c },
        MethodKind::Other => MethodCounts { other: bump(c.other), ..c },
    }
}

/// Applies one bump to a counter.
fn bump_exec(c: u64) -> (r: u64)
    ensures
        r == bump(c),
{
    if c < u64::MAX {
        c + 1
    } else {
        c
    }
}

/// The snapshot order: most recently seen first.
pub open spec fn more_recent_first() -> spec_fn(RecordView, RecordView) -> bool {
    |a: RecordView, b: RecordView| a.last_seen >= b.last_seen
}

/// The aggregated state of one path.
pub struct Record {
    pub path: Vec<u8>,
    pub counts: MethodCounts,
    pub last_seen: u64,
}

/// Mathematical view of a record.
pub ghost struct RecordView {
    pub path: Seq<u8>,
    pub counts: MethodCounts,
    pub last_seen: u64,
}

impl View for Record {
    type V = RecordView;

    open spec fn view(&self) -> RecordView {
        RecordView { path: self.path@, counts: self.counts, last_seen: self.last_seen }
    }
}

impl DeepView for Record {
    type V = RecordView;

    open spec fn deep_view(&self) -> RecordView {
        self@
    }
}

/// Copies a record.
pub fn copy_record(r: &Record) -> (c: Record)
    ensures
        c@ == r@,
{
    Record { path: copy_bytes(&r.path), counts: r.counts, last_seen: r.last_seen }
}

/// The index of the record aggregating `path`, if one exists.
pub open spec fn path_index(rs: Seq<RecordView>, path: Seq<u8>) -> Option<int>
    decreases rs.len(),
{
    if rs.len() == 0 {
        None
    } else if rs[0].path == path {
        Some(0)
    } else {
        match path_index(rs.drop_first(), path) {
            Some(i) => Some(i + 1),
            None => None,
        }
    }
}

proof fn lemma_path_index_skip(rs: Seq<RecordView>, path: Seq<u8>, i: int)
    requires
        0 <= i <= rs.len(),
        forall|k: int| 0 <= k < i ==> rs[k].path != path,
    ensures
        match path_index(rs, path) {
            Some(j) => i <= j < rs.len() && path_index(rs.skip(i), path) == Some(j - i),
            None => path_index(rs.skip(i), path) is None,
        },
    decreases rs.len(),
{
    if rs.len() > 0 {
        if i == 0 {
            assert(rs.skip(0) =~= rs);
            lemma_path_index_bounds(rs, path);
        } else {
            lemma_path_index_skip(rs.drop_first(), path, i - 1);
            assert(rs.drop_first().skip(i - 1) =~= rs.skip(i));
        }
    } else {
        assert(rs.skip(i) =~= rs);
    }
}

proof fn lemma_path_index_bounds(rs: Seq<RecordView>, path: Seq<u8>)
    ensures
        match path_index(rs, path) {
            Some(j) => 0 <= j < rs.len() && rs[j].path == path,
            None => forall|k: int| 0 <= k < rs.len() ==> rs[k].path != path,
        },
    decreases rs.len(),
{
    if rs.len() > 0 {
        lemma_path_index_bounds(rs.drop_first(), path);
        if rs[0].path != path {
            match path_index(rs.drop_first(), path) {
                Some(j) => {
                    assert(rs.drop_first()[j].path == path);
                    assert(rs[j + 1].path == path);
                },
                None => {
                    assert forall|k: int| 0 <= k < rs.len() implies rs[k].path != path by {
                        if k > 0 {
                            assert(rs.drop_first()[k - 1].path != path);
                        }
                    }
                },
            }
        }
    }
}

/// The aggregation after one event: the record for the event's path is
/// bumped and stamped, or a fresh record is appended when the path is
/// new.
pub open spec fn apply_spec(rs: Seq<RecordView>, ev: StatsEventView) -> Seq<RecordView> {
    match path_index(rs, ev.path) {
        Some(i) => rs.update(
            i,
            RecordView {
                path: rs[i].path,
                counts: counts_bumped(rs[i].counts, method_kind(ev.method)),
                last_seen: ev.at,
            },
        ),
        None => rs.push(
            RecordView {
                path: ev.path,
                counts: counts_bumped(zero_counts(), method_kind(ev.method)),
                last_seen: ev.at,
            },
        ),
    }
}

/// The per-path aggregator the dashboard reads from.
pub struct Aggregator {
    records: Vec<Record>,
}

impl View for Aggregator {
    type V = Seq<RecordView>;

    closed spec fn view(&self) -> Seq<RecordView> {
        self.records.deep_view()
    }
}

impl Aggregator {
    /// Each path is aggregated by exactly one record.
    pub open spec fn wf(self) -> bool {
        forall|i: int, j: int|
            0 <= i < j < self@.len() ==> #[trigger] self@[i].path != #[trigger] self@[j].path
    }

    /// A fresh, empty aggregator.
    pub fn new() -> (a: Aggregator)
        ensures
            a.wf(),
            a@ == Seq::<RecordView>::empty(),
    {
        let a = Aggregator { records: Vec::new() };
        assert(a@ =~= Seq::<RecordView>::empty());
        a
    }

    /// Folds one event into the aggregation.
    #[verifier::loop_isolation(false)]
    pub fn apply(&mut self, ev: StatsEvent)
        requires
            old(self).wf(),
        ensures
            final(self).wf(),
            final(self)@ == apply_spec(old(self)@, ev@),
    {
        let ghost rs = self@;
        let kind = classify_method(ev.method.as_slice());
        let n = self.records.len();
        let mut i: usize = 0;
        while i < n
            invariant
                0 <= i <= n,
                n == self.records.len(),
                *self == *old(self),
                forall|k: int| 0 <= k < i ==> rs[k].path != ev.path@,
            decreases n - i,
        {
            if bytes_eq(self.records[i].path.as_slice(), ev.path.as_slice()) {
                proof {
                    lemma_path_index_skip(rs, ev.path@, i as int);
                    assert(rs.skip(i as int)[0] == rs[i as int]);
                    assert(path_index(rs, ev.path@) == Some(i as int));
                }
                let updated = Record {
                    path: copy_bytes(&self.records[i].path),
                    counts: bump_counts(self.records[i].counts, kind),
                    last_seen: ev.at,
                };
                let ghost before = self.records.deep_view();
                self.records.set(i, updated);
                proof {
                    assert(self.records.deep_view() =~= before.update(i as int, updated@));
                    assert(self@ == apply_spec(rs, ev@));
                    assert forall|p: int, q: int| 0 <= p < q < self@.len() implies #[trigger] self@[p].path != #[trigger] self@[q].path by {
                        assert(rs[p].path != rs[q].path);
                    }
                }
                return ;
            }
            i += 1;
        }
        proof {
            lemma_path_index_skip(rs, ev.path@, n as int);
            assert(path_index(rs, ev.path@) is None);
        }
        let fresh = Record {
            path: copy_bytes(&ev.path),
            counts: bump_counts(MethodCounts::default(), kind),
            last_seen: ev.at,
        };
        let ghost before = self.records.deep_view();
        self.records.push(fresh);
        proof {
            assert(self.records.deep_view() =~= before.push(fresh@));
            assert(self@ == apply_spec(rs, ev@));
            lemma_path_index_bounds(rs, ev.path@);
            assert forall|p: int, q: int| 0 <= p < q < self@.len() implies #[trigger] self@[p].path != #[trigger] self@[q].path by {
                if q < self@.len() - 1 {
                    assert(rs[p].path != rs[q].path);
                } else {
                    assert(rs[p].path != ev.path@);
                }
            }
        }
    }

    /// The records sorted by last-seen time, most recent first: what
    /// the dashboard renders.
    #[verifier::loop_isolation(false)]
    pub fn snapshot(&self) -> (out: Vec<Record>)
        ensures
            out.deep_view().to_multiset() == self@.to_multiset(),
            sorted_by(out.deep_view(), more_recent_first()),
    {
        let ghost leq = more_recent_first();
        broadcast use vstd::seq_lib::group_to_multiset_ensures;

        let n = self.records.len();
        let mut out: Vec<Record> = Vec::new();
        let mut k: usize = 0;
        assert(out.deep_view() =~= Seq::<RecordView>::empty());
        assert(self@.take(0) =~= Seq::<RecordView>::empty());
        while k < n
            invariant
                0 <= k <= n,
                n == self.records.len(),
                sorted_by(out.deep_view(), leq),
                out.deep_view().to_multiset() == self@.take(k as int).to_multiset(),
                out.len() == k,
            decreases n - k,
        {
            let x = copy_record(&self.records[k]);
            assert(x@ == self@[k as int]);
            let mut j: usize = out.len();
            while j > 0 && out[j - 1].last_seen < x.last_seen
                invariant
                    0 <= j <= out.len(),
                    forall|m: int|
                        j <= m < out.len() ==> (#[trigger] out.deep_view()[m]).last_seen
                            < x@.last_seen,
                decreases j,
            {
                j -= 1;
            }
            let ghost before = out.deep_view();
            out.insert(j, x);
            proof {
                assert(out.deep_view() =~= before.insert(j as int, x@));
                lemma_record_multiset_insert(before, j as int, x@);
                assert(self@.take(k + 1) =~= self@.take(k as int).push(self@[k as int]));
                assert(self@.take(k as int).push(self@[k as int]).to_multiset() =~= self@.take(
                    k as int,
                ).to_multiset().insert(self@[k as int]));
                let now = out.deep_view();
                let ji = j as int;
                assert forall|p: int, q: int| 0 <= p < q < now.len() implies leq(
                    now[p],
                    now[q],
                ) by {
                    if q < ji {
                        assert(leq(before[p], before[q]));
                    } else if p > ji {
                        assert(leq(before[p - 1], before[q - 1]));
                    } else if p < ji && q == ji {
                        assert(now[q] == x@ && now[p] == before[p]);
                        assert(before[ji - 1].last_seen >= x@.last_seen);
                        if p < ji - 1 {
                            assert(leq(before[p], before[ji - 1]));
                        }
                    } else if p == ji && q > ji {
                        assert(now[p] == x@ && now[q] == before[q - 1]);
                        assert(before[q - 1].last_seen < x@.last_seen);
                    } else {
                        assert(p < ji && q > ji);
                        assert(now[p] == before[p] && now[q] == before[q - 1]);
                        assert(before[ji - 1].last_seen >= x@.last_seen);
                        if p < ji - 1 {
                            assert(leq(before[p], before[ji - 1]));
                        }
                        assert(before[q - 1].last_seen < x@.last_seen);
                    }
                }
            }
            k += 1;
        }
        assert(self@.take(n as int) =~= self@);
        out
    }
}

impl Default for Aggregator {
    /// The aggregator starts empty.
    fn default() -> (a: Aggregator)
        ensures
            a.wf(),
            a@ == Seq::<RecordView>::empty(),
    {
        Aggregator::new()
    }
}

/// Applies one event's bump to the counters.
fn bump_counts(c: MethodCounts, k: MethodKind) -> (r: MethodCounts)
    ensures
        r == counts_bumped(c, k),
{
    match k {
        MethodKind::Get => MethodCounts { get: bump_exec(c.get), ..c },
        MethodKind::Post => MethodCounts { post: bump_exec(c.post), ..c },
        MethodKind::Put => MethodCounts { put: bump_exec(c.put), ..c },
        MethodKind::Patch => MethodCounts { patch: bump_exec(c.patch), ..c },
        MethodKind::Delete => MethodCounts { delete_: bump_exec(c.delete_), ..c },
        MethodKind::Other => MethodCounts { other: bump_exec(c.other), ..c },
    }
}

/// Inserting an element keeps the multiset, plus the element.
proof fn lemma_record_multiset_insert(s: Seq<RecordView>, j: int, x: RecordView)
    requires
        0 <= j <= s.len(),
    ensures
        s.insert(j, x).to_multiset() == s.to_multiset().insert(x),
{
    broadcast use vstd::seq_lib::group_to_multiset_ensures;
    broadcast use vstd::multiset::group_multiset_axioms;

    assert(s.insert(j, x) =~= s.take(j).push(x) + s.skip(j));
    assert(s =~= s.take(j) + s.skip(j));
    vstd::seq_lib::lemma_multiset_commutative(s.take(j).push(x), s.skip(j));
    vstd::seq_lib::lemma_multiset_commutative(s.take(j), s.skip(j));
    assert(s.take(j).push(x).to_multiset() =~= s.take(j).to_multiset().insert(x));
    assert(s.insert(j, x).to_multiset() =~= s.to_multiset().insert(x));
}

} // verus!
