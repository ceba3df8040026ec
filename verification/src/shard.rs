//! A single cache shard: the bookkeeping half of one partition of the local
//! disk cache.  The shard tracks which filenames it holds, in
//! least-recently-used order (most recent at the tail), and a unit-size
//! capacity count.  Disk effects are returned to the caller as values: an
//! eviction hands back the filenames whose files and location records must
//! now be dropped, and a fill hands back the local path the caller writes
//! and serves.

use std::collections::VecDeque;
use vstd::prelude::*;

verus! {

/// True when no filename occurs twice.
pub open spec fn no_dups(order: Seq<Seq<char>>) -> bool {
    forall|i: int, j: int| 0 <= i < j < order.len() ==> order[i] != order[j]
}

/// `order` with every occurrence of `f` removed, order of the rest kept.
pub open spec fn remove_all(order: Seq<Seq<char>>, f: Seq<char>) -> Seq<Seq<char>>
    decreases order.len(),
{
    if order.len() == 0 {
        Seq::empty()
    } else if order.last() == f {
        remove_all(order.drop_last(), f)
    } else {
        remove_all(order.drop_last(), f).push(order.last())
    }
}

/// Re-rank `f` as most recently used: drop any occurrence, append at the tail.
pub open spec fn touch(order: Seq<Seq<char>>, f: Seq<char>) -> Seq<Seq<char>> {
    remove_all(order, f).push(f)
}

/// The views of a vector of filenames.
pub open spec fn seq_views(v: Seq<String>) -> Seq<Seq<char>> {
    v.map_values(|s: String| s@)
}

/// The local path a cached filename is served from.
pub open spec fn local_path_spec(dir: Seq<char>, name: Seq<char>) -> Seq<char> {
    dir + seq!['/'] + name
}

/// Mathematical state of one shard.
pub struct ShardView {
    pub cache_dir: Seq<char>,
    pub max_size: u64,
    pub current_size: u64,
    pub s3_endpoint: Seq<char>,
    pub order: Seq<Seq<char>>,
}

impl ShardView {
    /// Well-formed shard bookkeeping: the unit-size count agrees with the
    /// tracked files and no file is tracked twice.
    pub open spec fn wf(self) -> bool {
        &&& self.current_size == self.order.len()
        &&& no_dups(self.order)
    }
}

/// One eviction pass: pop least-recently-used entries while the shard is at
/// or over capacity and still tracks a file.  The size count never goes
/// below zero, so a drifted state cannot underflow.
pub open spec fn evict_state(v: ShardView) -> ShardView
    decreases v.order.len(),
{
    if v.current_size >= v.max_size && v.order.len() > 0 {
        evict_state(
            ShardView {
                cache_dir: v.cache_dir,
                max_size: v.max_size,
                current_size: if v.current_size > 0 { (v.current_size - 1) as u64 } else { 0u64 },
                s3_endpoint: v.s3_endpoint,
                order: v.order.skip(1),
            },
        )
    } else {
        v
    }
}

/// How many entries an eviction pass drops.
pub open spec fn evict_count(v: ShardView) -> int {
    v.order.len() - evict_state(v).order.len()
}

/// Admitting a freshly fetched file: evict to capacity, count one more unit,
/// and rank the new file most recently used.
pub open spec fn fill_spec(v: ShardView, f: Seq<char>) -> ShardView {
    let e = evict_state(v);
    ShardView {
        cache_dir: e.cache_dir,
        max_size: e.max_size,
        current_size: (e.current_size + 1) as u64,
        s3_endpoint: e.s3_endpoint,
        order: touch(e.order, f),
    }
}

/// What a location lookup resolved to: a local hit, to be served from the
/// returned path, or a miss, which sends the caller to blob storage.
#[derive(Debug)]
pub enum LookupStep {
    Hit(String),
    Miss,
}

/// What blob storage answered, classified from the transport status.
#[derive(Clone, Copy, Debug, PartialEq, Eq, Structural)]
pub enum BlobOutcome {
    Fetched,
    NotFound,
    Failure,
}

/// Why a shard could not produce a file.
#[derive(Clone, Copy, Debug, PartialEq, Eq, Structural)]
pub enum FetchError {
    NotFound,
    UpstreamError,
}

/// Classify a blob-storage transport status: 404 is a definite "not found",
/// any other non-success status is an upstream failure, a success status
/// means the body holds the file.
pub fn classify_status(status: u16) -> (r: BlobOutcome)
    ensures
        status == 404 ==> r is NotFound,
        status != 404 && !(200 <= status < 300) ==> r is Failure,
        200 <= status < 300 ==> r is Fetched,
{
    if status == 404 {
        BlobOutcome::NotFound
    } else if 200 <= status && status < 300 {
        BlobOutcome::Fetched
    } else {
        BlobOutcome::Failure
    }
}

/// One partition of the local disk cache.
pub struct DiskCache {
    cache_dir: String,
    max_size: u64,
    current_size: u64,
    s3_endpoint: String,
    access_order: VecDeque<String>,
}

impl View for DiskCache {
    type V = ShardView;

    closed spec fn view(&self) -> ShardView {
        ShardView {
            cache_dir: self.cache_dir@,
            max_size: self.max_size,
            current_size: self.current_size,
            s3_endpoint: self.s3_endpoint@,
            order: self.access_order@.map_values(|s: String| s@),
        }
    }
}

impl DiskCache {
    /// A fresh shard starts empty; files found on disk from an earlier run
    /// are rediscovered through the metadata store, not rescanned.
    pub fn new(cache_dir: String, max_size: u64, s3_endpoint: String) -> (s: Self)
        ensures
            s@.cache_dir == cache_dir@,
            s@.max_size == max_size,
            s@.current_size == 0,
            s@.s3_endpoint == s3_endpoint@,
            s@.order == Seq::<Seq<char>>::empty(),
            s@.wf(),
    {
        let s = DiskCache {
            cache_dir,
            max_size,
            current_size: 0,
            s3_endpoint,
            access_order: VecDeque::new(),
        };
        proof {
            assert(s@.order =~= Seq::<Seq<char>>::empty());
        }
        s
    }

    /// Unit-size count of cached files.
    pub fn size(&self) -> (r: u64)
        ensures
            r == self@.current_size,
    {
        self.current_size
    }

    /// Capacity bound of this shard, in file units.
    pub fn capacity(&self) -> (r: u64)
        ensures
            r == self@.max_size,
    {
        self.max_size
    }

    /// Number of tracked files.
    pub fn file_count(&self) -> (r: usize)
        ensures
            r == self@.order.len(),
    {
        self.access_order.len()
    }

    /// The tracked filenames, least recently used first.
    pub fn files(&self) -> (r: Vec<String>)
        ensures
            seq_views(r@) == self@.order,
    {
        let mut r: Vec<String> = Vec::new();
        let n = self.access_order.len();
        let mut i: usize = 0;
        while i < n
            invariant
                i <= n,
                n == self.access_order@.len(),
                r@.len() == i,
                seq_views(r@) =~= self@.order.take(i as int),
            decreases n - i,
        {
            let s = self.access_order[i].clone();
            proof {
                assert(s@ == self@.order[i as int]);
            }
            r.push(s);
            proof {
                assert forall|j: int| 0 <= j < i + 1 implies seq_views(r@)[j] == self@.order.take(
                    i + 1,
                )[j] by {
                    assert(seq_views(r@)[j] == r@[j]@);
                }
                assert(seq_views(r@) =~= self@.order.take(i + 1));
            }
            i = i + 1;
        }
        proof {
            assert(self@.order.take(n as int) =~= self@.order);
        }
        r
    }

    /// Move `file_name` to the most-recently-used end of the access order,
    /// dropping any earlier occurrence first so nothing is tracked twice.
    pub fn update_access(&mut self, file_name: &String)
        ensures
            final(self)@.order == touch(old(self)@.order, file_name@),
            final(self)@.current_size == old(self)@.current_size,
            final(self)@.max_size == old(self)@.max_size,
            final(self)@.cache_dir == old(self)@.cache_dir,
            final(self)@.s3_endpoint == old(self)@.s3_endpoint,
    {
        let ghost orig = self@.order;
        let n = self.access_order.len();
        let mut kept: VecDeque<String> = VecDeque::new();
        let mut i: usize = 0;
        proof {
            assert(kept@.map_values(|s: String| s@) =~= remove_all(orig.take(0), file_name@));
        }
        while i < n
            invariant
                i <= n,
                n == orig.len(),
                self.access_order@.len() == n,
                self.access_order@.map_values(|s: String| s@) == orig,
                kept@.map_values(|s: String| s@) == remove_all(orig.take(i as int), file_name@),
            decreases n - i,
        {
            let s = self.access_order[i].clone();
            proof {
                assert(s@ == orig[i as int]);
                assert(orig.take(i + 1).drop_last() =~= orig.take(i as int));
                assert(orig.take(i + 1).last() == orig[i as int]);
            }
            if !s.eq(file_name) {
                kept.push_back(s);
                proof {
                    assert(kept@.map_values(|s: String| s@) =~= remove_all(
                        orig.take(i as int),
                        file_name@,
                    ).push(orig[i as int]));
                }
            }
            i = i + 1;
        }
        proof {
            assert(orig.take(n as int) =~= orig);
        }
        kept.push_back(file_name.clone());
        self.access_order = kept;
        proof {
            assert(final(self)@.order =~= touch(orig, file_name@));
        }
    }

    /// Evict least-recently-used entries until the shard is under capacity
    /// or nothing is left to evict.  The returned filenames are no longer
    /// tracked; the caller deletes their files and, best effort, their
    /// location records.
    pub fn ensure_capacity(&mut self) -> (evicted: Vec<String>)
        ensures
            final(self)@ == evict_state(old(self)@),
            seq_views(evicted@) == old(self)@.order.take(evict_count(old(self)@)),
            old(self)@.wf() ==> final(self)@.current_size <= final(self)@.max_size,
            old(self)@.wf() ==> final(self)@.wf(),
    {
        let mut evicted: Vec<String> = Vec::new();
        proof {
            assert(seq_views(evicted@) =~= Seq::<Seq<char>>::empty());
            assert(seq_views(evicted@) + self@.order =~= self@.order);
        }
        while self.current_size >= self.max_size && self.access_order.len() > 0
            invariant
                evict_state(self@) == evict_state(old(self)@),
                seq_views(evicted@) + self@.order == old(self)@.order,
            decreases self.access_order@.len(),
        {
            let ghost pre = self@;
            let f = self.access_order.pop_front().unwrap();
            if self.current_size > 0 {
                self.current_size = self.current_size - 1;
            }
            proof {
                assert(self@.order =~= pre.order.skip(1));
                assert(self@ == evict_step_target(pre));
                assert(evict_state(pre) == evict_state(self@));
            }
            evicted.push(f);
            proof {
                assert(f@ == pre.order[0]);
                assert(seq_views(evicted@) + self@.order =~= old(self)@.order);
            }
        }
        proof {
            assert(evict_state(self@) == self@);
            let k = evict_count(old(self)@);
            assert(seq_views(evicted@).len() == k);
            assert(seq_views(evicted@) =~= old(self)@.order.take(k));
            if old(self)@.wf() {
                lemma_capacity_invariant(old(self)@);
                lemma_eviction_wf(old(self)@);
            }
        }
        evicted
    }

    /// The least-recently-used filename, when the shard is at or over
    /// capacity and still tracks a file: the next victim an eviction loop
    /// must attempt to delete.  `None` means the loop is done.
    pub fn evict_candidate(&self) -> (r: Option<String>)
        ensures
            r matches Some(f) ==> f@ == self@.order[0] && self@.current_size >= self@.max_size
                && self@.order.len() > 0,
            r is None <==> (self@.current_size < self@.max_size || self@.order.len() == 0),
    {
        if self.current_size >= self.max_size && self.access_order.len() > 0 {
            let f = self.access_order[0].clone();
            proof {
                assert(f@ == self@.order[0]);
            }
            Some(f)
        } else {
            None
        }
    }

    /// Commit one eviction after the caller attempted the deletion.  The
    /// victim leaves tracking either way — it is never re-enqueued — but
    /// the size count is freed only when the file really was deleted, the
    /// deliberate fail-open accounting of the eviction loop.
    pub fn evict_commit(&mut self, deleted: bool)
        requires
            old(self)@.current_size >= old(self)@.max_size,
            old(self)@.order.len() > 0,
        ensures
            final(self)@.order == old(self)@.order.skip(1),
            final(self)@.current_size == if deleted && old(self)@.current_size > 0 {
                (old(self)@.current_size - 1) as u64
            } else {
                old(self)@.current_size
            },
            final(self)@.max_size == old(self)@.max_size,
            final(self)@.cache_dir == old(self)@.cache_dir,
            final(self)@.s3_endpoint == old(self)@.s3_endpoint,
    {
        let ghost pre = self@;
        let _ = self.access_order.pop_front();
        if deleted && self.current_size > 0 {
            self.current_size = self.current_size - 1;
        }
        proof {
            assert(final(self)@.order =~= pre.order.skip(1));
        }
    }

    /// The path under the shard's cache directory that `name` is served from.
    pub fn local_path(&self, name: &String) -> (r: String)
        ensures
            r@ == local_path_spec(self@.cache_dir, name@),
    {
        proof {
            reveal_strlit("/");
            assert("/"@ =~= seq!['/']);
        }
        let r = self.cache_dir.clone().concat("/").concat(name.as_str());
        proof {
            assert(r@ =~= local_path_spec(self@.cache_dir, name@));
        }
        r
    }

    /// Act on a metadata-store location lookup.  A present record is a hit:
    /// the file is re-ranked most recently used and served from its local
    /// path, with no blob-storage request.  An absent record is a miss and
    /// leaves the shard untouched; the caller asks blob storage and reports
    /// back through `on_blob_result`.
    pub fn on_location(&mut self, loc: &Option<String>) -> (r: LookupStep)
        ensures
            loc matches Some(f) ==> {
                &&& r matches LookupStep::Hit(p) && p@ == local_path_spec(
                    old(self)@.cache_dir,
                    f@,
                )
                &&& final(self)@.order == touch(old(self)@.order, f@)
                &&& final(self)@.current_size == old(self)@.current_size
                &&& final(self)@.max_size == old(self)@.max_size
                &&& final(self)@.cache_dir == old(self)@.cache_dir
                &&& final(self)@.s3_endpoint == old(self)@.s3_endpoint
            },
            loc is None ==> (r is Miss && final(self)@ == old(self)@),
    {
        match loc {
            Some(f) => {
                self.update_access(f);
                let p = self.local_path(f);
                LookupStep::Hit(p)
            },
            None => LookupStep::Miss,
        }
    }

    /// Act on the blob-storage answer for a missed uid.  A fetched file is
    /// admitted: capacity is enforced first, then the file is counted,
    /// tracked as most recently used, and served from its local path.  The
    /// returned filenames were evicted to make room; the caller writes the
    /// fetched bytes to the returned path, deletes the evicted files, and
    /// records the new location best effort.  "Not found" and upstream
    /// failures change nothing and are passed to the client as errors.
    pub fn on_blob_result(&mut self, uid: &String, outcome: BlobOutcome) -> (r: Result<
        (String, Vec<String>),
        FetchError,
    >)
        requires
            old(self)@.current_size < u64::MAX,
        ensures
            outcome is Fetched ==> {
                &&& r matches Ok((p, ev)) && p@ == local_path_spec(old(self)@.cache_dir, uid@)
                    && seq_views(ev@) == old(self)@.order.take(evict_count(old(self)@))
                &&& final(self)@ == fill_spec(old(self)@, uid@)
            },
            outcome is NotFound ==> (r matches Err(e) && e is NotFound && final(self)@ == old(
                self,
            )@),
            outcome is Failure ==> (r matches Err(e) && e is UpstreamError && final(self)@ == old(
                self,
            )@),
    {
        match outcome {
            BlobOutcome::Fetched => {
                let ghost v0 = self@;
                let evs = self.ensure_capacity();
                proof {
                    lemma_evict_state_size(v0);
                }
                self.current_size = self.current_size + 1;
                self.access_order.push_back(uid.clone());
                let ghost pushed = self@;
                self.update_access(uid);
                let p = self.local_path(uid);
                proof {
                    let e = evict_state(v0);
                    assert(pushed.order =~= e.order.push(uid@));
                    assert(e.order.push(uid@).drop_last() =~= e.order);
                    assert(remove_all(e.order.push(uid@), uid@) == remove_all(e.order, uid@));
                    assert(final(self)@ == fill_spec(v0, uid@));
                }
                Ok((p, evs))
            },
            BlobOutcome::NotFound => Err(FetchError::NotFound),
            BlobOutcome::Failure => Err(FetchError::UpstreamError),
        }
    }

    /// Drop every tracked file, returning the filenames so the caller can
    /// delete the files and their location records.
    pub fn drain(&mut self) -> (drained: Vec<String>)
        ensures
            seq_views(drained@) == old(self)@.order,
            final(self)@.order == Seq::<Seq<char>>::empty(),
            final(self)@.current_size == 0,
            final(self)@.max_size == old(self)@.max_size,
            final(self)@.cache_dir == old(self)@.cache_dir,
            final(self)@.s3_endpoint == old(self)@.s3_endpoint,
            final(self)@.wf(),
    {
        let drained = self.files();
        self.access_order.clear();
        self.current_size = 0;
        proof {
            assert(final(self)@.order =~= Seq::<Seq<char>>::empty());
        }
        drained
    }
}

/// The state one eviction step leaves behind.
pub open spec fn evict_step_target(v: ShardView) -> ShardView {
    ShardView {
        cache_dir: v.cache_dir,
        max_size: v.max_size,
        current_size: if v.current_size > 0 { (v.current_size - 1) as u64 } else { 0u64 },
        s3_endpoint: v.s3_endpoint,
        order: v.order.skip(1),
    }
}

/// An eviction pass never grows the size count.
pub proof fn lemma_evict_state_size(v: ShardView)
    ensures
        evict_state(v).current_size <= v.current_size,
        evict_state(v).max_size == v.max_size,
        evict_state(v).cache_dir == v.cache_dir,
        evict_state(v).s3_endpoint == v.s3_endpoint,
    decreases v.order.len(),
{
    if v.current_size >= v.max_size && v.order.len() > 0 {
        lemma_evict_state_size(evict_step_target(v));
    }
}

/// Capacity invariant: from consistent bookkeeping, an eviction pass always
/// ends at or under the capacity bound.
pub proof fn lemma_capacity_invariant(v: ShardView)
    requires
        v.current_size == v.order.len(),
    ensures
        evict_state(v).current_size <= v.max_size,
    decreases v.order.len(),
{
    if v.current_size >= v.max_size && v.order.len() > 0 {
        lemma_capacity_invariant(evict_step_target(v));
    }
}

/// An eviction pass drops a prefix: what remains is a suffix of the old
/// order, and well-formedness is preserved.
pub proof fn lemma_eviction_wf(v: ShardView)
    requires
        v.wf(),
    ensures
        evict_state(v).wf(),
        evict_state(v).order == v.order.skip(evict_count(v)),
    decreases v.order.len(),
{
    lemma_evict_order_suffix(v);
    if v.current_size >= v.max_size && v.order.len() > 0 {
        let w = evict_step_target(v);
        assert(no_dups(w.order)) by {
            assert(forall|i: int, j: int|
                0 <= i < j < w.order.len() ==> w.order[i] == v.order[i + 1] && w.order[j]
                    == v.order[j + 1]);
        }
        lemma_eviction_wf(w);
    }
}

/// Whatever `remove_all` keeps was already there, `f` itself is gone, and
/// no duplicate is introduced.
pub proof fn lemma_remove_all_props(order: Seq<Seq<char>>, f: Seq<char>)
    ensures
        !remove_all(order, f).contains(f),
        forall|x: Seq<char>| #[trigger] remove_all(order, f).contains(x) ==> order.contains(x),
        remove_all(order, f).len() <= order.len(),
        no_dups(order) ==> no_dups(remove_all(order, f)),
    decreases order.len(),
{
    if order.len() == 0 {
    } else {
        let rest = order.drop_last();
        lemma_remove_all_props(rest, f);
        assert(forall|x: Seq<char>| #[trigger] rest.contains(x) ==> order.contains(x));
        if order.last() != f {
            let r = remove_all(rest, f).push(order.last());
            assert(order.contains(order.last()));
            assert(forall|x: Seq<char>| #[trigger] r.contains(x) ==> remove_all(rest, f).contains(
                x,
            ) || x == order.last());
            if no_dups(order) {
                assert(no_dups(rest)) by {
                    assert(forall|i: int, j: int|
                        0 <= i < j < rest.len() ==> rest[i] == order[i] && rest[j] == order[j]);
                }
                assert(!rest.contains(order.last())) by {
                    if rest.contains(order.last()) {
                        let i = choose|i: int|
                            0 <= i < rest.len() && rest[i] == order.last();
                        assert(order[i] == order[order.len() - 1]);
                    }
                }
                assert(no_dups(r)) by {
                    let q = remove_all(rest, f);
                    assert(forall|i: int| 0 <= i < q.len() ==> #[trigger] r[i] == q[i]);
                    assert(forall|i: int|
                        0 <= i < q.len() ==> q.contains(q[i]) && rest.contains(q[i]));
                    assert(forall|i: int, j: int|
                        0 <= i < j < r.len() && j < q.len() ==> r[i] != r[j]);
                    assert(forall|i: int|
                        0 <= i < q.len() ==> #[trigger] r[i] != r[q.len() as int]);
                }
            }
        } else {
            if no_dups(order) {
                assert(no_dups(rest)) by {
                    assert(forall|i: int, j: int|
                        0 <= i < j < rest.len() ==> rest[i] == order[i] && rest[j] == order[j]);
                }
            }
        }
    }
}

/// Re-ranking keeps tracking duplicate-free, and the re-ranked filename is
/// tracked exactly once, at the most-recently-used end.
pub proof fn lemma_touch_no_dup(order: Seq<Seq<char>>, f: Seq<char>)
    ensures
        no_dups(order) ==> no_dups(touch(order, f)),
        touch(order, f).last() == f,
        forall|i: int| 0 <= i < touch(order, f).len() - 1 ==> touch(order, f)[i] != f,
{
    lemma_remove_all_props(order, f);
    let q = remove_all(order, f);
    assert(forall|i: int| 0 <= i < q.len() ==> #[trigger] touch(order, f)[i] == q[i]);
    assert(forall|i: int| 0 <= i < q.len() ==> q.contains(q[i]));
    if no_dups(order) {
        assert(no_dups(touch(order, f))) by {
            assert(forall|i: int, j: int|
                0 <= i < j < q.len() ==> touch(order, f)[i] != touch(order, f)[j]);
            assert(forall|i: int| 0 <= i < q.len() ==> touch(order, f)[i] != f);
        }
    }
}

/// Removing a filename that is not tracked changes nothing.
pub proof fn lemma_remove_all_absent(order: Seq<Seq<char>>, f: Seq<char>)
    requires
        !order.contains(f),
    ensures
        remove_all(order, f) == order,
    decreases order.len(),
{
    if order.len() > 0 {
        let rest = order.drop_last();
        assert(!rest.contains(f)) by {
            if rest.contains(f) {
                let i = choose|i: int| 0 <= i < rest.len() && rest[i] == f;
                assert(order[i] == f);
            }
        }
        assert(order.contains(order.last()));
        lemma_remove_all_absent(rest, f);
        assert(remove_all(order, f) =~= order);
    } else {
        assert(remove_all(order, f) =~= order);
    }
}

/// With duplicate-free tracking, removing the least-recently-used filename
/// drops exactly the head of the order.
pub proof fn lemma_remove_all_head(order: Seq<Seq<char>>, f: Seq<char>)
    requires
        no_dups(order),
        order.len() > 0,
        f == order[0],
    ensures
        remove_all(order, f) == order.skip(1),
    decreases order.len(),
{
    if order.len() == 1 {
        assert(order.drop_last().len() == 0);
        assert(remove_all(order.drop_last(), f) =~= Seq::<Seq<char>>::empty());
        assert(remove_all(order, f) =~= order.skip(1));
    } else {
        let rest = order.drop_last();
        assert(no_dups(rest)) by {
            assert(forall|i: int, j: int|
                0 <= i < j < rest.len() ==> rest[i] == order[i] && rest[j] == order[j]);
        }
        assert(order.last() != f);
        assert(forall|j: int| 0 <= j < rest.len() ==> #[trigger] rest[j] == order[j]);
        assert(rest[0] == f);
        lemma_remove_all_head(rest, f);
        assert(remove_all(order, f) == remove_all(rest, f).push(order.last()));
        assert(rest.skip(1).push(order.last()) =~= order.skip(1));
    }
}

/// LRU law, first half: a shard at capacity that admits a fresh uid evicts
/// exactly the least-recently-used file; the rest slide down and the new
/// uid becomes most recently used.
pub proof fn lemma_lru_evicts_oldest(v: ShardView, f: Seq<char>)
    requires
        v.wf(),
        v.max_size >= 1,
        v.current_size == v.max_size,
        !v.order.contains(f),
    ensures
        evict_count(v) == 1,
        evict_state(v).order == v.order.skip(1),
        fill_spec(v, f).order == v.order.skip(1).push(f),
{
    let w = evict_step_target(v);
    assert(evict_state(v) == evict_state(w));
    assert(evict_state(w) == w);
    assert(w.order =~= v.order.skip(1));
    assert(!w.order.contains(f)) by {
        if w.order.contains(f) {
            let i = choose|i: int| 0 <= i < w.order.len() && w.order[i] == f;
            assert(v.order[i + 1] == f);
            assert(v.order.contains(f));
        }
    }
    lemma_remove_all_absent(w.order, f);
}

/// LRU law, second half: re-accessing the least-recently-used file of a
/// full shard saves it; the admission of a fresh uid then evicts the next
/// oldest file instead, and the re-accessed file stays tracked.
pub proof fn lemma_lru_reaccess_saves(v: ShardView, f: Seq<char>)
    requires
        v.wf(),
        v.max_size >= 2,
        v.current_size == v.max_size,
        !v.order.contains(f),
    ensures
        touch(v.order, v.order[0]) == v.order.skip(1).push(v.order[0]),
        evict_state(touched_view(v)).order == touched_view(v).order.skip(1),
        touched_view(v).order[0] == v.order[1],
        fill_spec(touched_view(v), f).order.contains(v.order[0]),
{
    lemma_remove_all_head(v.order, v.order[0]);
    let t = touched_view(v);
    assert(t.order == v.order.skip(1).push(v.order[0]));
    assert(t.order.len() == v.order.len());
    let w = evict_step_target(t);
    assert(evict_state(t) == evict_state(w));
    assert(evict_state(w) == w);
    assert(w.order == t.order.skip(1));
    assert(t.order[0] == v.order.skip(1)[0]);
    assert(v.order.skip(1)[0] == v.order[1]);
    assert(!w.order.contains(f)) by {
        if w.order.contains(f) {
            let i = choose|i: int| 0 <= i < w.order.len() && w.order[i] == f;
            assert(w.order[i] == t.order[i + 1]);
            if i + 1 < t.order.len() - 1 {
                assert(t.order[i + 1] == v.order.skip(1)[i + 1]);
                assert(v.order.skip(1)[i + 1] == v.order[i + 2]);
                assert(v.order.contains(f));
            } else {
                assert(t.order[i + 1] == v.order[0]);
                assert(v.order.contains(v.order[0]));
            }
        }
    }
    lemma_remove_all_absent(w.order, f);
    assert(fill_spec(t, f).order == w.order.push(f));
    assert(w.order[w.order.len() - 1] == t.order[t.order.len() - 1]);
    assert(t.order[t.order.len() - 1] == v.order[0]);
    assert(w.order.contains(v.order[0]));
    assert(fill_spec(t, f).order.contains(v.order[0])) by {
        let i = choose|i: int| 0 <= i < w.order.len() && w.order[i] == v.order[0];
        assert(fill_spec(t, f).order[i] == v.order[0]);
    }
}

/// The shard state after re-accessing its least-recently-used file.
pub open spec fn touched_view(v: ShardView) -> ShardView {
    ShardView {
        cache_dir: v.cache_dir,
        max_size: v.max_size,
        current_size: v.current_size,
        s3_endpoint: v.s3_endpoint,
        order: touch(v.order, v.order[0]),
    }
}

/// A filled uid is tracked, most recently used.  Until an eviction drops
/// it again, its location record resolves the next fetch as a hit, and a
/// hit never asks blob storage.
pub proof fn lemma_fill_tracks_uid(v: ShardView, f: Seq<char>)
    ensures
        fill_spec(v, f).order.last() == f,
        fill_spec(v, f).order.contains(f),
{
    let o = fill_spec(v, f).order;
    assert(o.last() == f);
    assert(o.contains(f)) by {
        assert(o[o.len() - 1] == f);
    }
}

/// Eviction frees tracking: with duplicate-free bookkeeping, an evicted
/// filename is no longer tracked after the pass, so its next fetch is a
/// miss that goes back to blob storage.
pub proof fn lemma_eviction_untracks(v: ShardView)
    requires
        no_dups(v.order),
    ensures
        forall|i: int|
            0 <= i < evict_count(v) ==> !evict_state(v).order.contains(#[trigger] v.order[i]),
{
    let k = evict_count(v);
    lemma_evict_order_suffix(v);
    assert forall|i: int| 0 <= i < k implies !evict_state(v).order.contains(
        #[trigger] v.order[i],
    ) by {
        if evict_state(v).order.contains(v.order[i]) {
            let j = choose|j: int|
                0 <= j < evict_state(v).order.len() && evict_state(v).order[j] == v.order[i];
            assert(v.order[k + j] == v.order[i]);
        }
    }
}

/// What an eviction pass leaves is the suffix after the evicted prefix.
pub proof fn lemma_evict_order_suffix(v: ShardView)
    ensures
        0 <= evict_count(v) <= v.order.len(),
        evict_state(v).order == v.order.skip(evict_count(v)),
    decreases v.order.len(),
{
    if v.current_size >= v.max_size && v.order.len() > 0 {
        let w = evict_step_target(v);
        lemma_evict_order_suffix(w);
        assert(evict_count(v) == 1 + evict_count(w));
        assert(v.order.skip(1).skip(evict_count(w)) =~= v.order.skip(1 + evict_count(w)));
        assert(evict_state(v).order =~= v.order.skip(evict_count(v)));
    } else {
        assert(evict_state(v).order =~= v.order.skip(0));
    }
}

} // verus!
