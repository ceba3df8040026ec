//! The sharded cache manager: a fixed set of shards, the lazily installed
//! slot map, and the routing decision that composes them.  A request is
//! first routed — initialize the map, redirect to the owning node, or pick
//! the local shard by hash — and then handled by that shard's hit/miss
//! steps.  The manager also carries the node configuration and the process
//! wide snapshot.

use vstd::prelude::*;
use crate::PORT_OFFSET_TO_WEB_SERVER;
use crate::SHARD_COUNT;
use crate::hashing::cluster_slot_spec;
use crate::hashing::shard_hash;
use crate::hashing::shard_hash_spec;
use crate::routing::SlotMap;
use crate::routing::SlotMapView;
use crate::routing::lemma_slot_covered;
use crate::routing::owner_of;
use crate::routing::redirect_url;
use crate::routing::redirect_url_spec;
use crate::shard::BlobOutcome;
use crate::shard::DiskCache;
use crate::shard::FetchError;
use crate::shard::LookupStep;
use crate::shard::ShardView;
use crate::shard::fill_spec;
use crate::shard::local_path_spec;
use crate::shard::evict_count;
use crate::shard::seq_views;
use crate::shard::touch;

verus! {

/// How a request for a uid is to be handled: the slot map must be loaded
/// first, the client is redirected to the owning node, or a local shard
/// serves it.
#[derive(Debug)]
pub enum RouteDecision {
    NeedsInit,
    Redirect(String),
    Local(usize),
}

/// Mathematical state of the manager.
pub struct ManagerView {
    pub cache_dir: Seq<char>,
    pub max_size: u64,
    pub s3_endpoint: Seq<char>,
    pub shards: Seq<ShardView>,
    pub slot_map: Option<SlotMapView>,
}

impl ManagerView {
    /// A well-formed manager: the fixed shard count, well-kept shard
    /// bookkeeping, and a well-formed slot map once one is installed.
    pub open spec fn wf(self) -> bool {
        &&& self.shards.len() == SHARD_COUNT
        &&& forall|i: int| 0 <= i < self.shards.len() ==> (#[trigger] self.shards[i]).wf()
        &&& self.slot_map matches Some(m) ==> m.wf()
    }
}

/// The manager after exactly one shard stepped to a new state.
pub open spec fn shard_updated(
    pre: ManagerView,
    post: ManagerView,
    idx: int,
    s: ShardView,
) -> bool {
    &&& post.shards == pre.shards.update(idx, s)
    &&& post.cache_dir == pre.cache_dir
    &&& post.max_size == pre.max_size
    &&& post.s3_endpoint == pre.s3_endpoint
    &&& post.slot_map == pre.slot_map
}

/// The shard state after re-ranking `f` most recently used.
pub open spec fn touch_state(v: ShardView, f: Seq<char>) -> ShardView {
    ShardView {
        cache_dir: v.cache_dir,
        max_size: v.max_size,
        current_size: v.current_size,
        s3_endpoint: v.s3_endpoint,
        order: touch(v.order, f),
    }
}

/// Every tracked filename of every shard, shard by shard.
pub open spec fn all_orders(shards: Seq<ShardView>) -> Seq<Seq<char>>
    decreases shards.len(),
{
    if shards.len() == 0 {
        Seq::empty()
    } else {
        shards[0].order + all_orders(shards.skip(1))
    }
}

/// The cache manager owns the node's shards and its routing state.
pub struct ConcurrentDiskCache {
    cache_dir: String,
    max_size: u64,
    s3_endpoint: String,
    shards: Vec<DiskCache>,
    slot_map: Option<SlotMap>,
}

impl View for ConcurrentDiskCache {
    type V = ManagerView;

    closed spec fn view(&self) -> ManagerView {
        ManagerView {
            cache_dir: self.cache_dir@,
            max_size: self.max_size,
            s3_endpoint: self.s3_endpoint@,
            shards: self.shards@.map_values(|d: DiskCache| d@),
            slot_map: match self.slot_map {
                Some(m) => Some(m@),
                None => None,
            },
        }
    }
}

impl ConcurrentDiskCache {
    /// Build the manager: the total capacity is divided evenly across the
    /// fixed number of shards, each starting empty over the shared cache
    /// directory and blob endpoint; the slot map starts uninstalled.
    pub fn new(cache_dir: String, max_size: u64, s3_endpoint: String) -> (c: Self)
        ensures
            c@.wf(),
            c@.cache_dir == cache_dir@,
            c@.max_size == max_size,
            c@.s3_endpoint == s3_endpoint@,
            c@.slot_map is None,
            forall|i: int| 0 <= i < c@.shards.len() ==> (#[trigger] c@.shards[i]).cache_dir
                == cache_dir@,
            forall|i: int| 0 <= i < c@.shards.len() ==> (#[trigger] c@.shards[i]).max_size
                == max_size / SHARD_COUNT,
            forall|i: int| 0 <= i < c@.shards.len() ==> (#[trigger] c@.shards[i]).current_size
                == 0,
            forall|i: int| 0 <= i < c@.shards.len() ==> (#[trigger] c@.shards[i]).s3_endpoint
                == s3_endpoint@,
            forall|i: int| 0 <= i < c@.shards.len() ==> (#[trigger] c@.shards[i]).order == Seq::<
                Seq<char>,
            >::empty(),
    {
        let shard_max = max_size / SHARD_COUNT;
        let mut shards: Vec<DiskCache> = Vec::new();
        let mut i: u64 = 0;
        while i < SHARD_COUNT
            invariant
                i <= SHARD_COUNT,
                shards@.len() == i,
                shard_max == max_size / SHARD_COUNT,
                forall|j: int| 0 <= j < i ==> (#[trigger] shards@[j])@.cache_dir == cache_dir@,
                forall|j: int| 0 <= j < i ==> (#[trigger] shards@[j])@.max_size == max_size
                    / SHARD_COUNT,
                forall|j: int| 0 <= j < i ==> (#[trigger] shards@[j])@.current_size == 0,
                forall|j: int| 0 <= j < i ==> (#[trigger] shards@[j])@.s3_endpoint == s3_endpoint@,
                forall|j: int| 0 <= j < i ==> (#[trigger] shards@[j])@.order == Seq::<
                    Seq<char>,
                >::empty(),
                forall|j: int| 0 <= j < i ==> (#[trigger] shards@[j])@.wf(),
            decreases SHARD_COUNT - i,
        {
            let shard = DiskCache::new(cache_dir.clone(), shard_max, s3_endpoint.clone());
            let ghost sv = shard@;
            let ghost prev = shards@;
            shards.push(shard);
            proof {
                assert(shards@[i as int]@ == sv);
                assert(forall|j: int| 0 <= j < i ==> (#[trigger] shards@[j]) == prev[j]);
                assert(sv.max_size == shard_max);
            }
            i = i + 1;
        }
        ConcurrentDiskCache { cache_dir, max_size, s3_endpoint, shards, slot_map: None }
    }

    /// Whether the slot map has been installed yet.
    pub fn mapping_initialized(&self) -> (r: bool)
        ensures
            r == (self@.slot_map is Some),
    {
        self.slot_map.is_some()
    }

    /// One-shot installation of a freshly loaded slot map.  The map is
    /// adopted only when none is installed yet, so two racing
    /// initializations cannot both take effect; the second caller sees
    /// `false` and routes with the map that won.
    pub fn install_slot_map(&mut self, m: SlotMap) -> (installed: bool)
        requires
            m@.wf(),
        ensures
            old(self)@.slot_map is None ==> installed && final(self)@.slot_map == Some(m@),
            old(self)@.slot_map is Some ==> !installed && final(self)@.slot_map == old(
                self,
            )@.slot_map,
            final(self)@.shards == old(self)@.shards,
            final(self)@.cache_dir == old(self)@.cache_dir,
            final(self)@.max_size == old(self)@.max_size,
            final(self)@.s3_endpoint == old(self)@.s3_endpoint,
            old(self)@.wf() ==> final(self)@.wf(),
    {
        if self.slot_map.is_none() {
            self.slot_map = Some(m);
            true
        } else {
            false
        }
    }

    /// Route a request.  Until a slot map is installed every request needs
    /// initialization.  With a map, a uid whose slot a remote node owns is
    /// redirected to exactly that node's web address, and no shard is
    /// consulted; a uid the local node owns is assigned the shard its hash
    /// selects.
    pub fn route(&self, uid: &String) -> (r: RouteDecision)
        requires
            self@.wf(),
        ensures
            self@.slot_map is None <==> r is NeedsInit,
            self@.slot_map matches Some(m) ==> ({
                let owner = owner_of(m, cluster_slot_spec(uid@));
                &&& (owner.node_id != m.my_id <==> r is Redirect)
                &&& (r matches RouteDecision::Redirect(u) ==> u@ == redirect_url_spec(
                    owner.address,
                    owner.port,
                    uid@,
                ))
                &&& (r matches RouteDecision::Local(i) ==> owner.node_id == m.my_id && i
                    == shard_hash_spec(uid@) as int % (SHARD_COUNT as int) && i
                    < self@.shards.len())
            }),
    {
        match &self.slot_map {
            None => RouteDecision::NeedsInit,
            Some(m) => {
                match m.lookup_node_for(uid) {
                    Some((addr, port)) => {
                        proof {
                            let slot = cluster_slot_spec(uid@);
                            lemma_slot_covered(m@.entries, slot);
                            let k = choose|k: int|
                                0 <= k < m@.entries.len() && crate::routing::covers(
                                    #[trigger] m@.entries[k],
                                    slot,
                                );
                            assert(owner_of(m@, slot) == m@.entries[k]);
                        }
                        let url = redirect_url(&addr, port, uid);
                        RouteDecision::Redirect(url)
                    },
                    None => {
                        let h = shard_hash(uid);
                        let idx = (h % SHARD_COUNT) as usize;
                        RouteDecision::Local(idx)
                    },
                }
            },
        }
    }

    /// Feed a shard the metadata-store location lookup for a uid it owns;
    /// see the shard's own step for the hit/miss contract.
    pub fn shard_on_location(&mut self, idx: usize, loc: &Option<String>) -> (r: LookupStep)
        requires
            idx < old(self)@.shards.len(),
        ensures
            loc matches Some(f) ==> (r matches LookupStep::Hit(p) && p@ == local_path_spec(
                old(self)@.shards[idx as int].cache_dir,
                f@,
            ) && shard_updated(
                old(self)@,
                final(self)@,
                idx as int,
                touch_state(old(self)@.shards[idx as int], f@),
            )),
            loc is None ==> (r is Miss && final(self)@ == old(self)@),
    {
        let ghost pre = self@;
        let mut shard = self.shards.remove(idx);
        let r = shard.on_location(loc);
        self.shards.insert(idx, shard);
        proof {
            assert(final(self)@.shards =~= pre.shards.update(idx as int, shard@));
            if loc is None {
                assert(final(self)@.shards =~= pre.shards);
            }
        }
        r
    }

    /// Feed a shard the blob-storage outcome for a missed uid it owns; see
    /// the shard's own step for the admit/evict contract.
    pub fn shard_on_blob(&mut self, idx: usize, uid: &String, outcome: BlobOutcome) -> (r: Result<
        (String, Vec<String>),
        FetchError,
    >)
        requires
            idx < old(self)@.shards.len(),
            old(self)@.shards[idx as int].current_size < u64::MAX,
        ensures
            outcome is Fetched ==> (r matches Ok((p, ev)) && p@ == local_path_spec(
                old(self)@.shards[idx as int].cache_dir,
                uid@,
            ) && seq_views(ev@) == old(self)@.shards[idx as int].order.take(
                evict_count(old(self)@.shards[idx as int]),
            ) && shard_updated(
                old(self)@,
                final(self)@,
                idx as int,
                fill_spec(old(self)@.shards[idx as int], uid@),
            )),
            outcome is NotFound ==> (r matches Err(e) && e is NotFound && final(self)@ == old(
                self,
            )@),
            outcome is Failure ==> (r matches Err(e) && e is UpstreamError && final(self)@ == old(
                self,
            )@),
    {
        let ghost pre = self@;
        let mut shard = self.shards.remove(idx);
        let r = shard.on_blob_result(uid, outcome);
        self.shards.insert(idx, shard);
        proof {
            assert(final(self)@.shards =~= pre.shards.update(idx as int, shard@));
            if !(outcome is Fetched) {
                assert(final(self)@.shards =~= pre.shards);
            }
        }
        r
    }

    /// Read one shard's state for the snapshot.
    pub fn shard_at(&self, idx: usize) -> (s: &DiskCache)
        requires
            idx < self@.shards.len(),
        ensures
            s@ == self@.shards[idx as int],
    {
        &self.shards[idx]
    }

    /// Number of shards.
    pub fn shard_count(&self) -> (r: usize)
        ensures
            r == self@.shards.len(),
    {
        self.shards.len()
    }

    /// The process-wide observability snapshot, timestamped from the
    /// system clock: every shard's usage figures and tracked files,
    /// rendered as the textual report.  Only the timestamp comes from
    /// outside; every row is pinned to the shards' state.
    pub fn get_stats(&self) -> (r: String)
        ensures
            exists|ts: Seq<char>|
                r@ == crate::stats::stats_text_spec(
                    ts,
                    crate::stats::snapshot_rows(self@.shards),
                ),
    {
        let ts = crate::stats::current_timestamp_rfc3339();
        let mut entries: Vec<crate::stats::StatEntry> = Vec::new();
        let n = self.shards.len();
        let mut i: usize = 0;
        while i < n
            invariant
                i <= n,
                n == self.shards@.len(),
                n == self@.shards.len(),
                entries@.len() == i,
                crate::stats::stat_entry_views(entries@) =~= crate::stats::snapshot_rows(
                    self@.shards,
                ).take(i as int),
            decreases n - i,
        {
            let st = crate::stats::snapshot_shard(&self.shards[i]);
            proof {
                assert(self.shards@[i as int]@ == self@.shards[i as int]);
            }
            entries.push(crate::stats::StatEntry::Snapshot(st));
            proof {
                assert(crate::stats::stat_entry_views(entries@) =~= crate::stats::snapshot_rows(
                    self@.shards,
                ).take(i + 1));
            }
            i = i + 1;
        }
        proof {
            assert(crate::stats::snapshot_rows(self@.shards).take(n as int)
                =~= crate::stats::snapshot_rows(self@.shards));
        }
        let r = crate::stats::render_stats(&ts, &entries);
        proof {
            assert(exists|t: Seq<char>|
                r@ == crate::stats::stats_text_spec(
                    t,
                    crate::stats::snapshot_rows(self@.shards),
                )) by {
                assert(r@ == crate::stats::stats_text_spec(
                    ts@,
                    crate::stats::snapshot_rows(self@.shards),
                ));
            }
        }
        r
    }

    /// Empty every shard, returning every drained filename so the caller
    /// can delete the files and their location records.
    pub fn clear(&mut self) -> (drained: Vec<String>)
        ensures
            final(self)@.shards.len() == old(self)@.shards.len(),
            forall|i: int|
                0 <= i < final(self)@.shards.len() ==> {
                    &&& (#[trigger] final(self)@.shards[i]).order == Seq::<Seq<char>>::empty()
                    &&& final(self)@.shards[i].current_size == 0
                    &&& final(self)@.shards[i].max_size == old(self)@.shards[i].max_size
                    &&& final(self)@.shards[i].cache_dir == old(self)@.shards[i].cache_dir
                    &&& final(self)@.shards[i].s3_endpoint == old(self)@.shards[i].s3_endpoint
                },
            seq_views(drained@) == all_orders(old(self)@.shards),
            final(self)@.cache_dir == old(self)@.cache_dir,
            final(self)@.max_size == old(self)@.max_size,
            final(self)@.s3_endpoint == old(self)@.s3_endpoint,
            final(self)@.slot_map == old(self)@.slot_map,
            old(self)@.wf() ==> final(self)@.wf(),
    {
        let ghost pre = self@;
        let mut drained: Vec<String> = Vec::new();
        let n = self.shards.len();
        let mut i: usize = 0;
        proof {
            assert(seq_views(drained@) =~= Seq::<Seq<char>>::empty());
            assert(pre.shards.skip(0) =~= pre.shards);
        }
        while i < n
            invariant
                i <= n,
                n == self.shards@.len(),
                self@.shards.len() == pre.shards.len(),
                self@.cache_dir == pre.cache_dir,
                self@.max_size == pre.max_size,
                self@.s3_endpoint == pre.s3_endpoint,
                self@.slot_map == pre.slot_map,
                forall|j: int|
                    0 <= j < i ==> {
                        &&& (#[trigger] self@.shards[j]).order == Seq::<Seq<char>>::empty()
                        &&& self@.shards[j].current_size == 0
                        &&& self@.shards[j].max_size == pre.shards[j].max_size
                        &&& self@.shards[j].cache_dir == pre.shards[j].cache_dir
                        &&& self@.shards[j].s3_endpoint == pre.shards[j].s3_endpoint
                        &&& self@.shards[j].wf()
                    },
                forall|j: int|
                    i <= j < n ==> (#[trigger] self@.shards[j]) == pre.shards[j],
                seq_views(drained@) + all_orders(pre.shards.skip(i as int)) == all_orders(
                    pre.shards,
                ),
            decreases n - i,
        {
            let ghost loop_pre = self@;
            let ghost d0 = drained@;
            let mut shard = self.shards.remove(i);
            proof {
                assert(shard@ == loop_pre.shards[i as int]);
            }
            let mut part = shard.drain();
            let ghost p0 = part@;
            drained.append(&mut part);
            self.shards.insert(i, shard);
            proof {
                assert(self@.shards =~= loop_pre.shards.update(i as int, shard@));
                assert(loop_pre.shards[i as int] == pre.shards[i as int]);
                assert(seq_views(drained@) =~= seq_views(d0) + seq_views(p0));
                assert(pre.shards.skip(i as int)[0] == pre.shards[i as int]);
                assert(pre.shards.skip(i as int).skip(1) =~= pre.shards.skip(i + 1));
                assert(all_orders(pre.shards.skip(i as int)) == pre.shards[i as int].order
                    + all_orders(pre.shards.skip(i + 1)));
                assert(seq_views(drained@) + all_orders(pre.shards.skip(i + 1)) =~= all_orders(
                    pre.shards,
                ));
            }
            i = i + 1;
        }
        proof {
            assert(pre.shards.skip(n as int) =~= Seq::<ShardView>::empty());
            assert(all_orders(pre.shards.skip(n as int)) =~= Seq::<Seq<char>>::empty());
            assert(seq_views(drained@) =~= all_orders(pre.shards));
        }
        drained
    }
}

/// The node's startup configuration, as the process front end hands it in.
pub struct ServerConfig {
    pub redis_port: u16,
    pub cache_dir: String,
    pub bucket: Option<String>,
    pub region_name: Option<String>,
    pub access_key: Option<String>,
    pub secret_key: Option<String>,
    pub use_mock_s3_endpoint: Option<String>,
    pub max_size: u64,
    pub bucket_size: u64,
}

/// Which blob-storage backend a configuration selects: a mock endpoint
/// when one is configured, otherwise the real store, which needs all four
/// of its settings.
#[derive(Debug)]
pub enum ConnectorChoice {
    Mock(String),
    Real { bucket: String, region_name: String, access_key: String, secret_key: String },
}

impl ServerConfig {
    /// Select the blob-storage backend.  A configured mock endpoint always
    /// wins; otherwise the real store is selected exactly when every one
    /// of its four settings is present, and the missing-setting error says
    /// the configuration is unusable.
    pub fn connector_choice(&self) -> (r: Option<ConnectorChoice>)
        ensures
            self.use_mock_s3_endpoint matches Some(e) ==> (r matches Some(c) && (c matches
                ConnectorChoice::Mock(m) && m@ == e@)),
            self.use_mock_s3_endpoint is None ==> {
                &&& (r is Some <==> self.bucket is Some && self.region_name is Some
                    && self.access_key is Some && self.secret_key is Some)
                &&& (r matches Some(c) ==> (c matches ConnectorChoice::Real {
                    bucket,
                    region_name,
                    access_key,
                    secret_key,
                } && bucket@ == self.bucket->0@ && region_name@ == self.region_name->0@
                    && access_key@ == self.access_key->0@ && secret_key@ == self.secret_key->0@))
            },
    {
        match &self.use_mock_s3_endpoint {
            Some(e) => Some(ConnectorChoice::Mock(e.clone())),
            None => {
                match (&self.bucket, &self.region_name, &self.access_key, &self.secret_key) {
                    (Some(b), Some(rn), Some(a), Some(s)) => Some(
                        ConnectorChoice::Real {
                            bucket: b.clone(),
                            region_name: rn.clone(),
                            access_key: a.clone(),
                            secret_key: s.clone(),
                        },
                    ),
                    _ => None,
                }
            },
        }
    }

    /// The web-server port this node listens on, by the cluster-wide
    /// addressing convention.
    pub fn web_server_port(&self) -> (r: u16)
        requires
            self.redis_port + PORT_OFFSET_TO_WEB_SERVER <= u16::MAX,
        ensures
            r == self.redis_port + PORT_OFFSET_TO_WEB_SERVER,
    {
        self.redis_port + PORT_OFFSET_TO_WEB_SERVER
    }
}

} // verus!
