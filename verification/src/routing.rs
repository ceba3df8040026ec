//! Cluster routing: the slot map that assigns every hash slot to exactly one
//! node, the decision whether a uid must be redirected, and the redirect URL
//! a client is sent to.  The URL is built here character by character so
//! that its exact text is pinned by the contracts: scheme `http`, the owning
//! node's address (loopback addresses resolve to `localhost`), the node's
//! coordination port plus the fixed web-server offset, and the serving path
//! `/s3/` followed by the uid.

use vstd::prelude::*;
use crate::hashing::SLOT_COUNT;
use crate::hashing::cluster_slot;
use crate::hashing::cluster_slot_spec;
use crate::PORT_OFFSET_TO_WEB_SERVER;

verus! {

/// The character of a single decimal digit.
pub open spec fn dec_digit(d: nat) -> char {
    if d == 0 {
        '0'
    } else if d == 1 {
        '1'
    } else if d == 2 {
        '2'
    } else if d == 3 {
        '3'
    } else if d == 4 {
        '4'
    } else if d == 5 {
        '5'
    } else if d == 6 {
        '6'
    } else if d == 7 {
        '7'
    } else if d == 8 {
        '8'
    } else {
        '9'
    }
}

/// Decimal rendering of a number, most significant digit first, no sign and
/// no leading zero except for the number zero itself.
pub open spec fn dec_str(n: nat) -> Seq<char>
    decreases n,
{
    if n < 10 {
        seq![dec_digit(n)]
    } else {
        dec_str(n / 10) + seq![dec_digit(n % 10)]
    }
}

/// The single-character text of a decimal digit.
fn digit_str(d: u64) -> (r: &'static str)
    requires
        d < 10,
    ensures
        r@ == seq![dec_digit(d as nat)],
{
    proof {
        reveal_strlit("0");
        reveal_strlit("1");
        reveal_strlit("2");
        reveal_strlit("3");
        reveal_strlit("4");
        reveal_strlit("5");
        reveal_strlit("6");
        reveal_strlit("7");
        reveal_strlit("8");
        reveal_strlit("9");
    }
    let r = if d == 0 {
        "0"
    } else if d == 1 {
        "1"
    } else if d == 2 {
        "2"
    } else if d == 3 {
        "3"
    } else if d == 4 {
        "4"
    } else if d == 5 {
        "5"
    } else if d == 6 {
        "6"
    } else if d == 7 {
        "7"
    } else if d == 8 {
        "8"
    } else {
        "9"
    };
    proof {
        assert(r@ =~= seq![dec_digit(d as nat)]);
    }
    r
}

/// Decimal rendering of a number as a string.
pub fn u64_to_dec(n: u64) -> (r: String)
    ensures
        r@ == dec_str(n as nat),
    decreases n,
{
    if n < 10 {
        String::from_str(digit_str(n))
    } else {
        let mut r = u64_to_dec(n / 10);
        r.append(digit_str(n % 10));
        proof {
            assert(r@ =~= dec_str(n as nat));
        }
        r
    }
}

/// A loopback address in the two textual shapes the cluster uses: a dotted
/// quad starting with octet 127, or the short IPv6 form `::1`.
pub open spec fn is_loopback_spec(a: Seq<char>) -> bool {
    ||| (a.len() >= 4 && a[0] == '1' && a[1] == '2' && a[2] == '7' && a[3] == '.')
    ||| (a.len() == 3 && a[0] == ':' && a[1] == ':' && a[2] == '1')
}

/// Whether a node address is textually a loopback address.
pub fn is_loopback_addr(addr: &String) -> (r: bool)
    ensures
        r == is_loopback_spec(addr@),
{
    let s = addr.as_str();
    let n = s.unicode_len();
    if n >= 4 && s.get_char(0) == '1' && s.get_char(1) == '2' && s.get_char(2) == '7'
        && s.get_char(3) == '.' {
        true
    } else if n == 3 && s.get_char(0) == ':' && s.get_char(1) == ':' && s.get_char(2) == '1' {
        true
    } else {
        false
    }
}

/// The host part a redirect uses: loopback addresses resolve to a local
/// hostname, as reverse proxies conventionally expect; any other address is
/// used literally.
pub open spec fn redirect_host_spec(a: Seq<char>) -> Seq<char> {
    if is_loopback_spec(a) {
        seq!['l', 'o', 'c', 'a', 'l', 'h', 'o', 's', 't']
    } else {
        a
    }
}

/// The exact redirect URL for a uid owned by a remote node:
/// `http://<host>:<coordination port + offset>/s3/<uid>`.
pub open spec fn redirect_url_spec(address: Seq<char>, port: u16, uid: Seq<char>) -> Seq<char> {
    seq!['h', 't', 't', 'p', ':', '/', '/'] + redirect_host_spec(address) + seq![':'] + dec_str(
        (port + PORT_OFFSET_TO_WEB_SERVER) as nat,
    ) + seq!['/', 's', '3', '/'] + uid
}

/// Build the redirect URL a client is told to follow.  The port bound is
/// forced by the addressing convention itself: a node whose web-server port
/// would not exist cannot be redirected to.
pub fn redirect_url(address: &String, port: u16, uid: &String) -> (r: String)
    requires
        port + PORT_OFFSET_TO_WEB_SERVER <= u16::MAX,
    ensures
        r@ == redirect_url_spec(address@, port, uid@),
{
    proof {
        reveal_strlit("http://");
        reveal_strlit("localhost");
        reveal_strlit(":");
        reveal_strlit("/s3/");
    }
    let mut r = String::from_str("http://");
    if is_loopback_addr(address) {
        r.append("localhost");
    } else {
        r.append(address.as_str());
    }
    r.append(":");
    let web_port = port + PORT_OFFSET_TO_WEB_SERVER;
    let ps = u64_to_dec(web_port as u64);
    r.append(ps.as_str());
    r.append("/s3/");
    r.append(uid.as_str());
    proof {
        assert(r@ =~= redirect_url_spec(address@, port, uid@));
    }
    r
}

/// Redirect targets are pinned: any two URLs that satisfy the redirect
/// contract for the same address, port and uid are the same URL, so
/// redirecting a uid twice against an unchanged slot map yields the same
/// target.
pub proof fn lemma_redirect_idempotent(
    address: Seq<char>,
    port: u16,
    uid: Seq<char>,
    u1: Seq<char>,
    u2: Seq<char>,
)
    requires
        u1 == redirect_url_spec(address, port, uid),
        u2 == redirect_url_spec(address, port, uid),
    ensures
        u1 == u2,
{
}

/// One row of the slot map: a contiguous slot range and the node owning it.
pub struct NodeEntry {
    pub start_slot: u64,
    pub end_slot: u64,
    pub address: String,
    pub port: u16,
    pub node_id: String,
}

/// Mathematical state of one slot-map row.
pub struct NodeEntryView {
    pub start_slot: u64,
    pub end_slot: u64,
    pub address: Seq<char>,
    pub port: u16,
    pub node_id: Seq<char>,
}

impl View for NodeEntry {
    type V = NodeEntryView;

    open spec fn view(&self) -> NodeEntryView {
        NodeEntryView {
            start_slot: self.start_slot,
            end_slot: self.end_slot,
            address: self.address@,
            port: self.port,
            node_id: self.node_id@,
        }
    }
}

/// Whether a slot-map row owns a slot.
pub open spec fn covers(e: NodeEntryView, slot: u64) -> bool {
    e.start_slot <= slot <= e.end_slot
}

/// A well-formed topology: the rows carve the whole slot space into
/// contiguous, orderly ranges, so every slot has exactly one owner, and
/// every advertised port leaves room for the web-server offset.
pub open spec fn entries_wf(entries: Seq<NodeEntryView>) -> bool {
    &&& entries.len() > 0
    &&& entries[0].start_slot == 0
    &&& entries[entries.len() - 1].end_slot == SLOT_COUNT - 1
    &&& forall|i: int|
        0 <= i < entries.len() ==> (#[trigger] entries[i]).start_slot <= entries[i].end_slot
            && entries[i].end_slot < SLOT_COUNT && entries[i].port + PORT_OFFSET_TO_WEB_SERVER
            <= u16::MAX
    &&& forall|i: int|
        0 < i < entries.len() ==> (#[trigger] entries[i]).start_slot == entries[i - 1].end_slot
            + 1
}

/// The views of a vector of slot-map rows.
pub open spec fn entry_views(v: Seq<NodeEntry>) -> Seq<NodeEntryView> {
    v.map_values(|e: NodeEntry| e@)
}

/// Why a slot map could not be loaded: the coordination service did not
/// answer, or what it answered does not carve up the slot space.
#[derive(Clone, Copy, Debug, PartialEq, Eq, Structural)]
pub enum MappingError {
    Unreachable,
    MalformedTopology,
}

/// The cluster's slot-to-node assignment, plus the local node's own id,
/// resolved once when the map is loaded.
pub struct SlotMap {
    entries: Vec<NodeEntry>,
    my_id: String,
}

/// Mathematical state of the slot map.
pub struct SlotMapView {
    pub entries: Seq<NodeEntryView>,
    pub my_id: Seq<char>,
}

impl SlotMapView {
    /// A usable map carves the whole slot space into single-owner ranges.
    pub open spec fn wf(self) -> bool {
        entries_wf(self.entries)
    }
}

impl View for SlotMap {
    type V = SlotMapView;

    closed spec fn view(&self) -> SlotMapView {
        SlotMapView { entries: entry_views(self.entries@), my_id: self.my_id@ }
    }
}

/// The row owning a slot, in a well-formed map.
pub open spec fn owner_of(m: SlotMapView, slot: u64) -> NodeEntryView {
    m.entries[choose|i: int| 0 <= i < m.entries.len() && covers(#[trigger] m.entries[i], slot)]
}

/// In a well-formed map, ranges are disjoint: only one row covers a slot.
pub proof fn lemma_owner_unique(entries: Seq<NodeEntryView>, slot: u64, i: int, j: int)
    requires
        entries_wf(entries),
        0 <= i < entries.len(),
        0 <= j < entries.len(),
        covers(entries[i], slot),
        covers(entries[j], slot),
    ensures
        i == j,
{
    lemma_ranges_ordered(entries);
    if i < j {
        assert(entries[i].end_slot < entries[j].start_slot);
    }
    if j < i {
        assert(entries[j].end_slot < entries[i].start_slot);
    }
}

/// Ranges grow strictly: a later row starts after an earlier row ends.
pub proof fn lemma_ranges_ordered(entries: Seq<NodeEntryView>)
    requires
        entries_wf(entries),
    ensures
        forall|i: int, j: int|
            0 <= i < j < entries.len() ==> (#[trigger] entries[i]).end_slot < (
            #[trigger] entries[j]).start_slot,
{
    assert forall|i: int, j: int|
        0 <= i < j < entries.len() implies (#[trigger] entries[i]).end_slot < (
    #[trigger] entries[j]).start_slot by {
        lemma_ranges_ordered_step(entries, i, j);
    }
}

proof fn lemma_ranges_ordered_step(entries: Seq<NodeEntryView>, i: int, j: int)
    requires
        entries_wf(entries),
        0 <= i < j < entries.len(),
    ensures
        entries[i].end_slot < entries[j].start_slot,
    decreases j - i,
{
    if j == i + 1 {
        assert(entries[j].start_slot == entries[i].end_slot + 1);
    } else {
        lemma_ranges_ordered_step(entries, i, j - 1);
        assert(entries[j].start_slot == entries[j - 1].end_slot + 1);
        assert(entries[j - 1].start_slot <= entries[j - 1].end_slot);
    }
}

/// In a well-formed map, every slot in the slot space has an owner.
pub proof fn lemma_slot_covered(entries: Seq<NodeEntryView>, slot: u64)
    requires
        entries_wf(entries),
        slot < SLOT_COUNT,
    ensures
        exists|i: int| 0 <= i < entries.len() && covers(#[trigger] entries[i], slot),
{
    lemma_covered_from(entries, slot, 0);
}

proof fn lemma_covered_from(entries: Seq<NodeEntryView>, slot: u64, i: int)
    requires
        entries_wf(entries),
        slot < SLOT_COUNT,
        0 <= i < entries.len(),
        entries[i].start_slot <= slot,
    ensures
        exists|j: int| 0 <= j < entries.len() && covers(#[trigger] entries[j], slot),
    decreases entries.len() - i,
{
    if slot <= entries[i].end_slot {
        assert(covers(entries[i], slot));
    } else if i == entries.len() - 1 {
        assert(entries[i].end_slot == SLOT_COUNT - 1);
    } else {
        assert(entries[i + 1].start_slot == entries[i].end_slot + 1);
        lemma_covered_from(entries, slot, i + 1);
    }
}

impl SlotMap {
    /// Validate and adopt a topology answered by the coordination service,
    /// together with the local node's resolved id.  The rows must carve the
    /// slot space contiguously from slot zero to the last slot, each with a
    /// sane range and a port that leaves room for the web-server offset;
    /// anything else is malformed and is rejected, and the caller must not
    /// treat the map as initialized.
    pub fn from_entries(entries: Vec<NodeEntry>, my_id: String) -> (r: Result<SlotMap, MappingError>)
        ensures
            r is Ok <==> entries_wf(entry_views(entries@)),
            r matches Ok(m) ==> m@.wf() && m@.entries == entry_views(entries@) && m@.my_id
                == my_id@,
            r matches Err(e) ==> e is MalformedTopology,
    {
        let ghost ev = entry_views(entries@);
        let n = entries.len();
        if n == 0 {
            return Err(MappingError::MalformedTopology);
        }
        if entries[0].start_slot != 0 {
            proof {
                assert(ev[0].start_slot != 0);
            }
            return Err(MappingError::MalformedTopology);
        }
        if entries[n - 1].end_slot != SLOT_COUNT - 1 {
            proof {
                assert(ev[n - 1].end_slot != SLOT_COUNT - 1);
            }
            return Err(MappingError::MalformedTopology);
        }
        let mut i: usize = 0;
        while i < n
            invariant
                i <= n,
                n == entries@.len(),
                ev == entry_views(entries@),
                forall|j: int|
                    0 <= j < i ==> (#[trigger] ev[j]).start_slot <= ev[j].end_slot
                        && ev[j].end_slot < SLOT_COUNT && ev[j].port + PORT_OFFSET_TO_WEB_SERVER
                        <= u16::MAX,
                forall|j: int|
                    0 < j < i ==> (#[trigger] ev[j]).start_slot == ev[j - 1].end_slot + 1,
            decreases n - i,
        {
            proof {
                assert(ev[i as int].start_slot == entries@[i as int]@.start_slot);
            }
            if entries[i].start_slot > entries[i].end_slot {
                return Err(MappingError::MalformedTopology);
            }
            if entries[i].end_slot >= SLOT_COUNT {
                return Err(MappingError::MalformedTopology);
            }
            if entries[i].port > u16::MAX - PORT_OFFSET_TO_WEB_SERVER {
                return Err(MappingError::MalformedTopology);
            }
            if i > 0 {
                proof {
                    assert(ev[i - 1].end_slot == entries@[i - 1]@.end_slot);
                    assert(ev[i - 1].end_slot < SLOT_COUNT);
                }
                if entries[i].start_slot != entries[i - 1].end_slot + 1 {
                    return Err(MappingError::MalformedTopology);
                }
            }
            i = i + 1;
        }
        let m = SlotMap { entries, my_id };
        proof {
            assert(m@.entries == ev);
            assert(entries_wf(ev));
        }
        Ok(m)
    }

    /// Which node owns this uid's slot, for routing: `None` when the local
    /// node owns it, otherwise the owning node's address and coordination
    /// port.  The contract a router relies on: a redirect is issued exactly
    /// when a different node owns the slot, never to the node itself.
    #[verifier::rlimit(50)]
    pub fn lookup_node_for(&self, uid: &String) -> (r: Option<(String, u16)>)
        requires
            self@.wf(),
        ensures
            ({
                let owner = owner_of(self@, cluster_slot_spec(uid@));
                &&& (r is None <==> owner.node_id == self@.my_id)
                &&& (r matches Some((a, p)) ==> a@ == owner.address && p == owner.port
                    && owner.node_id != self@.my_id)
            }),
    {
        let slot = cluster_slot(uid);
        let n = self.entries.len();
        let ghost ev = self@.entries;
        let mut i: usize = 0;
        while i < n
            invariant
                i <= n,
                n == self.entries@.len(),
                ev == self@.entries,
                self@.wf(),
                slot == cluster_slot_spec(uid@),
                slot < SLOT_COUNT,
                forall|j: int| 0 <= j < i ==> !covers(#[trigger] ev[j], slot),
            decreases n - i,
        {
            proof {
                assert(ev[i as int] == self.entries@[i as int]@);
            }
            if self.entries[i].start_slot <= slot && slot <= self.entries[i].end_slot {
                proof {
                    assert(covers(ev[i as int], slot));
                    lemma_slot_covered(ev, slot);
                    let k = choose|k: int| 0 <= k < ev.len() && covers(#[trigger] ev[k], slot);
                    lemma_owner_unique(ev, slot, k, i as int);
                    assert(owner_of(self@, slot) == ev[i as int]);
                }
                if self.entries[i].node_id.eq(&self.my_id) {
                    return None;
                } else {
                    return Some((self.entries[i].address.clone(), self.entries[i].port));
                }
            }
            i = i + 1;
        }
        proof {
            lemma_slot_covered(ev, slot);
            let k = choose|k: int| 0 <= k < ev.len() && covers(#[trigger] ev[k], slot);
            assert(!covers(ev[k], slot));
            assert(false);
        }
        None
    }
}

} // verus!
