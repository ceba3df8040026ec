//! The observability snapshot: per-shard usage figures and the textual
//! report built from them.  A shard that could not be inspected in time is
//! reported as contended instead of stalling the whole snapshot; the caller
//! that holds the locks decides which shards those are and hands the
//! outcome in as a value.

use vstd::prelude::*;
use crate::routing::dec_str;
use crate::routing::u64_to_dec;
use crate::shard::DiskCache;
use crate::shard::ShardView;
use crate::shard::seq_views;

verus! {

/// Integer percentage of capacity used, saturating; a zero capacity is
/// reported as zero rather than dividing by it.
pub open spec fn pct_spec(size: u64, max: u64) -> u64 {
    if max == 0 {
        0u64
    } else if size * 100 / (max as int) > u64::MAX {
        u64::MAX
    } else {
        (size * 100 / (max as int)) as u64
    }
}

/// Integer percentage of capacity used.
pub fn used_pct(size: u64, max: u64) -> (r: u64)
    ensures
        r == pct_spec(size, max),
{
    if max == 0 {
        0
    } else {
        let p: u128 = (size as u128) * 100 / (max as u128);
        if p > u64::MAX as u128 {
            u64::MAX
        } else {
            p as u64
        }
    }
}

/// What one shard reported for the snapshot.
pub struct ShardStat {
    pub current_size: u64,
    pub max_size: u64,
    pub used_pct: u64,
    pub file_count: usize,
    pub files: Vec<String>,
}

/// Mathematical state of one shard's report.
pub struct ShardStatView {
    pub current_size: u64,
    pub max_size: u64,
    pub used_pct: u64,
    pub file_count: usize,
    pub files: Seq<Seq<char>>,
}

impl View for ShardStat {
    type V = ShardStatView;

    open spec fn view(&self) -> ShardStatView {
        ShardStatView {
            current_size: self.current_size,
            max_size: self.max_size,
            used_pct: self.used_pct,
            file_count: self.file_count,
            files: seq_views(self.files@),
        }
    }
}

/// One row of the snapshot: either a shard's report, or the mark that its
/// lock could not be taken within the snapshot timeout.
pub enum StatEntry {
    Snapshot(ShardStat),
    Contended,
}

/// Mathematical state of one snapshot row.
pub enum StatEntryView {
    Snapshot(ShardStatView),
    Contended,
}

impl View for StatEntry {
    type V = StatEntryView;

    open spec fn view(&self) -> StatEntryView {
        match self {
            StatEntry::Snapshot(s) => StatEntryView::Snapshot(s@),
            StatEntry::Contended => StatEntryView::Contended,
        }
    }
}

/// The views of a vector of snapshot rows.
pub open spec fn stat_entry_views(v: Seq<StatEntry>) -> Seq<StatEntryView> {
    v.map_values(|e: StatEntry| e@)
}

/// The report row a shard in the given state produces.
pub open spec fn snapshot_of(v: ShardView) -> StatEntryView {
    StatEntryView::Snapshot(
        ShardStatView {
            current_size: v.current_size,
            max_size: v.max_size,
            used_pct: pct_spec(v.current_size, v.max_size),
            file_count: v.order.len() as usize,
            files: v.order,
        },
    )
}

/// The report rows a sequence of shards produces when none is contended.
pub open spec fn snapshot_rows(shards: Seq<ShardView>) -> Seq<StatEntryView> {
    shards.map_values(|v: ShardView| snapshot_of(v))
}

/// Inspect one shard for the snapshot.
pub fn snapshot_shard(shard: &DiskCache) -> (st: ShardStat)
    ensures
        st@ == snapshot_of(shard@)->Snapshot_0,
{
    let files = shard.files();
    let count = files.len();
    proof {
        assert(seq_views(files@).len() == shard@.order.len());
    }
    ShardStat {
        current_size: shard.size(),
        max_size: shard.capacity(),
        used_pct: used_pct(shard.size(), shard.capacity()),
        file_count: count,
        files,
    }
}

/// The filenames of a report row, comma separated, first `k` names.
pub open spec fn join_upto(files: Seq<Seq<char>>, k: int) -> Seq<char>
    decreases k,
{
    if k <= 0 {
        Seq::empty()
    } else if k == 1 {
        files[0]
    } else {
        join_upto(files, k - 1) + ", "@ + files[k - 1]
    }
}

/// The text of one report row.
pub open spec fn entry_line_spec(e: StatEntryView, idx: int) -> Seq<char> {
    match e {
        StatEntryView::Snapshot(s) => "Shard "@ + dec_str(idx as nat) + ": size="@ + dec_str(
            s.current_size as nat,
        ) + "/"@ + dec_str(s.max_size as nat) + " used="@ + dec_str(s.used_pct as nat) + "% files="@
            + dec_str(s.file_count as nat) + " ["@ + join_upto(s.files, s.files.len() as int)
            + "]\n"@,
        StatEntryView::Contended => "Timeout while trying to lock shard "@ + dec_str(idx as nat)
            + "\n"@,
    }
}

/// The first `k` report rows, in order.
pub open spec fn lines_upto(entries: Seq<StatEntryView>, k: int) -> Seq<char>
    decreases k,
{
    if k <= 0 {
        Seq::empty()
    } else {
        lines_upto(entries, k - 1) + entry_line_spec(entries[k - 1], k - 1)
    }
}

/// The whole report: a timestamped header, then one row per shard.
pub open spec fn stats_text_spec(ts: Seq<char>, entries: Seq<StatEntryView>) -> Seq<char> {
    "Cache Stats at "@ + ts + "\n"@ + lines_upto(entries, entries.len() as int)
}

/// The text of one shard's report row.
fn snapshot_line(idx: u64, st: &ShardStat) -> (r: String)
    ensures
        r@ == entry_line_spec(StatEntryView::Snapshot(st@), idx as int),
{
    let mut r = String::from_str("Shard ");
    let d = u64_to_dec(idx);
    r.append(d.as_str());
    r.append(": size=");
    let d = u64_to_dec(st.current_size);
    r.append(d.as_str());
    r.append("/");
    let d = u64_to_dec(st.max_size);
    r.append(d.as_str());
    r.append(" used=");
    let d = u64_to_dec(st.used_pct);
    r.append(d.as_str());
    r.append("% files=");
    let d = u64_to_dec(st.file_count as u64);
    r.append(d.as_str());
    r.append(" [");
    let n = st.files.len();
    let mut k: usize = 0;
    while k < n
        invariant
            k <= n,
            n == st.files@.len(),
            r@ == "Shard "@ + dec_str(idx as nat) + ": size="@ + dec_str(st.current_size as nat)
                + "/"@ + dec_str(st.max_size as nat) + " used="@ + dec_str(st.used_pct as nat)
                + "% files="@ + dec_str(st.file_count as nat) + " ["@ + join_upto(
                st@.files,
                k as int,
            ),
        decreases n - k,
    {
        if k > 0 {
            r.append(", ");
        }
        r.append(st.files[k].as_str());
        proof {
            assert(st.files@[k as int]@ == st@.files[k as int]);
            assert(r@ =~= "Shard "@ + dec_str(idx as nat) + ": size="@ + dec_str(
                st.current_size as nat,
            ) + "/"@ + dec_str(st.max_size as nat) + " used="@ + dec_str(st.used_pct as nat)
                + "% files="@ + dec_str(st.file_count as nat) + " ["@ + join_upto(
                st@.files,
                k + 1,
            ));
        }
        k = k + 1;
    }
    r.append("]\n");
    proof {
        assert(st@.files.len() == st.files@.len());
        assert(r@ =~= entry_line_spec(StatEntryView::Snapshot(st@), idx as int));
    }
    r
}

/// The text of a contended row.
fn contended_line(idx: u64) -> (r: String)
    ensures
        r@ == entry_line_spec(StatEntryView::Contended, idx as int),
{
    let mut r = String::from_str("Timeout while trying to lock shard ");
    let d = u64_to_dec(idx);
    r.append(d.as_str());
    r.append("\n");
    proof {
        assert(r@ =~= entry_line_spec(StatEntryView::Contended, idx as int));
    }
    r
}

/// Render the snapshot rows into the textual report, under the given
/// header timestamp.
pub fn render_stats(timestamp: &String, entries: &Vec<StatEntry>) -> (r: String)
    requires
        entries@.len() <= u64::MAX,
    ensures
        r@ == stats_text_spec(timestamp@, stat_entry_views(entries@)),
{
    let ghost ev = stat_entry_views(entries@);
    let mut r = String::from_str("Cache Stats at ");
    r.append(timestamp.as_str());
    r.append("\n");
    let n = entries.len();
    let mut i: usize = 0;
    while i < n
        invariant
            i <= n,
            n == entries@.len(),
            ev == stat_entry_views(entries@),
            r@ == "Cache Stats at "@ + timestamp@ + "\n"@ + lines_upto(ev, i as int),
        decreases n - i,
    {
        proof {
            assert(ev[i as int] == entries@[i as int]@);
        }
        let line = match &entries[i] {
            StatEntry::Snapshot(st) => snapshot_line(i as u64, st),
            StatEntry::Contended => contended_line(i as u64),
        };
        r.append(line.as_str());
        proof {
            assert(r@ =~= "Cache Stats at "@ + timestamp@ + "\n"@ + lines_upto(ev, i + 1));
        }
        i = i + 1;
    }
    proof {
        assert(r@ =~= stats_text_spec(timestamp@, ev));
    }
    r
}

/// Relies on chrono's `Utc::now` and `DateTime::to_rfc3339` for the report
/// header.  The value comes from the system clock, so nothing is promised
/// of it; the rest of the report is rendered by verified code that takes
/// the timestamp as an argument.
#[verifier::external_body]
pub fn current_timestamp_rfc3339() -> (r: String) {
    chrono::Utc::now().to_rfc3339()
}

} // verus!
