//! The two independent hash domains of the cache: local shard placement and
//! cluster slot placement.  Both are simple polynomial rolling hashes over
//! the uid's characters; they only need to be deterministic and to differ
//! from one another.

use vstd::prelude::*;

verus! {

/// Number of cluster hash slots a slot map assigns to nodes.
pub open const SLOT_COUNT: u64 = 16384;

/// Prime modulus keeping every intermediate hash value far below `u64::MAX`.
pub open const HASH_MODULUS: u64 = 1_000_000_007;

/// Rolling hash used for local shard placement.
pub open spec fn shard_hash_spec(s: Seq<char>) -> u64
    decreases s.len(),
{
    if s.len() == 0 {
        7u64
    } else {
        ((shard_hash_spec(s.drop_last()) * 31 + (s.last() as u32)) % (HASH_MODULUS as int)) as u64
    }
}

/// Rolling hash used for cluster slot placement; a different multiplier and
/// seed keep the two placement domains independent.
pub open spec fn cluster_hash_spec(s: Seq<char>) -> u64
    decreases s.len(),
{
    if s.len() == 0 {
        97u64
    } else {
        ((cluster_hash_spec(s.drop_last()) * 131 + (s.last() as u32)) % (HASH_MODULUS as int)) as u64
    }
}

/// The cluster slot a uid belongs to.
pub open spec fn cluster_slot_spec(s: Seq<char>) -> u64 {
    cluster_hash_spec(s) % SLOT_COUNT
}

/// Local shard placement hash of a uid.
pub fn shard_hash(uid: &String) -> (h: u64)
    ensures
        h == shard_hash_spec(uid@),
        h < HASH_MODULUS,
{
    let s = uid.as_str();
    let n = s.unicode_len();
    let mut h: u64 = 7;
    let mut i: usize = 0;
    proof {
        assert(uid@.take(0) =~= Seq::<char>::empty());
    }
    while i < n
        invariant
            i <= n,
            n == uid@.len(),
            s@ == uid@,
            h == shard_hash_spec(uid@.take(i as int)),
            h < HASH_MODULUS,
        decreases n - i,
    {
        let c = s.get_char(i);
        h = (h * 31 + (c as u32) as u64) % HASH_MODULUS;
        proof {
            assert(uid@.take(i + 1).drop_last() =~= uid@.take(i as int));
            assert(uid@.take(i + 1).last() == uid@[i as int]);
        }
        i = i + 1;
    }
    proof {
        assert(uid@.take(n as int) =~= uid@);
    }
    h
}

/// Cluster slot of a uid; always below `SLOT_COUNT`.
pub fn cluster_slot(uid: &String) -> (slot: u64)
    ensures
        slot == cluster_slot_spec(uid@),
        slot < SLOT_COUNT,
{
    let s = uid.as_str();
    let n = s.unicode_len();
    let mut h: u64 = 97;
    let mut i: usize = 0;
    proof {
        assert(uid@.take(0) =~= Seq::<char>::empty());
    }
    while i < n
        invariant
            i <= n,
            n == uid@.len(),
            s@ == uid@,
            h == cluster_hash_spec(uid@.take(i as int)),
            h < HASH_MODULUS,
        decreases n - i,
    {
        let c = s.get_char(i);
        h = (h * 131 + (c as u32) as u64) % HASH_MODULUS;
        proof {
            assert(uid@.take(i + 1).drop_last() =~= uid@.take(i as int));
            assert(uid@.take(i + 1).last() == uid@[i as int]);
        }
        i = i + 1;
    }
    proof {
        assert(uid@.take(n as int) =~= uid@);
    }
    h % SLOT_COUNT
}

} // verus!
