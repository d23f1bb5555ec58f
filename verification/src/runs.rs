//! What is drawn per run of the sweep: the RoPE / cache position of a run, and the median
//! by which a kernel's cycle counts over all runs are scored.

use vstd::prelude::*;
use vstd::relations::{sorted_by, total_ordering};
use vstd::seq_lib::{lemma_sorted_unique, to_multiset_insert};
use vstd::utf8::encode_utf8;

use crate::keys::{seed_key, seed_name};
use crate::prng::{fnv1a, mix_word, name_hash, word};

verus! {

/// The position of run `run`: `1 + word(hash("run{run}.global.pos"), 0) mod 2047`.
pub open spec fn run_position(run: nat) -> nat {
    1 + mix_word(fnv1a(encode_utf8(seed_key(run, "global"@, "pos"@))), 0) as nat % 2047
}

/// The RoPE / KV-cache position used by run `run`; never 0, so the rotation is never the
/// identity, and always below 2048.
pub fn pos(run: usize) -> (p: usize)
    ensures
        p == run_position(run as nat),
        1 <= p <= 2047,
{
    let key = seed_name(run, "global", "pos");
    let seed = name_hash(key.as_str());
    1 + (word(seed, 0) % 2047) as usize
}

/// The order cycle counts are ranked by.
pub open spec fn u64_leq() -> spec_fn(u64, u64) -> bool {
    |a: u64, b: u64| a <= b
}

proof fn lemma_u64_leq_total()
    ensures
        total_ordering(u64_leq()),
{
}

/// `values` in ascending order.
fn sorted_copy(values: &[u64]) -> (sorted: Vec<u64>)
    ensures
        sorted@.len() == values@.len(),
        sorted_by(sorted@, u64_leq()),
        sorted@.to_multiset() == values@.to_multiset(),
{
    let mut sorted: Vec<u64> = Vec::new();
    let mut i: usize = 0;
    assert(values@.take(0) =~= sorted@);
    while i < values.len()
        invariant
            i <= values@.len(),
            sorted@.len() == i,
            sorted_by(sorted@, u64_leq()),
            sorted@.to_multiset() == values@.take(i as int).to_multiset(),
        decreases values@.len() - i,
    {
        let x = values[i];
        let mut p: usize = 0;
        while p < sorted.len() && sorted[p] <= x
            invariant
                p <= sorted@.len(),
                forall|j: int| 0 <= j < p ==> sorted@[j] <= x,
            decreases sorted@.len() - p,
        {
            p += 1;
        }
        let ghost before = sorted@;
        sorted.insert(p, x);
        proof {
            to_multiset_insert(before, p as int, x);
            assert(values@.take(i + 1) =~= values@.take(i as int).push(x));
            vstd::seq_lib::to_multiset_build(values@.take(i as int), x);
            assert forall|a: int, b: int| 0 <= a < b < sorted@.len() implies #[trigger] (u64_leq())(
                sorted@[a],
                sorted@[b],
            ) by {
                if b < p {
                    assert(sorted@[a] == before[a] && sorted@[b] == before[b]);
                    assert((u64_leq())(before[a], before[b]));
                } else if b == p {
                    assert(sorted@[a] == before[a]);
                } else if a < p {
                    assert(sorted@[a] == before[a] && sorted@[b] == before[b - 1]);
                    assert(before[a] <= x);
                    if p < before.len() {
                        assert((u64_leq())(before[p as int], before[b - 1]) || p == b - 1);
                    }
                } else if a == p {
                    assert(sorted@[b] == before[b - 1]);
                    assert(before[p as int] > x);
                    if p < b - 1 {
                        assert((u64_leq())(before[p as int], before[b - 1]));
                    }
                } else {
                    assert(sorted@[a] == before[a - 1] && sorted@[b] == before[b - 1]);
                    assert((u64_leq())(before[a - 1], before[b - 1]));
                }
            }
        }
        i += 1;
    }
    assert(values@.take(values@.len() as int) =~= values@);
    sorted
}

/// The middle value of `values` in ascending order: element `len / 2` of the sorted values,
/// the median when the count is odd.
pub fn median(values: &[u64]) -> (m: u64)
    requires
        values@.len() > 0,
    ensures
        m == values@.sort_by(u64_leq())[(values@.len() / 2) as int],
{
    let sorted = sorted_copy(values);
    proof {
        lemma_u64_leq_total();
        values@.lemma_sort_by_ensures(u64_leq());
        lemma_sorted_unique(sorted@, values@.sort_by(u64_leq()), u64_leq());
    }
    sorted[sorted.len() / 2]
}

} // verus!
