//! Simulated work: a hash chain whose length follows the requested budget.
use vstd::prelude::*;

verus! {

/// The number of compute units that one round of hashing stands for.
pub const UNITS_PER_ROUND: u32 = 5000;

/// The Keccak-256 digest of a byte string, as `solana_program::keccak::hashv`
/// computes it.
pub uninterp spec fn keccak256(data: Seq<u8>) -> Seq<u8>;

/// The seed of every hash chain: thirty-two zero bytes.
pub open spec fn zero_seed() -> Seq<u8> {
    Seq::new(32, |i: int| 0u8)
}

/// The value of the hash chain after `rounds` rounds.
pub open spec fn hash_chain(rounds: nat) -> Seq<u8>
    decreases rounds,
{
    if rounds == 0 {
        zero_seed()
    } else {
        keccak256(hash_chain((rounds - 1) as nat))
    }
}

/// The number of hashing rounds that a budget of `compute_units` pays for.
pub open spec fn rounds_for(compute_units: u32) -> nat {
    (compute_units / UNITS_PER_ROUND) as nat
}

/// A budget below one round pays for no hashing: the fingerprint is the seed.
pub proof fn lemma_no_full_round(compute_units: u32)
    requires
        compute_units < UNITS_PER_ROUND,
    ensures
        rounds_for(compute_units) == 0,
        hash_chain(rounds_for(compute_units)) == zero_seed(),
{
}

/// Budgets that pay for the same number of rounds have the same fingerprint.
pub proof fn lemma_fingerprint_by_rounds(a: u32, b: u32)
    requires
        a / UNITS_PER_ROUND == b / UNITS_PER_ROUND,
    ensures
        hash_chain(rounds_for(a)) == hash_chain(rounds_for(b)),
{
}

/// Calls `solana_program::keccak::hashv` on the one slice `input` and takes the
/// digest out of the `Hash` it returns. The digest is trusted to be the
/// Keccak-256 digest of `input`, a function of the bytes alone.
#[verifier::external_body]
fn keccak_digest(input: &[u8; 32]) -> (digest: [u8; 32])
    ensures
        digest@ == keccak256(input@),
{
    solana_program::keccak::hashv(&[input]).0
}

/// The number of hashing rounds that a budget of `compute_units` pays for: one
/// for every full 5000 units.
pub fn mixing_rounds(compute_units: u32) -> (rounds: u32)
    ensures
        rounds == rounds_for(compute_units),
        rounds == compute_units / 5000,
{
    compute_units / UNITS_PER_ROUND
}

/// Burns `compute_units` of simulated work and returns the fingerprint of it:
/// the zero seed, hashed once for every round that the budget pays for, each
/// round hashing the digest of the round before.
pub fn simulate_work(compute_units: u32) -> (hash: [u8; 32])
    ensures
        hash@ == hash_chain(rounds_for(compute_units)),
        compute_units < UNITS_PER_ROUND ==> hash@ == zero_seed(),
{
    let rounds: u32 = mixing_rounds(compute_units);
    let mut hash: [u8; 32] = [0u8; 32];
    let mut done: u32 = 0;
    while done < rounds
        invariant
            done <= rounds,
            hash@ == hash_chain(done as nat),
        decreases rounds - done,
    {
        hash = keccak_digest(&hash);
        done = done + 1;
    }
    hash
}

} // verus!
