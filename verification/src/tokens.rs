//! Deterministic splitting of a token sequence into fixed-size blocks and
//! their content hashes.
//!
//! A request's tokens are cut into complete blocks of `block_size` tokens
//! plus a trailing partial block. Each complete block gets a sequence-context
//! hash: a chained hash over every token from the start of the sequence up to
//! the end of that block, seeded with a fixed seed. Identical token prefixes
//! therefore always produce identical hash sequences for the blocks they
//! cover, which is what lets the index match cache content across requests.

use vstd::prelude::*;
use crate::protocols::LocalBlockHash;

verus! {

/// The fixed seed the router hashes with.
pub const BLOCK_HASH_SEED: u64 = 1337;

/// Multiplier of the chained hash step.
pub const HASH_MULTIPLIER: u64 = 0x100000001b3;

/// One step of the chained hash: fold the next token into the running state.
pub open spec fn spec_combine(h: u64, t: u32) -> u64 {
    (h ^ (t as u64)).wrapping_mul(HASH_MULTIPLIER)
}

/// The running hash state after consuming a whole token sequence.
pub open spec fn spec_chain_hash(tokens: Seq<u32>, seed: u64) -> u64
    decreases tokens.len(),
{
    if tokens.len() == 0 {
        seed
    } else {
        spec_combine(spec_chain_hash(tokens.drop_last(), seed), tokens.last())
    }
}

/// The hashes of the complete blocks of a token sequence: block `i` is hashed
/// over all tokens up to and including its own, so the hash carries the full
/// sequence context.
pub open spec fn spec_block_hashes(tokens: Seq<u32>, block_size: int, seed: u64) -> Seq<u64>
    recommends
        block_size >= 1,
{
    Seq::new(
        (tokens.len() as int / block_size) as nat,
        |i: int| spec_chain_hash(tokens.take((i + 1) * block_size), seed),
    )
}

fn combine(h: u64, t: u32) -> (r: u64)
    ensures
        r == spec_combine(h, t),
{
    (h ^ (t as u64)).wrapping_mul(HASH_MULTIPLIER)
}

/// Split a token sequence into the hashes of its complete blocks plus the
/// trailing partial block of fewer than `block_size` tokens.
pub fn split_tokens(tokens: &[u32], block_size: usize, seed: u64) -> (r: (
    Vec<LocalBlockHash>,
    Vec<u32>,
))
    requires
        block_size >= 1,
    ensures
        r.0@.map_values(|b: LocalBlockHash| b.0) == spec_block_hashes(
            tokens@,
            block_size as int,
            seed,
        ),
        r.1@ == tokens@.skip(r.0@.len() * block_size as int),
        r.0@.len() == tokens@.len() as int / block_size as int,
        r.0@.len() * block_size as int <= tokens@.len(),
        r.1@.len() < block_size,
{
    let n = tokens.len();
    let mut out: Vec<LocalBlockHash> = Vec::new();
    let mut state = seed;
    let mut i: usize = 0;
    let mut blocks: usize = 0;
    let mut rem: usize = 0;
    while i < n
        invariant
            i <= n,
            n == tokens@.len(),
            block_size >= 1,
            i == blocks * block_size + rem,
            rem < block_size,
            state == spec_chain_hash(tokens@.take(i as int), seed),
            out@.len() == blocks,
            forall|j: int|
                0 <= j < blocks ==> out@[j].0 == spec_chain_hash(
                    tokens@.take((j + 1) * block_size as int),
                    seed,
                ),
        decreases n - i,
    {
        assert(tokens@.take(i + 1).drop_last() =~= tokens@.take(i as int));
        assert(tokens@.take(i + 1).last() == tokens@[i as int]);
        state = combine(state, tokens[i]);
        i = i + 1;
        if rem + 1 == block_size {
            proof {
                assert((blocks + 1) * block_size as int == blocks * block_size as int
                    + block_size as int) by (nonlinear_arith);
                assert(blocks <= blocks * block_size as int) by (nonlinear_arith)
                    requires
                        block_size >= 1,
                        blocks >= 0,
                ;
            }
            out.push(LocalBlockHash(state));
            blocks = blocks + 1;
            rem = 0;
        } else {
            rem = rem + 1;
        }
    }
    proof {
        vstd::arithmetic::div_mod::lemma_fundamental_div_mod_converse(
            n as int,
            block_size as int,
            blocks as int,
            rem as int,
        );
    }
    let start = i - rem;
    let mut partial: Vec<u32> = Vec::new();
    let mut k = start;
    while k < n
        invariant
            start <= k <= n,
            n == tokens@.len(),
            partial@ == tokens@.subrange(start as int, k as int),
        decreases n - k,
    {
        partial.push(tokens[k]);
        assert(partial@ =~= tokens@.subrange(start as int, k + 1));
        k = k + 1;
    }
    proof {
        assert(partial@ =~= tokens@.skip(blocks * block_size as int));
        assert(out@.map_values(|b: LocalBlockHash| b.0) =~= spec_block_hashes(
            tokens@,
            block_size as int,
            seed,
        ));
    }
    (out, partial)
}

/// Splitting is deterministic: the same token sequence with the same block
/// size and seed always yields the same block-hash sequence, so two requests
/// sharing tokens agree about their blocks' identities.
pub proof fn lemma_split_deterministic(
    h1: Seq<u64>,
    h2: Seq<u64>,
    tokens: Seq<u32>,
    block_size: int,
    seed: u64,
)
    requires
        h1 == spec_block_hashes(tokens, block_size, seed),
        h2 == spec_block_hashes(tokens, block_size, seed),
    ensures
        h1 == h2,
{
}

/// Requests sharing a token prefix up to a block boundary share the hashes of
/// every block inside that prefix.
pub proof fn lemma_shared_prefix_shared_hashes(
    t1: Seq<u32>,
    t2: Seq<u32>,
    block_size: int,
    seed: u64,
    m: int,
)
    requires
        block_size >= 1,
        0 <= m * block_size <= t1.len(),
        m * block_size <= t2.len(),
        t1.take(m * block_size) == t2.take(m * block_size),
    ensures
        forall|j: int|
            0 <= j < m ==> spec_block_hashes(t1, block_size, seed)[j] == spec_block_hashes(
                t2,
                block_size,
                seed,
            )[j],
{
    assert forall|j: int| 0 <= j < m implies spec_block_hashes(t1, block_size, seed)[j]
        == spec_block_hashes(t2, block_size, seed)[j] by {
        assert((j + 1) * block_size <= m * block_size) by (nonlinear_arith)
            requires
                j + 1 <= m,
                block_size >= 1,
        ;
        assert(0 <= (j + 1) * block_size) by (nonlinear_arith)
            requires
                0 <= j + 1,
                block_size >= 1,
        ;
        assert(t1.take((j + 1) * block_size) =~= t1.take(m * block_size).take(
            (j + 1) * block_size,
        ));
        assert(t2.take((j + 1) * block_size) =~= t2.take(m * block_size).take(
            (j + 1) * block_size,
        ));
        assert(j < t1.len() as int / block_size && j < t2.len() as int / block_size)
            by (nonlinear_arith)
            requires
                0 <= j < m,
                block_size >= 1,
                m * block_size <= t1.len(),
                m * block_size <= t2.len(),
        ;
    }
}

} // verus!
