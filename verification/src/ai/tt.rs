//! A lock-free transposition table. Each slot holds a key word and a data
//! word, each written with its own atomic store and no lock; a reader that
//! catches a slot half-written sees a key that does not match and treats it
//! as a miss.
use std::sync::atomic::{AtomicU64, Ordering};
use vstd::prelude::*;

verus! {

/// What a stored score says of the position's value.
#[derive(Clone, Copy, Debug, PartialEq, Eq, Structural)]
pub enum NodeType {
    /// The score is the value.
    Exact,
    /// The search failed high (beta cutoff): the value is at least the score.
    LowerBound,
    /// The search failed low (alpha cutoff): the value is at most the score.
    UpperBound,
}

/// The two bits a node type is stored as.
pub open spec fn node_type_code(node_type: NodeType) -> u64 {
    match node_type {
        NodeType::Exact => 0,
        NodeType::LowerBound => 1,
        NodeType::UpperBound => 2,
    }
}

/// The node type stored as the two bits `code`; the unused code 3 reads as exact.
pub open spec fn node_type_of(code: u8) -> NodeType {
    if code == 1 {
        NodeType::LowerBound
    } else if code == 2 {
        NodeType::UpperBound
    } else {
        NodeType::Exact
    }
}

/// A data word: bits 0-31 hold the score (as `u32`), bits 32-39 the depth,
/// bits 40-41 the node type, and bit 42 is set to mark the slot as written
/// (a slot never written holds zero).
pub fn pack(score: i32, depth: u8, node_type: NodeType) -> (raw: u64)
    ensures
        raw == (score as u32 as u64) | ((depth as u64) << 32u64) | (node_type_code(node_type) << 40u64)
            | (1u64 << 42u64),
{
    let nt: u64 = match node_type {
        NodeType::Exact => 0,
        NodeType::LowerBound => 1,
        NodeType::UpperBound => 2,
    };
    (score as u32 as u64) | ((depth as u64) << 32u64) | (nt << 40u64) | (1u64 << 42u64)
}

/// What a data word reads as at `min_depth`: nothing if it was never
/// written or was stored at a depth below `min_depth`, else its score and
/// node type.
pub open spec fn unpack_result(raw: u64, min_depth: u8) -> Option<(i32, NodeType)> {
    if (raw >> 42u64) & 1u64 == 0 || ((raw >> 32u64) as u8) < min_depth {
        None
    } else {
        Some((raw as i32, node_type_of(((raw >> 40u64) as u8) & 3u8)))
    }
}

/// Reads a data word (see [`unpack_result`]).
pub fn unpack(raw: u64, min_depth: u8) -> (r: Option<(i32, NodeType)>)
    ensures
        r == unpack_result(raw, min_depth),
{
    if (raw >> 42u64) & 1u64 == 0 || ((raw >> 32u64) as u8) < min_depth {
        return None;
    }
    let score = raw as i32;
    let node_type = match ((raw >> 40u64) as u8) & 3u8 {
        1 => NodeType::LowerBound,
        2 => NodeType::UpperBound,
        _ => NodeType::Exact,
    };
    Some((score, node_type))
}

/// A data word reads back what was packed into it: the score (negative
/// ones too) and the node type, wherever the depth asked for is at most the
/// stored one.
pub proof fn law_unpack_packs(score: i32, depth: u8, node_type: NodeType, min_depth: u8)
    ensures
        unpack_result(
            (score as u32 as u64) | ((depth as u64) << 32u64) | (node_type_code(node_type) << 40u64)
                | (1u64 << 42u64),
            min_depth,
        ) == if depth < min_depth {
            None
        } else {
            Some((score, node_type))
        },
{
    let c = node_type_code(node_type);
    let raw = (score as u32 as u64) | ((depth as u64) << 32u64) | (c << 40u64) | (1u64 << 42u64);
    assert(c < 4 ==> ((raw >> 32u64) as u8) == depth && (raw as i32) == score && (((raw
        >> 40u64) as u8) & 3u8) == (c as u8) && (raw >> 42u64) & 1u64 == 1u64) by (bit_vector)
        requires
            raw == (score as u32 as u64) | ((depth as u64) << 32u64) | (c << 40u64) | (1u64 << 42u64),
    ;
}

/// A slot never written (all zero) reads as nothing.
pub proof fn law_unwritten_slot_misses(min_depth: u8)
    ensures
        unpack_result(0, min_depth) is None,
{
    assert((0u64 >> 42u64) & 1u64 == 0) by (bit_vector);
}

/// What a search that scored `best` tells of the position's value, searched
/// within a window whose lower end was `alpha` on entry and whose upper
/// end is `beta`: at most `best` if it did not rise above `alpha`, at least
/// `best` if it reached `beta`, else exactly `best`.
pub open spec fn node_type_for(best: i32, alpha: i32, beta: i32) -> NodeType {
    if best <= alpha {
        NodeType::UpperBound
    } else if best >= beta {
        NodeType::LowerBound
    } else {
        NodeType::Exact
    }
}

/// The node type to store for a search result (see [`node_type_for`]).
pub fn classify(best: i32, alpha: i32, beta: i32) -> (nt: NodeType)
    ensures
        nt == node_type_for(best, alpha, beta),
{
    if best <= alpha {
        NodeType::UpperBound
    } else if best >= beta {
        NodeType::LowerBound
    } else {
        NodeType::Exact
    }
}

/// A table of `mask + 1` slots, a power of two.
pub struct TT {
    keys: Vec<AtomicU64>,
    data: Vec<AtomicU64>,
    mask: u64,
}

impl TT {
    #[verifier::type_invariant]
    spec fn slots_match(self) -> bool {
        &&& self.keys.len() == self.data.len()
        &&& self.keys.len() == self.mask + 1
    }

    /// The number of slots.
    pub closed spec fn size(self) -> nat {
        self.keys.len() as nat
    }

    /// A table of `2^size_log2` empty slots.
    pub fn new(size_log2: u8) -> (tt: Self)
        requires
            size_log2 < 32,
        ensures
            tt.size() == (1u64 << size_log2) as nat,
    {
        let size: usize = 1usize << size_log2;
        proof {
            assert(1usize << size_log2 >= 1) by (bit_vector)
                requires
                    size_log2 < 32,
            ;
        }
        let mut keys: Vec<AtomicU64> = Vec::new();
        let mut data: Vec<AtomicU64> = Vec::new();
        let mut i: usize = 0;
        while i < size
            invariant
                i <= size,
                keys.len() == i,
                data.len() == i,
            decreases size - i,
        {
            keys.push(AtomicU64::new(0));
            data.push(AtomicU64::new(0));
            i = i + 1;
        }
        let mask = (size - 1) as u64;
        proof {
            assert((1usize << size_log2) as u64 == 1u64 << size_log2) by (bit_vector)
                requires
                    size_log2 < 32,
            ;
        }
        TT { keys, data, mask }
    }

    /// The slot of a position's hash: its low bits.
    fn slot(&self, hash: u64) -> (idx: usize)
        ensures
            idx < self.keys.len(),
            idx == hash & self.mask,
    {
        proof {
            use_type_invariant(self);
            let m = self.mask;
            assert(hash & m <= m) by (bit_vector);
        }
        (hash & self.mask) as usize
    }

    /// Looks a position up: nothing on a miss (another key, or a slot caught
    /// half-written), else the stored word read by [`unpack`] at `min_depth`.
    pub fn lookup(&self, hash: u64, min_depth: u8) -> (r: Option<(i32, NodeType)>)
        ensures
            r is Some ==> exists|raw: u64| r == unpack_result(raw, min_depth),
    {
        let idx = self.slot(hash);
        proof {
            use_type_invariant(self);
        }
        if self.keys[idx].load(Ordering::Relaxed) != hash {
            return None;
        }
        let raw = self.data[idx].load(Ordering::Relaxed);
        let r = unpack(raw, min_depth);
        assert(r == unpack_result(raw, min_depth));
        r
    }

    /// Stores a score for a position, overwriting its slot: the data word
    /// first, then the key.
    pub fn store(&self, hash: u64, score: i32, depth: u8, node_type: NodeType) {
        let idx = self.slot(hash);
        proof {
            use_type_invariant(self);
        }
        let raw = pack(score, depth, node_type);
        self.data[idx].store(raw, Ordering::Relaxed);
        self.keys[idx].store(hash, Ordering::Relaxed);
    }
}

} // verus!
