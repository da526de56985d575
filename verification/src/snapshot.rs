//! Cycle detection remembers states as numbers: a snapshot's five fields are
//! packed into one key, and different valid snapshots have different keys.

use crate::encoding::{
    lemma_pow16, lemma_pow16_monotone, lemma_value_bound, lemma_value_injective, pow16,
    spec_value, valid_program,
};
use crate::machine::{Snapshot, QT4004};
use vstd::prelude::*;
use vstd::relations::injective_on;
use vstd::set_lib::{lemma_int_range, lemma_len_subset, lemma_map_size, set_int_range};

verus! {

/// One more than the largest key: `17 * 16^3 * 16^16`.
pub const STATE_LIMIT: u128 = 0x1_1000_0000_0000_0000_0000;

/// `16^16`, the number of memory contents.
pub const MEMORY_LIMIT: u128 = 0x1_0000_0000_0000_0000;

impl Snapshot {
    /// The fields are in the ranges that a running machine keeps them in.
    pub open spec fn valid(self) -> bool {
        &&& 0 <= self.is < 16
        &&& 0 <= self.ip <= 16
        &&& 0 <= self.r0 < 16
        &&& 0 <= self.r1 < 16
        &&& valid_program(self.memory)
    }

    /// Registers and pointer as one number.
    pub open spec fn head(self) -> int {
        self.r1 + 16 * (self.r0 + 16 * (self.is + 16 * self.ip))
    }

    /// The snapshot as one number: the memory read as sixteen base-16
    /// digits, and above it registers and pointer.
    pub open spec fn key(self) -> int {
        spec_value(self.memory) + MEMORY_LIMIT * self.head()
    }
}

/// A set of visited states: finitely many, each valid.
pub open spec fn visited_ok(seen: Set<Snapshot>) -> bool {
    seen.finite() && forall|s: Snapshot| seen.contains(s) ==> s.valid()
}

/// How many states remain to be visited, at most.
pub open spec fn unvisited(seen: Set<Snapshot>) -> nat {
    if seen.len() <= STATE_LIMIT {
        (STATE_LIMIT - seen.len()) as nat
    } else {
        0
    }
}

/// A valid snapshot's key is below `STATE_LIMIT`.
pub proof fn lemma_key_bound(s: Snapshot)
    requires
        s.valid(),
    ensures
        0 <= s.key() < STATE_LIMIT,
        0 <= spec_value(s.memory) < MEMORY_LIMIT,
        0 <= s.head() < 0x1_1000,
{
    lemma_value_bound(s.memory);
    lemma_pow16(16);
}

/// Valid snapshots with the same key are the same snapshot.
pub proof fn lemma_key_injective(a: Snapshot, b: Snapshot)
    requires
        a.valid(),
        b.valid(),
        a.key() == b.key(),
    ensures
        a == b,
{
    lemma_key_bound(a);
    lemma_key_bound(b);
    let va = spec_value(a.memory) as int;
    let vb = spec_value(b.memory) as int;
    let ha = a.head();
    let hb = b.head();
    assert(va + MEMORY_LIMIT * ha == vb + MEMORY_LIMIT * hb);
    assert(ha == hb && va == vb) by {
        if ha < hb {
            assert(MEMORY_LIMIT * hb >= MEMORY_LIMIT * ha + MEMORY_LIMIT);
        } else if hb < ha {
            assert(MEMORY_LIMIT * ha >= MEMORY_LIMIT * hb + MEMORY_LIMIT);
        }
    }
    lemma_value_injective(a.memory, b.memory);
    assert(a.r1 == b.r1);
    assert(a.r0 == b.r0);
    assert(a.is == b.is);
    assert(a.ip == b.ip);
}

/// No more than `STATE_LIMIT` valid snapshots exist, so no set of visited
/// states is larger.
pub proof fn lemma_visited_bound(seen: Set<Snapshot>)
    requires
        visited_ok(seen),
    ensures
        seen.len() <= STATE_LIMIT,
{
    let f = |s: Snapshot| s.key();
    let keys = seen.map(f);
    assert(injective_on(f, seen)) by {
        assert forall|x1: Snapshot, x2: Snapshot|
            seen.contains(x1) && seen.contains(x2) && #[trigger] f(x1) == #[trigger] f(
                x2,
            ) implies x1 == x2 by {
            lemma_key_injective(x1, x2);
        }
    }
    lemma_map_size(seen, keys, f);
    let all = set_int_range(0, STATE_LIMIT as int);
    lemma_int_range(0, STATE_LIMIT as int);
    assert(keys.subset_of(all)) by {
        assert forall|k: int| keys.contains(k) implies all.contains(k) by {
            let s = choose|s: Snapshot| seen.contains(s) && k == f(s);
            lemma_key_bound(s);
        }
    }
    lemma_len_subset(keys, all);
}

/// Visiting one more valid state leaves one state less to visit.
pub proof fn lemma_visit(seen: Set<Snapshot>, s: Snapshot)
    requires
        visited_ok(seen),
        s.valid(),
        !seen.contains(s),
    ensures
        visited_ok(seen.insert(s)),
        unvisited(seen.insert(s)) < unvisited(seen),
{
    lemma_visited_bound(seen);
    lemma_visited_bound(seen.insert(s));
}

impl QT4004 {
    /// The key of the machine's present state.
    pub fn state_key(&self) -> (key: u128)
        requires
            self@.wf(),
        ensures
            key == self@.snapshot().key(),
            key < STATE_LIMIT,
    {
        let mut code: u128 = 0;
        let mut i: usize = 16;
        proof {
            assert(self.memory@.subrange(16, 16) =~= Seq::<i8>::empty());
            lemma_pow16(0);
        }
        while i > 0
            invariant
                i <= 16,
                valid_program(self.memory@),
                code == spec_value(self.memory@.subrange(i as int, 16)),
                code < pow16((16 - i) as nat),
            decreases i,
        {
            proof {
                lemma_pow16_monotone((16 - i) as nat, 15);
                lemma_pow16((16 - i) as nat);
                lemma_pow16(15);
                lemma_pow16(16);
                assert(self.memory@.subrange(i - 1, 16).drop_first() =~= self.memory@.subrange(
                    i as int,
                    16,
                ));
            }
            i -= 1;
            code = code * 16 + self.memory[i] as u128;
        }
        proof {
            assert(self.memory@.subrange(0, 16) =~= self.memory@);
            lemma_key_bound(self@.snapshot());
        }
        let head: u128 = self.r1 as u128 + 16 * (self.r0 as u128 + 16 * (self.is as u128 + 16
            * self.ip as u128));
        code + MEMORY_LIMIT * head
    }
}

} // verus!
