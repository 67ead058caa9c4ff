//! Counters kept beside execution: retired instructions, the mix of
//! operations, and branch outcomes.

use vstd::prelude::*;
use std::time::Instant;
use crate::decoder::{Instruction, Opcode, NUM_OPCODES};

verus! {

/// The clock reading of `std::time::Instant`, carried through opaquely.
#[verifier::external_type_specification]
#[verifier::external_body]
pub struct ExInstant(Instant);

/// Calls `Instant::now`. Nothing is claimed of the reading.
#[verifier::external_body]
fn clock_now() -> Instant {
    Instant::now()
}

/// The sum of a sequence of counters.
pub open spec fn total(counts: Seq<u64>) -> nat
    decreases counts.len(),
{
    if counts.len() == 0 {
        0
    } else {
        total(counts.drop_last()) + counts.last() as nat
    }
}

/// The counters of the four conditional branches, added up.
pub open spec fn branch_total(counts: Seq<u64>) -> nat
    recommends
        counts.len() == NUM_OPCODES,
{
    (counts[Opcode::Beq.index_spec()] + counts[Opcode::Bne.index_spec()]
        + counts[Opcode::Blt.index_spec()] + counts[Opcode::Bge.index_spec()]) as nat
}

/// Replacing one counter changes the sum by the difference.
pub proof fn lemma_total_update(counts: Seq<u64>, i: int, v: u64)
    requires
        0 <= i < counts.len(),
    ensures
        total(counts.update(i, v)) == total(counts) - counts[i] + v,
    decreases counts.len(),
{
    let updated = counts.update(i, v);
    if i == counts.len() - 1 {
        assert(updated.drop_last() =~= counts.drop_last());
    } else {
        lemma_total_update(counts.drop_last(), i, v);
        assert(updated.drop_last() =~= counts.drop_last().update(i, v));
    }
}

/// No counter exceeds the sum.
pub proof fn lemma_total_bounds(counts: Seq<u64>, i: int)
    requires
        0 <= i < counts.len(),
    ensures
        counts[i] <= total(counts),
    decreases counts.len(),
{
    if i < counts.len() - 1 {
        lemma_total_bounds(counts.drop_last(), i);
    }
}

/// The sum of a prefix does not exceed the sum of the whole.
pub proof fn lemma_total_prefix(counts: Seq<u64>, k: int)
    requires
        0 <= k <= counts.len(),
    ensures
        total(counts.take(k)) <= total(counts),
    decreases counts.len() - k,
{
    if k == counts.len() {
        assert(counts.take(k) =~= counts);
    } else {
        lemma_total_prefix(counts, k + 1);
        assert(counts.take(k + 1).drop_last() =~= counts.take(k));
    }
}

/// A sequence of zeros sums to zero.
pub proof fn lemma_total_zero(counts: Seq<u64>)
    requires
        forall|i: int| 0 <= i < counts.len() ==> counts[i] == 0,
    ensures
        total(counts) == 0,
    decreases counts.len(),
{
    if counts.len() > 0 {
        lemma_total_zero(counts.drop_last());
    }
}

/// The four branch counters together do not exceed the sum.
pub proof fn lemma_branch_total_bounds(counts: Seq<u64>)
    requires
        counts.len() == NUM_OPCODES,
    ensures
        branch_total(counts) <= total(counts),
{
    let b0 = Opcode::Beq.index_spec();
    let c1 = counts.update(b0, 0);
    lemma_total_update(counts, b0, 0);
    let c2 = c1.update(b0 + 1, 0);
    lemma_total_update(c1, b0 + 1, 0);
    let c3 = c2.update(b0 + 2, 0);
    lemma_total_update(c2, b0 + 2, 0);
    let c4 = c3.update(b0 + 3, 0);
    lemma_total_update(c3, b0 + 3, 0);
}

/// Whether the operation at position `i` comes before the one at position
/// `j` in the ranking: it has the higher count, or the same count and the
/// earlier place in the enumeration.
pub open spec fn ranks_before(counts: Seq<u64>, i: int, j: int) -> bool {
    counts[i] > counts[j] || (counts[i] == counts[j] && i < j)
}

/// Whether the operation at position `i` is listed in `r`.
pub open spec fn listed(r: Seq<(Opcode, u64)>, i: int) -> bool {
    exists|k: int| 0 <= k < r.len() && (#[trigger] r[k]).0.index_spec() == i
}

/// `r` ranks the first `n` operations: it lists those among them that have
/// retired at least once, each with its count, the higher count first and
/// equal counts in the order of the enumeration.
pub open spec fn ranks(counts: Seq<u64>, r: Seq<(Opcode, u64)>, n: int) -> bool {
    &&& forall|k: int|
        0 <= k < r.len() ==> (#[trigger] r[k]).0.index_spec() < n && r[k].1
            == counts[r[k].0.index_spec()] && r[k].1 > 0
    &&& forall|a: int, b: int|
        0 <= a < b < r.len() ==> ranks_before(
            counts,
            (#[trigger] r[a]).0.index_spec(),
            (#[trigger] r[b]).0.index_spec(),
        )
    &&& forall|i: int| 0 <= i < n && counts[i] > 0 ==> listed(r, i)
}

/// The counters kept beside execution. They record what ran and have no
/// part in what runs.
pub struct Metrics {
    /// Instructions retired.
    pub inst_count: u64,
    /// Instructions retired of each operation, by `Opcode::index`.
    pub inst_mix: Vec<u64>,
    /// Conditional branches that were taken.
    pub branch_taken: u64,
    /// Conditional branches that fell through.
    pub branch_not_taken: u64,
    /// The wall-clock reading taken by `start`, if any.
    pub start_time: Option<Instant>,
}

impl Metrics {
    /// The mix has one counter for each operation, and they add up to the
    /// count of retired instructions.
    pub open spec fn wf(&self) -> bool {
        &&& self.inst_mix@.len() == NUM_OPCODES
        &&& total(self.inst_mix@) == self.inst_count
    }

    /// Every retired conditional branch was recorded as taken or as not taken.
    pub open spec fn balanced(&self) -> bool {
        self.branch_taken + self.branch_not_taken == branch_total(self.inst_mix@)
    }

    /// The number of retired instructions of operation `op`.
    pub open spec fn mix(&self, op: Opcode) -> nat {
        self.inst_mix@[op.index_spec()] as nat
    }

    /// Whether the counters are well formed and balanced, and `steps` more
    /// instructions can be counted without overflow.
    pub fn has_room(&self, steps: usize) -> (b: bool)
        ensures
            b == (self.wf() && self.balanced() && self.inst_count + steps <= u64::MAX),
    {
        if self.inst_mix.len() != NUM_OPCODES {
            return false;
        }
        let mut sum: u64 = 0;
        let mut i: usize = 0;
        while i < NUM_OPCODES
            invariant
                i <= NUM_OPCODES,
                self.inst_mix@.len() == NUM_OPCODES,
                sum == total(self.inst_mix@.take(i as int)),
            decreases NUM_OPCODES - i,
        {
            proof {
                assert(self.inst_mix@.take(i + 1).drop_last() =~= self.inst_mix@.take(i as int));
                lemma_total_prefix(self.inst_mix@, i + 1);
            }
            let c = self.inst_mix[i];
            if c > u64::MAX - sum {
                return false;
            }
            sum += c;
            i += 1;
        }
        assert(self.inst_mix@.take(NUM_OPCODES as int) =~= self.inst_mix@);
        if sum != self.inst_count {
            return false;
        }
        proof {
            lemma_branch_total_bounds(self.inst_mix@);
        }
        let branches = self.inst_mix[Opcode::Beq.index()] + self.inst_mix[Opcode::Bne.index()]
            + self.inst_mix[Opcode::Blt.index()] + self.inst_mix[Opcode::Bge.index()];
        if self.branch_taken > branches || self.branch_not_taken != branches - self.branch_taken {
            return false;
        }
        steps as u64 <= u64::MAX - self.inst_count
    }

    /// Fresh counters, all zero, with no start time.
    pub fn new() -> (m: Metrics)
        ensures
            m.wf(),
            m.balanced(),
            m.inst_count == 0,
            m.branch_taken == 0,
            m.branch_not_taken == 0,
            forall|i: int| 0 <= i < NUM_OPCODES ==> m.inst_mix@[i] == 0,
            m.start_time is None,
    {
        let m = Metrics {
            inst_count: 0,
            inst_mix: vec![0u64; NUM_OPCODES],
            branch_taken: 0,
            branch_not_taken: 0,
            start_time: None,
        };
        proof {
            lemma_total_zero(m.inst_mix@);
        }
        m
    }

    /// Takes the wall-clock start time. The counters are left as they are.
    pub fn start(&mut self)
        ensures
            final(self).start_time is Some,
            final(self).inst_count == old(self).inst_count,
            final(self).inst_mix == old(self).inst_mix,
            final(self).branch_taken == old(self).branch_taken,
            final(self).branch_not_taken == old(self).branch_not_taken,
    {
        self.start_time = Some(clock_now());
    }

    /// The number of retired instructions of operation `op`.
    pub fn count_of(&self, op: Opcode) -> (n: u64)
        requires
            self.wf(),
        ensures
            n == self.mix(op),
    {
        self.inst_mix[op.index()]
    }

    /// The operations that have retired at least once, each with its count:
    /// the higher count first, equal counts in the order of the enumeration.
    pub fn ranking(&self) -> (r: Vec<(Opcode, u64)>)
        requires
            self.wf(),
        ensures
            ranks(self.inst_mix@, r@, NUM_OPCODES as int),
    {
        let mut out: Vec<(Opcode, u64)> = Vec::new();
        let mut i: usize = 0;
        while i < NUM_OPCODES
            invariant
                i <= NUM_OPCODES,
                self.inst_mix@.len() == NUM_OPCODES,
                ranks(self.inst_mix@, out@, i as int),
            decreases NUM_OPCODES - i,
        {
            let count = self.inst_mix[i];
            if count > 0 {
                let op = Opcode::from_index(i).unwrap();
                let mut p: usize = 0;
                while p < out.len() && out[p].1 >= count
                    invariant
                        p <= out.len(),
                        i < NUM_OPCODES,
                        self.inst_mix@.len() == NUM_OPCODES,
                        count == self.inst_mix@[i as int],
                        ranks(self.inst_mix@, out@, i as int),
                        forall|q: int| 0 <= q < p ==> (#[trigger] out@[q]).1 >= count,
                    decreases out.len() - p,
                {
                    p += 1;
                }
                let ghost before = out@;
                out.insert(p, (op, count));
                proof {
                    let after = out@;
                    let counts = self.inst_mix@;
                    assert forall|k: int| 0 <= k < after.len() implies (#[trigger] after[k]).0.index_spec()
                        < i + 1 && after[k].1 == counts[after[k].0.index_spec()] && after[k].1
                        > 0 by {
                        if k < p {
                            assert(after[k] == before[k]);
                        } else if k > p {
                            assert(after[k] == before[k - 1]);
                        }
                    }
                    assert forall|a: int, b: int| 0 <= a < b < after.len() implies ranks_before(
                        counts,
                        (#[trigger] after[a]).0.index_spec(),
                        (#[trigger] after[b]).0.index_spec(),
                    ) by {
                        if a < p {
                            assert(after[a] == before[a]);
                        } else if a > p {
                            assert(after[a] == before[a - 1]);
                        }
                        if b < p {
                            assert(after[b] == before[b]);
                        } else if b > p {
                            assert(after[b] == before[b - 1]);
                        }
                    }
                    assert forall|j: int| 0 <= j < i + 1 && counts[j] > 0 implies listed(
                        after,
                        j,
                    ) by {
                        if j == i {
                            assert(after[p as int].0.index_spec() == j);
                        } else {
                            assert(listed(before, j));
                            let k = choose|k: int|
                                0 <= k < before.len() && (#[trigger] before[k]).0.index_spec() == j;
                            if k < p {
                                assert(after[k] == before[k]);
                            } else {
                                assert(after[k + 1] == before[k]);
                            }
                        }
                    }
                }
            }
            i += 1;
        }
        out
    }

    /// Counts one retired instruction, in the total and under its operation.
    pub fn record_instruction(&mut self, inst: &Instruction)
        requires
            old(self).wf(),
            old(self).inst_count < u64::MAX,
        ensures
            final(self).wf(),
            final(self).inst_count == old(self).inst_count + 1,
            final(self).inst_mix@ == old(self).inst_mix@.update(
                inst.opcode.index_spec(),
                (old(self).mix(inst.opcode) + 1) as u64,
            ),
            final(self).mix(inst.opcode) == old(self).mix(inst.opcode) + 1,
            final(self).branch_taken == old(self).branch_taken,
            final(self).branch_not_taken == old(self).branch_not_taken,
            final(self).start_time == old(self).start_time,
    {
        let i = inst.opcode.index();
        proof {
            lemma_total_bounds(self.inst_mix@, i as int);
            lemma_total_update(self.inst_mix@, i as int, (self.inst_mix@[i as int] + 1) as u64);
        }
        self.inst_count += 1;
        let n = self.inst_mix[i];
        self.inst_mix[i] = n + 1;
    }

    /// Counts one outcome of a conditional branch.
    pub fn record_branch(&mut self, taken: bool)
        requires
            old(self).branch_taken + old(self).branch_not_taken < u64::MAX,
        ensures
            final(self).branch_taken == old(self).branch_taken + (if taken {
                1int
            } else {
                0int
            }),
            final(self).branch_not_taken == old(self).branch_not_taken + (if taken {
                0int
            } else {
                1int
            }),
            final(self).inst_count == old(self).inst_count,
            final(self).inst_mix == old(self).inst_mix,
            final(self).start_time == old(self).start_time,
    {
        if taken {
            self.branch_taken += 1;
        } else {
            self.branch_not_taken += 1;
        }
    }
}

} // verus!
