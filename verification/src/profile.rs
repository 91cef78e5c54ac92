//! What one emulated run left behind: register snapshots, memory writes,
//! the gadgets and basic blocks that ran, and the faults of the processor.

use crate::score::{ratio, ratio_score};
use vstd::prelude::*;

verus! {

/// One register of a snapshot: the value it held, followed by what that
/// value points at, as far as the emulator followed it.
#[derive(Clone, Debug, PartialEq, Eq)]
pub struct Reading {
    pub register: u32,
    pub values: Vec<u64>,
}

impl Reading {
    /// The key under which the reading is counted: the register, then its
    /// values.
    pub open spec fn key(&self) -> Seq<u64> {
        seq![self.register as u64] + self.values@
    }

    /// The key under which the reading is counted.
    pub fn sketch_key(&self) -> (key: Vec<u64>)
        ensures
            key@ == self.key(),
    {
        let mut key: Vec<u64> = Vec::new();
        key.push(self.register as u64);
        let mut i: usize = 0;
        while i < self.values.len()
            invariant
                i <= self.values@.len(),
                key@ == seq![self.register as u64] + self.values@.take(i as int),
            decreases self.values@.len() - i,
        {
            key.push(self.values[i]);
            proof {
                assert(self.values@.take(i as int + 1) == self.values@.take(i as int).push(
                    self.values@[i as int],
                ));
            }
            i += 1;
        }
        proof {
            assert(self.values@.take(i as int) == self.values@);
        }
        key
    }
}

/// The value that each of `readings` holds.
pub open spec fn held_values(readings: Seq<Reading>) -> Seq<u64> {
    Seq::new(readings.len(), |i: int| readings[i].values@[0])
}

/// The value that the first reading of `register` holds, if there is one.
pub open spec fn held_by(readings: Seq<Reading>, register: u32) -> Option<u64>
    decreases readings.len(),
{
    if readings.len() == 0 {
        None
    } else if readings[0].register == register {
        Some(readings[0].values@[0])
    } else {
        held_by(readings.drop_first(), register)
    }
}

/// The bitwise and of the values that `readings` hold; all ones for none.
pub open spec fn conjunction_of(readings: Seq<Reading>) -> u64
    decreases readings.len(),
{
    if readings.len() == 0 {
        0xffff_ffff_ffff_ffff
    } else {
        conjunction_of(readings.drop_last()) & readings.last().values@[0]
    }
}

/// The keys of `readings`, one after the other.
pub open spec fn joined_keys(readings: Seq<Reading>) -> Seq<u64>
    decreases readings.len(),
{
    if readings.len() == 0 {
        Seq::empty()
    } else {
        joined_keys(readings.drop_last()) + readings.last().key()
    }
}

/// The registers at one moment of the run, in a fixed order.
#[derive(Clone, Debug, PartialEq, Eq)]
pub struct RegisterState {
    pub readings: Vec<Reading>,
}

impl RegisterState {
    /// Whether every reading holds a value.
    pub open spec fn wf(&self) -> bool {
        forall|i: int|
            0 <= i < self.readings@.len() ==> (#[trigger] self.readings@[i]).values@.len() > 0
    }

    /// Whether every reading holds a value.
    pub fn is_well_formed(&self) -> (ok: bool)
        ensures
            ok == self.wf(),
    {
        let mut i: usize = 0;
        while i < self.readings.len()
            invariant
                i <= self.readings@.len(),
                forall|k: int| 0 <= k < i ==> (#[trigger] self.readings@[k]).values@.len() > 0,
            decreases self.readings@.len() - i,
        {
            if self.readings[i].values.len() == 0 {
                return false;
            }
            i += 1;
        }
        true
    }

    /// The value of each register, in order.
    pub fn values(&self) -> (values: Vec<u64>)
        requires
            self.wf(),
        ensures
            values@ == held_values(self.readings@),
    {
        let mut values: Vec<u64> = Vec::new();
        let mut i: usize = 0;
        while i < self.readings.len()
            invariant
                i <= self.readings@.len(),
                self.wf(),
                values@ == held_values(self.readings@).take(i as int),
            decreases self.readings@.len() - i,
        {
            values.push(self.readings[i].values[0]);
            i += 1;
        }
        proof {
            assert(held_values(self.readings@).take(i as int) == held_values(self.readings@));
        }
        values
    }

    /// The value of `register`, if the snapshot has it.
    pub fn value_of(&self, register: u32) -> (value: Option<u64>)
        requires
            self.wf(),
        ensures
            value == held_by(self.readings@, register),
    {
        let mut i: usize = 0;
        proof {
            assert(self.readings@.skip(0) == self.readings@);
        }
        while i < self.readings.len()
            invariant
                i <= self.readings@.len(),
                self.wf(),
                held_by(self.readings@, register) == held_by(
                    self.readings@.skip(i as int),
                    register,
                ),
            decreases self.readings@.len() - i,
        {
            proof {
                assert(self.readings@.skip(i as int)[0] == self.readings@[i as int]);
                assert(self.readings@.skip(i as int).drop_first() == self.readings@.skip(
                    i as int + 1,
                ));
            }
            if self.readings[i].register == register {
                return Some(self.readings[i].values[0]);
            }
            i += 1;
        }
        None
    }

    /// The bitwise and of all register values.
    pub fn conjunction(&self) -> (all: u64)
        requires
            self.wf(),
        ensures
            all == conjunction_of(self.readings@),
    {
        let mut all: u64 = 0xffff_ffff_ffff_ffff;
        let mut i: usize = 0;
        while i < self.readings.len()
            invariant
                i <= self.readings@.len(),
                self.wf(),
                all == conjunction_of(self.readings@.take(i as int)),
            decreases self.readings@.len() - i,
        {
            proof {
                assert(self.readings@.take(i as int + 1).drop_last() == self.readings@.take(
                    i as int,
                ));
            }
            all = all & self.readings[i].values[0];
            i += 1;
        }
        proof {
            assert(self.readings@.take(i as int) == self.readings@);
        }
        all
    }

    /// The key under which the whole snapshot is counted: the keys of its
    /// readings, one after the other.
    pub fn sketch_key(&self) -> (key: Vec<u64>)
        ensures
            key@ == joined_keys(self.readings@),
    {
        let mut key: Vec<u64> = Vec::new();
        let mut i: usize = 0;
        while i < self.readings.len()
            invariant
                i <= self.readings@.len(),
                key@ == joined_keys(self.readings@.take(i as int)),
            decreases self.readings@.len() - i,
        {
            proof {
                assert(self.readings@.take(i as int + 1).drop_last() == self.readings@.take(
                    i as int,
                ));
            }
            let mut part = self.readings[i].sketch_key();
            key.append(&mut part);
            i += 1;
        }
        proof {
            assert(self.readings@.take(i as int) == self.readings@);
        }
        key
    }
}

/// One write to memory during the run.
#[derive(Clone, Debug, PartialEq, Eq)]
pub struct WriteEvent {
    pub address: u64,
    pub size: u64,
    pub value: u64,
}

impl WriteEvent {
    /// The key under which the write is counted.
    pub open spec fn key(&self) -> Seq<u64> {
        seq![self.address, self.size, self.value]
    }

    /// The key under which the write is counted.
    pub fn sketch_key(&self) -> (key: Vec<u64>)
        ensures
            key@ == self.key(),
    {
        let mut key: Vec<u64> = Vec::new();
        key.push(self.address);
        key.push(self.size);
        key.push(self.value);
        key
    }
}

/// A basic block that ran: `size` bytes of code from `entry` on.
#[derive(Clone, Debug, PartialEq, Eq)]
pub struct Block {
    pub entry: u64,
    pub size: usize,
}

impl Block {
    /// Whether the block covers `addr`.
    pub open spec fn covers(&self, addr: u64) -> bool {
        self.entry <= addr < self.entry + self.size
    }
}

/// How often the processor reported one kind of fault.
#[derive(Clone, Debug, PartialEq, Eq)]
pub struct CpuError {
    pub code: u32,
    pub count: usize,
}

/// The number of items in all of `lists` together.
pub open spec fn total_len<T>(lists: Seq<Vec<T>>) -> nat
    decreases lists.len(),
{
    if lists.len() == 0 {
        0
    } else {
        total_len(lists.drop_last()) + lists.last()@.len()
    }
}

/// The faults of all kinds, counted.
pub open spec fn total_faults(errors: Seq<CpuError>) -> nat
    decreases errors.len(),
{
    if errors.len() == 0 {
        0
    } else {
        total_faults(errors.drop_last()) + errors.last().count as nat
    }
}

/// A count that stops at the largest `u64`.
pub open spec fn capped_count(count: nat) -> u64 {
    if count > u64::MAX {
        u64::MAX
    } else {
        count as u64
    }
}

/// The record of one run.
#[derive(Clone, Debug, PartialEq, Eq)]
pub struct Profile {
    /// The register snapshots taken over the run.
    pub registers: Vec<RegisterState>,
    /// The writes to memory, one log for each snapshot.
    pub write_logs: Vec<Vec<WriteEvent>>,
    /// The addresses of the gadgets that ran.
    pub gadgets_executed: Vec<u64>,
    /// The faults of the processor, by kind.
    pub cpu_errors: Vec<CpuError>,
    /// The basic blocks that ran, one path for each snapshot.
    pub paths: Vec<Vec<Block>>,
    /// Whether the payload could be run at all.
    pub executable: bool,
}

impl Profile {
    /// Whether every reading of every snapshot holds a value.
    pub open spec fn wf(&self) -> bool {
        forall|i: int| 0 <= i < self.registers@.len() ==> (#[trigger] self.registers@[i]).wf()
    }

    /// Whether some block of some path covers `addr`.
    pub open spec fn visits(&self, addr: u64) -> bool {
        exists|p: int, b: int|
            0 <= p < self.paths@.len() && 0 <= b < self.paths@[p]@.len() && (
            #[trigger] self.paths@[p]@[b]).covers(addr)
    }

    /// Whether every reading of every snapshot holds a value.
    pub fn is_well_formed(&self) -> (ok: bool)
        ensures
            ok == self.wf(),
    {
        let mut i: usize = 0;
        while i < self.registers.len()
            invariant
                i <= self.registers@.len(),
                forall|k: int| 0 <= k < i ==> (#[trigger] self.registers@[k]).wf(),
            decreases self.registers@.len() - i,
        {
            if !self.registers[i].is_well_formed() {
                return false;
            }
            i += 1;
        }
        true
    }

    /// The profile of a payload that was not run: nothing observed, and
    /// marked as not executable.
    pub fn non_executable() -> (profile: Profile)
        ensures
            !profile.executable,
            profile.wf(),
            profile.registers@.len() == 0,
            profile.write_logs@.len() == 0,
            profile.gadgets_executed@.len() == 0,
            profile.cpu_errors@.len() == 0,
            profile.paths@.len() == 0,
    {
        Profile {
            registers: Vec::new(),
            write_logs: Vec::new(),
            gadgets_executed: Vec::new(),
            cpu_errors: Vec::new(),
            paths: Vec::new(),
            executable: false,
        }
    }

    /// The number of faults of all kinds.
    pub fn crash_count(&self) -> (count: u64)
        ensures
            count == capped_count(total_faults(self.cpu_errors@)),
    {
        let mut count: u64 = 0;
        let mut i: usize = 0;
        while i < self.cpu_errors.len()
            invariant
                i <= self.cpu_errors@.len(),
                count == capped_count(total_faults(self.cpu_errors@.take(i as int))),
            decreases self.cpu_errors@.len() - i,
        {
            proof {
                assert(self.cpu_errors@.take(i as int + 1).drop_last() == self.cpu_errors@.take(
                    i as int,
                ));
            }
            count = count.saturating_add(self.cpu_errors[i].count as u64);
            i += 1;
        }
        proof {
            assert(self.cpu_errors@.take(i as int) == self.cpu_errors@);
        }
        count
    }

    /// The number of writes to memory.
    pub fn write_count(&self) -> (count: u64)
        ensures
            count == capped_count(total_len(self.write_logs@)),
    {
        count_items(&self.write_logs)
    }

    /// The number of basic blocks that ran.
    pub fn step_count(&self) -> (count: u64)
        ensures
            count == capped_count(total_len(self.paths@)),
    {
        count_items(&self.paths)
    }

    /// The writes to memory for each basic block that ran, as a score; 0
    /// where no block ran.
    pub fn mem_write_ratio(&self) -> (score: u64)
        ensures
            score == ratio_score(
                capped_count(total_len(self.write_logs@)) as nat,
                capped_count(total_len(self.paths@)) as nat,
                0,
            ),
    {
        ratio(self.write_count(), self.step_count(), 0)
    }
}

/// The number of items in all of `lists` together, up to the largest `u64`.
fn count_items<T>(lists: &Vec<Vec<T>>) -> (count: u64)
    ensures
        count == capped_count(total_len(lists@)),
{
    let mut count: u64 = 0;
    let mut i: usize = 0;
    while i < lists.len()
        invariant
            i <= lists@.len(),
            count == capped_count(total_len(lists@.take(i as int))),
        decreases lists@.len() - i,
    {
        proof {
            assert(lists@.take(i as int + 1).drop_last() == lists@.take(i as int));
        }
        count = count.saturating_add(lists[i].len() as u64);
        i += 1;
    }
    proof {
        assert(lists@.take(i as int) == lists@);
    }
    count
}

/// How often `value` occurs among `values`.
pub open spec fn occurrences(values: Seq<u64>, value: u64) -> nat
    decreases values.len(),
{
    if values.len() == 0 {
        0
    } else {
        occurrences(values.drop_last(), value) + if values.last() == value {
            1nat
        } else {
            0nat
        }
    }
}

/// The place where `value` first occurs among `values`, if it occurs.
pub open spec fn first_occurrence(values: Seq<u64>, value: u64) -> int
    decreases values.len(),
{
    if values.len() == 0 {
        0
    } else if occurrences(values.drop_last(), value) > 0 {
        first_occurrence(values.drop_last(), value)
    } else {
        values.len() - 1
    }
}

/// Whether `counts` lists every value that occurs among `values`, once, with
/// the number of its occurrences, in the order in which the values first
/// occur.
pub open spec fn counts_values(counts: Seq<(u64, usize)>, values: Seq<u64>) -> bool {
    &&& forall|i: int, j: int|
        0 <= i < j < counts.len() ==> first_occurrence(values, (#[trigger] counts[i]).0)
            < first_occurrence(values, (#[trigger] counts[j]).0)
    &&& forall|i: int|
        0 <= i < counts.len() ==> (#[trigger] counts[i]).1 > 0 && counts[i].1 == occurrences(
            values,
            counts[i].0,
        )
    &&& forall|i: int, j: int|
        0 <= i < j < counts.len() ==> (#[trigger] counts[i]).0 != (#[trigger] counts[j]).0
    &&& forall|k: int|
        0 <= k < values.len() ==> exists|i: int|
            0 <= i < counts.len() && (#[trigger] counts[i]).0 == #[trigger] values[k]
}

/// The values that occur among `values`, in the order in which they first
/// occur, each with the number of its occurrences: what the entropy of the
/// values is measured from.
pub fn value_counts(values: &[u64]) -> (counts: Vec<(u64, usize)>)
    ensures
        counts_values(counts@, values@),
{
    let mut counts: Vec<(u64, usize)> = Vec::new();
    let mut k: usize = 0;
    while k < values.len()
        invariant
            k <= values@.len(),
            counts_values(counts@, values@.take(k as int)),
        decreases values@.len() - k,
    {
        let value = values[k];
        let ghost seen = values@.take(k as int);
        let ghost next = values@.take(k as int + 1);
        let ghost before = counts@;
        proof {
            assert(next.drop_last() == seen);
            assert(next.last() == value);
        }
        let mut at: usize = 0;
        while at < counts.len() && counts[at].0 != value
            invariant
                at <= counts@.len(),
                forall|i: int| 0 <= i < at ==> (#[trigger] counts@[i]).0 != value,
            decreases counts@.len() - at,
        {
            at += 1;
        }
        if at < counts.len() {
            let count = counts[at].1;
            proof {
                lemma_occurrences_bound(seen, value);
            }
            counts.set(at, (value, count + 1));
            proof {
                assert forall|i: int, j: int| 0 <= i < j < counts@.len() implies first_occurrence(
                    next,
                    (#[trigger] counts@[i]).0,
                ) < first_occurrence(next, (#[trigger] counts@[j]).0) by {
                    assert(counts@[i].0 == before[i].0 && counts@[j].0 == before[j].0);
                    assert(before[i].1 > 0 && before[j].1 > 0);
                }
                assert forall|j: int| 0 <= j < next.len() implies exists|i: int|
                    0 <= i < counts@.len() && (#[trigger] counts@[i]).0 == #[trigger] next[j] by {
                    if j < k {
                        assert(seen[j] == next[j]);
                        let i = choose|i: int|
                            0 <= i < before.len() && (#[trigger] before[i]).0 == seen[j];
                        assert(counts@[i].0 == next[j]);
                    } else {
                        assert(counts@[at as int].0 == next[j]);
                    }
                }
                assert forall|i: int| 0 <= i < counts@.len() implies (#[trigger] counts@[i]).1 > 0
                    && counts@[i].1 == occurrences(next, counts@[i].0) by {
                    if i != at {
                        assert(before[i].0 != before[at as int].0);
                    }
                }
            }
        } else {
            proof {
                assert forall|j: int| 0 <= j < seen.len() implies seen[j] != value by {
                    let i = choose|i: int|
                        0 <= i < before.len() && (#[trigger] before[i]).0 == seen[j];
                }
                lemma_absent_occurs_never(seen, value);
            }
            counts.push((value, 1));
            proof {
                assert forall|i: int, j: int| 0 <= i < j < counts@.len() implies first_occurrence(
                    next,
                    (#[trigger] counts@[i]).0,
                ) < first_occurrence(next, (#[trigger] counts@[j]).0) by {
                    assert(counts@[i] == before[i]);
                    assert(before[i].1 > 0);
                    lemma_first_occurrence_bound(seen, before[i].0);
                    if j < before.len() {
                        assert(counts@[j] == before[j]);
                        assert(before[j].1 > 0);
                    }
                }
                assert forall|j: int| 0 <= j < next.len() implies exists|i: int|
                    0 <= i < counts@.len() && (#[trigger] counts@[i]).0 == #[trigger] next[j] by {
                    if j < k {
                        assert(seen[j] == next[j]);
                        let i = choose|i: int|
                            0 <= i < before.len() && (#[trigger] before[i]).0 == seen[j];
                        assert(counts@[i].0 == next[j]);
                    } else {
                        assert(counts@[before.len() as int].0 == next[j]);
                    }
                }
                assert forall|i: int| 0 <= i < counts@.len() implies (#[trigger] counts@[i]).1 > 0
                    && counts@[i].1 == occurrences(next, counts@[i].0) by {
                    if i < before.len() {
                        assert(counts@[i] == before[i]);
                    }
                }
            }
        }
        k += 1;
    }
    proof {
        assert(values@.take(k as int) == values@);
    }
    counts
}

/// A value that occurs among the values first occurs at one of their
/// places.
proof fn lemma_first_occurrence_bound(values: Seq<u64>, value: u64)
    requires
        occurrences(values, value) > 0,
    ensures
        0 <= first_occurrence(values, value) < values.len(),
    decreases values.len(),
{
    if values.len() > 0 && occurrences(values.drop_last(), value) > 0 {
        lemma_first_occurrence_bound(values.drop_last(), value);
    }
}

/// A value occurs at most as often as there are values.
proof fn lemma_occurrences_bound(values: Seq<u64>, value: u64)
    ensures
        occurrences(values, value) <= values.len(),
    decreases values.len(),
{
    if values.len() > 0 {
        lemma_occurrences_bound(values.drop_last(), value);
    }
}

/// A value that is not among the values occurs zero times.
proof fn lemma_absent_occurs_never(values: Seq<u64>, value: u64)
    requires
        forall|i: int| 0 <= i < values.len() ==> values[i] != value,
    ensures
        occurrences(values, value) == 0,
    decreases values.len(),
{
    if values.len() > 0 {
        assert forall|i: int| 0 <= i < values.drop_last().len() implies values.drop_last()[i]
            != value by {
            assert(values.drop_last()[i] == values[i]);
        }
        lemma_absent_occurs_never(values.drop_last(), value);
    }
}

} // verus!
