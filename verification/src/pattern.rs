//! The register pattern: the value that each of some registers should hold
//! at the end of a run, first by register name, as configured, then by
//! register number, as the emulator reports registers.

use crate::bits::{hamming, ones_below};
use crate::profile::{held_by, Reading, RegisterState};
use crate::sketch::key_views;
use indexmap::IndexMap;
use vstd::prelude::*;

verus! {

/// `indexmap::IndexMap`, a hash map that keeps its entries in the order in
/// which their keys were first inserted.
#[verifier::external_type_specification]
#[verifier::external_body]
#[verifier::reject_recursive_types(K)]
#[verifier::reject_recursive_types(V)]
#[verifier::reject_recursive_types(S)]
pub struct ExIndexMap<K, V, S>(IndexMap<K, V, S>);

/// The entries of a map from register names to values, in the map's order.
pub uninterp spec fn named_targets(map: IndexMap<String, u64>) -> Seq<(Seq<char>, u64)>;

/// The entries of a map from register numbers to values, in the map's order.
pub uninterp spec fn targets(map: IndexMap<u32, u64>) -> Seq<(u32, u64)>;

/// The place of the first entry for `register`, if there is one.
pub open spec fn position_of(entries: Seq<(u32, u64)>, register: u32) -> Option<int>
    decreases entries.len(),
{
    if entries.len() == 0 {
        None
    } else if entries.last().0 == register && position_of(entries.drop_last(), register) is None {
        Some(entries.len() - 1)
    } else {
        position_of(entries.drop_last(), register)
    }
}

/// The value that `entries` want `register` to hold, if they name it.
pub open spec fn target_of(entries: Seq<(u32, u64)>, register: u32) -> Option<u64> {
    match position_of(entries, register) {
        Some(at) => Some(entries[at].1),
        None => None,
    }
}

/// The entries after `register` was given `value`: in its old place where it
/// had one, else at the end.
pub open spec fn put(entries: Seq<(u32, u64)>, register: u32, value: u64) -> Seq<(u32, u64)> {
    match position_of(entries, register) {
        Some(at) => entries.update(at, (register, value)),
        None => entries.push((register, value)),
    }
}

/// `IndexMap::new`: a map without entries.
#[verifier::external_body]
fn targets_new() -> (map: IndexMap<u32, u64>)
    ensures
        targets(map) == Seq::<(u32, u64)>::empty(),
{
    IndexMap::new()
}

/// `IndexMap::insert`: a key that the map has keeps its place and gets the
/// new value, and the old value is returned; a key that it lacks goes to the
/// end with its value, and nothing is returned.
#[verifier::external_body]
fn targets_insert(map: &mut IndexMap<u32, u64>, register: u32, value: u64) -> (replaced: Option<
    u64,
>)
    ensures
        targets(*final(map)) == put(targets(*old(map)), register, value),
        replaced == target_of(targets(*old(map)), register),
{
    map.insert(register, value)
}

/// `IndexMap::len`: the number of entries.
#[verifier::external_body]
fn targets_len(map: &IndexMap<u32, u64>) -> (len: usize)
    ensures
        len == targets(*map).len(),
{
    map.len()
}

/// `IndexMap::get_index`: the entry at a place below the map's length.
#[verifier::external_body]
fn targets_at(map: &IndexMap<u32, u64>, at: usize) -> (entry: (u32, u64))
    requires
        at < targets(*map).len(),
    ensures
        entry == targets(*map)[at as int],
{
    let (register, value) = map.get_index(at).unwrap();
    (*register, *value)
}

/// `IndexMap::get`: the value of a key, if the map has the key.
#[verifier::external_body]
fn targets_get(map: &IndexMap<u32, u64>, register: u32) -> (value: Option<u64>)
    ensures
        value == target_of(targets(*map), register),
{
    map.get(&register).copied()
}

/// `IndexMap::iter`, collected: the entries of the map, in the map's order.
#[verifier::external_body]
fn named_entries(map: &IndexMap<String, u64>) -> (entries: Vec<(String, u64)>)
    ensures
        entries@.len() == named_targets(*map).len(),
        forall|at: int|
            0 <= at < entries@.len() ==> (#[trigger] entries@[at]).0@ == named_targets(*map)[at].0
                && entries@[at].1 == named_targets(*map)[at].1,
{
    map.iter().map(|(name, value)| (name.clone(), *value)).collect()
}

/// A register of the target architecture: its name and its number.
#[derive(Clone, Debug, PartialEq, Eq)]
pub struct RegisterName {
    pub name: String,
    pub id: u32,
}

/// The number of the first register called `name`, if there is one.
pub open spec fn id_of(registers: Seq<RegisterName>, name: Seq<char>) -> Option<u32>
    decreases registers.len(),
{
    if registers.len() == 0 {
        None
    } else if registers[0].name@ == name {
        Some(registers[0].id)
    } else {
        id_of(registers.drop_first(), name)
    }
}

/// The registers of the target architecture.
#[derive(Clone, Debug, PartialEq, Eq)]
pub struct RegisterTable {
    pub registers: Vec<RegisterName>,
}

impl RegisterTable {
    /// The number of the register called `name`, or `None` for a name that
    /// the architecture does not have.
    pub fn lookup(&self, name: &String) -> (id: Option<u32>)
        ensures
            id == id_of(self.registers@, name@),
    {
        let mut i: usize = 0;
        proof {
            assert(self.registers@.skip(0) == self.registers@);
        }
        while i < self.registers.len()
            invariant
                i <= self.registers@.len(),
                id_of(self.registers@, name@) == id_of(self.registers@.skip(i as int), name@),
            decreases self.registers@.len() - i,
        {
            proof {
                assert(self.registers@.skip(i as int)[0] == self.registers@[i as int]);
                assert(self.registers@.skip(i as int).drop_first() == self.registers@.skip(
                    i as int + 1,
                ));
            }
            if self.registers[i].name == *name {
                return Some(self.registers[i].id);
            }
            i += 1;
        }
        None
    }
}

/// The pattern as configured: register names and the values they should
/// hold.
#[derive(Debug)]
pub struct RegisterPatternConfig(pub IndexMap<String, u64>);

/// The pattern by register number.
#[derive(Debug)]
pub struct RegisterPattern(pub IndexMap<u32, u64>);

/// Whether the architecture has every name among `named`.
pub open spec fn all_known(named: Seq<(Seq<char>, u64)>, registers: Seq<RegisterName>) -> bool {
    forall|i: int| 0 <= i < named.len() ==> id_of(registers, (#[trigger] named[i]).0) is Some
}

/// The entries by number that the entries by name stand for, where every
/// name is known: each name resolved and put in turn.
pub open spec fn resolved(named: Seq<(Seq<char>, u64)>, registers: Seq<RegisterName>) -> Seq<
    (u32, u64),
>
    decreases named.len(),
{
    if named.len() == 0 {
        Seq::empty()
    } else {
        put(
            resolved(named.drop_last(), registers),
            id_of(registers, named.last().0).unwrap(),
            named.last().1,
        )
    }
}

/// How far a register is from `target`: the number of bits in which what it
/// holds differs, or all 64 for a register that the snapshot lacks.
pub open spec fn gap(target: u64, held: Option<u64>) -> nat {
    match held {
        Some(value) => ones_below(target ^ value, 64),
        None => 64,
    }
}

/// How far `readings` are from `entries`: the gaps of all entries together.
pub open spec fn distance_of(entries: Seq<(u32, u64)>, readings: Seq<Reading>) -> nat
    decreases entries.len(),
{
    if entries.len() == 0 {
        0
    } else {
        distance_of(entries.drop_last(), readings) + gap(
            entries.last().1,
            held_by(readings, entries.last().0),
        )
    }
}

/// Whether `reading` is of a register that `entries` name and holds another
/// value than they want.
pub open spec fn is_wrong(entries: Seq<(u32, u64)>, reading: Reading) -> bool {
    match target_of(entries, reading.register) {
        Some(target) => target != reading.values@[0],
        None => false,
    }
}

/// The keys of the wrong readings among `readings`, in order.
pub open spec fn wrong_keys(entries: Seq<(u32, u64)>, readings: Seq<Reading>) -> Seq<Seq<u64>>
    decreases readings.len(),
{
    if readings.len() == 0 {
        Seq::empty()
    } else if is_wrong(entries, readings.last()) {
        wrong_keys(entries, readings.drop_last()).push(readings.last().key())
    } else {
        wrong_keys(entries, readings.drop_last())
    }
}

impl RegisterPattern {
    /// The pattern by register number: every name looked up in `table`, in
    /// the configured order. A name that the architecture does not have is an
    /// error, which gives the place of the first such name.
    pub fn resolve(config: &RegisterPatternConfig, table: &RegisterTable) -> (pattern: Result<
        RegisterPattern,
        usize,
    >)
        ensures
            match pattern {
                Ok(found) => all_known(named_targets(config.0), table.registers@) && targets(
                    found.0,
                ) == resolved(named_targets(config.0), table.registers@),
                Err(at) => at < named_targets(config.0).len() && id_of(
                    table.registers@,
                    named_targets(config.0)[at as int].0,
                ) is None && all_known(
                    named_targets(config.0).take(at as int),
                    table.registers@,
                ),
            },
    {
        let mut map = targets_new();
        let entries = named_entries(&config.0);
        let ghost named = named_targets(config.0);
        let mut i: usize = 0;
        while i < entries.len()
            invariant
                i <= entries@.len(),
                named == named_targets(config.0),
                entries@.len() == named.len(),
                forall|at: int|
                    0 <= at < entries@.len() ==> (#[trigger] entries@[at]).0@ == named[at].0
                        && entries@[at].1 == named[at].1,
                all_known(named.take(i as int), table.registers@),
                targets(map) == resolved(named.take(i as int), table.registers@),
            decreases entries@.len() - i,
        {
            let value = entries[i].1;
            match table.lookup(&entries[i].0) {
                Some(id) => {
                    targets_insert(&mut map, id, value);
                    proof {
                        assert(named.take(i as int + 1).drop_last() == named.take(i as int));
                        assert(named.take(i as int + 1).last() == named[i as int]);
                        assert forall|k: int| 0 <= k < i + 1 implies id_of(
                            table.registers@,
                            (#[trigger] named.take(i as int + 1)[k]).0,
                        ) is Some by {
                            if k < i {
                                assert(named.take(i as int)[k] == named[k]);
                            }
                        }
                    }
                },
                None => {
                    return Err(i);
                },
            }
            i += 1;
        }
        proof {
            assert(named.take(i as int) == named);
        }
        Ok(RegisterPattern(map))
    }

    /// The number of registers that the pattern names.
    pub fn len(&self) -> (len: usize)
        ensures
            len == targets(self.0).len(),
    {
        targets_len(&self.0)
    }

    /// The register and the wanted value at place `at` of the pattern.
    pub fn entry(&self, at: usize) -> (entry: (u32, u64))
        requires
            at < targets(self.0).len(),
        ensures
            entry == targets(self.0)[at as int],
    {
        targets_at(&self.0, at)
    }

    /// How far the snapshot is from the pattern: for each register of the
    /// pattern the number of bits in which the snapshot differs from the
    /// wanted value, 64 for a register that the snapshot lacks, all added up
    /// and stopped at the largest `u64`. A snapshot that holds every wanted
    /// value is at distance 0.
    pub fn distance_from_register_state(&self, state: &RegisterState) -> (distance: u64)
        requires
            state.wf(),
        ensures
            distance as nat == if distance_of(targets(self.0), state.readings@) > u64::MAX {
                u64::MAX as nat
            } else {
                distance_of(targets(self.0), state.readings@)
            },
    {
        let len = targets_len(&self.0);
        let ghost entries = targets(self.0);
        let mut distance: u64 = 0;
        let mut i: usize = 0;
        while i < len
            invariant
                i <= len,
                len == entries.len(),
                entries == targets(self.0),
                state.wf(),
                distance as nat == if distance_of(entries.take(i as int), state.readings@)
                    > u64::MAX {
                    u64::MAX as nat
                } else {
                    distance_of(entries.take(i as int), state.readings@)
                },
            decreases len - i,
        {
            proof {
                assert(entries.take(i as int + 1).drop_last() == entries.take(i as int));
                assert(entries.take(i as int + 1).last() == entries[i as int]);
            }
            let (register, target) = targets_at(&self.0, i);
            let step: u64 = match state.value_of(register) {
                Some(value) => hamming(target, value) as u64,
                None => 64,
            };
            distance = distance.saturating_add(step);
            i += 1;
        }
        proof {
            assert(entries.take(i as int) == entries);
        }
        distance
    }

    /// The keys of the readings that are wrong under the pattern: of a
    /// register that the pattern names, with another value than it wants.
    pub fn incorrect_register_states(&self, state: &RegisterState) -> (keys: Vec<Vec<u64>>)
        requires
            state.wf(),
        ensures
            key_views(keys@) == wrong_keys(targets(self.0), state.readings@),
    {
        let ghost entries = targets(self.0);
        let mut keys: Vec<Vec<u64>> = Vec::new();
        let mut i: usize = 0;
        while i < state.readings.len()
            invariant
                i <= state.readings@.len(),
                entries == targets(self.0),
                state.wf(),
                key_views(keys@) == wrong_keys(entries, state.readings@.take(i as int)),
            decreases state.readings@.len() - i,
        {
            proof {
                assert(state.readings@.take(i as int + 1).drop_last() == state.readings@.take(
                    i as int,
                ));
                assert(state.readings@.take(i as int + 1).last() == state.readings@[i as int]);
            }
            let reading = &state.readings[i];
            let ghost before = keys@;
            match targets_get(&self.0, reading.register) {
                Some(target) => {
                    if target != reading.values[0] {
                        keys.push(reading.sketch_key());
                        proof {
                            assert(key_views(keys@) =~= key_views(before).push(reading.key()));
                        }
                    }
                },
                None => {},
            }
            i += 1;
        }
        proof {
            assert(state.readings@.take(i as int) == state.readings@);
        }
        keys
    }
}

/// A snapshot that holds every value that the entries want is at distance 0
/// from them.
pub proof fn lemma_match_is_distance_zero(entries: Seq<(u32, u64)>, readings: Seq<Reading>)
    requires
        forall|i: int|
            0 <= i < entries.len() ==> held_by(readings, (#[trigger] entries[i]).0) == Some(
                entries[i].1,
            ),
    ensures
        distance_of(entries, readings) == 0,
    decreases entries.len(),
{
    if entries.len() > 0 {
        assert forall|i: int| 0 <= i < entries.drop_last().len() implies held_by(
            readings,
            (#[trigger] entries.drop_last()[i]).0,
        ) == Some(entries.drop_last()[i].1) by {
            assert(entries.drop_last()[i] == entries[i]);
        }
        lemma_match_is_distance_zero(entries.drop_last(), readings);
        let target = entries.last().1;
        assert(held_by(readings, entries.last().0) == Some(target));
        assert(target ^ target == 0) by (bit_vector);
        crate::bits::lemma_no_ones(64);
    }
}

} // verus!
