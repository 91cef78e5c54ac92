//! Novelty sketches: approximate counters of how often a kind of behaviour
//! was seen. A sketch holds a few rows of counters; a key is counted in one
//! bucket of each row, found by hashing, and its frequency is estimated by
//! the smallest of those counters. Keys that share buckets are counted
//! together, so an estimate may be too high and is never too low.

use crate::score::ONE;
use vstd::arithmetic::div_mod::{
    lemma_basic_div, lemma_div_is_ordered, lemma_div_is_ordered_by_denominator,
    lemma_div_pos_is_pos, lemma_mod_bound,
};
use vstd::prelude::*;

verus! {

/// The multiplier of the hash.
pub const HASH_PRIME: u64 = 0x0000_0100_0000_01b3;

/// The step between the seeds of two rows.
pub const SEED_STEP: u64 = 0x9e37_79b9_7f4a_7c15;

/// The number of rows of a sketch made by `Sketches::new`.
pub const DEFAULT_DEPTH: usize = 4;

/// The number of buckets in each row of a sketch made by `Sketches::new`.
pub const DEFAULT_WIDTH: usize = 65_536;

/// One step of the hash: a word folded into what was hashed so far.
pub open spec fn mix(hash: u64, word: u64) -> u64 {
    (hash ^ word).wrapping_mul(HASH_PRIME)
}

/// The hash of `key` that starts from `seed`.
pub open spec fn key_hash(key: Seq<u64>, seed: u64) -> u64
    decreases key.len(),
{
    if key.len() == 0 {
        seed
    } else {
        mix(key_hash(key.drop_last(), seed), key.last())
    }
}

/// The seed of a row.
pub open spec fn row_seed(row: int) -> u64 {
    ((row as u64).wrapping_add(1)).wrapping_mul(SEED_STEP)
}

/// The bucket of `key` in a row of `width` buckets.
pub open spec fn bucket(key: Seq<u64>, row: int, width: nat) -> int {
    key_hash(key, row_seed(row)) as int % width as int
}

/// Whether `table` has rows, all of the same positive width.
pub open spec fn table_wf(table: Seq<Seq<u64>>) -> bool {
    &&& 0 < table.len() <= usize::MAX
    &&& table[0].len() > 0
    &&& forall|row: int| 0 <= row < table.len() ==> (#[trigger] table[row]).len() == table[0].len()
}

/// The counter that `key` is counted by in a row.
pub open spec fn counter(table: Seq<Seq<u64>>, key: Seq<u64>, row: int) -> u64 {
    table[row][bucket(key, row, table[row].len())]
}

/// The smallest counter of `key` in the first `rows` rows.
pub open spec fn estimate_upto(table: Seq<Seq<u64>>, key: Seq<u64>, rows: int) -> u64
    decreases rows,
{
    if rows <= 0 {
        u64::MAX
    } else {
        let rest = estimate_upto(table, key, rows - 1);
        let here = counter(table, key, rows - 1);
        if here < rest {
            here
        } else {
            rest
        }
    }
}

/// How often `key` was seen, as far as the table can tell.
pub open spec fn estimate(table: Seq<Seq<u64>>, key: Seq<u64>) -> u64 {
    estimate_upto(table, key, table.len() as int)
}

/// A counter after one more observation. A full counter stays full.
pub open spec fn bumped(count: u64) -> u64 {
    if count < u64::MAX {
        (count + 1) as u64
    } else {
        count
    }
}

/// The table after one observation of `key`.
pub open spec fn inserted(table: Seq<Seq<u64>>, key: Seq<u64>) -> Seq<Seq<u64>> {
    Seq::new(
        table.len(),
        |row: int|
            table[row].update(bucket(key, row, table[row].len()), bumped(counter(table, key, row))),
    )
}

/// The table after `times` observations of `key`.
pub open spec fn inserted_times(table: Seq<Seq<u64>>, key: Seq<u64>, times: nat) -> Seq<Seq<u64>>
    decreases times,
{
    if times == 0 {
        table
    } else {
        inserted(inserted_times(table, key, (times - 1) as nat), key)
    }
}

/// The novelty of what was seen `count` times: `ONE` for what was never
/// seen, falling towards 0 as the count grows.
pub open spec fn novelty(count: u64) -> u64 {
    (ONE as int / (count + 1)) as u64
}

/// The novelty that the table gives `key`.
pub open spec fn novelty_of(table: Seq<Seq<u64>>, key: Seq<u64>) -> u64 {
    novelty(estimate(table, key))
}

/// The keys in `keys`, each as a sequence of words.
pub open spec fn key_views(keys: Seq<Vec<u64>>) -> Seq<Seq<u64>> {
    Seq::new(keys.len(), |i: int| keys[i]@)
}

/// The table after one observation of each of `keys`, in order.
pub open spec fn observed(table: Seq<Seq<u64>>, keys: Seq<Seq<u64>>) -> Seq<Seq<u64>>
    decreases keys.len(),
{
    if keys.len() == 0 {
        table
    } else {
        inserted(observed(table, keys.drop_last()), keys.last())
    }
}

/// The novelties of `keys` added up, where the keys are observed in order
/// and the novelty of each is taken right after its own observation.
pub open spec fn novelty_sum(table: Seq<Seq<u64>>, keys: Seq<Seq<u64>>) -> nat
    decreases keys.len(),
{
    if keys.len() == 0 {
        0
    } else {
        novelty_sum(table, keys.drop_last()) + novelty_of(observed(table, keys), keys.last()) as nat
    }
}

/// The mean of the novelties of `keys`, or `empty` where there are no keys.
pub open spec fn mean_novelty(table: Seq<Seq<u64>>, keys: Seq<Seq<u64>>, empty: u64) -> u64 {
    if keys.len() == 0 {
        empty
    } else {
        (novelty_sum(table, keys) / keys.len()) as u64
    }
}

/// The mean of `count` scores that add up to `sum`, or `empty` where there
/// are none.
pub fn mean(sum: u128, count: usize, empty: u64) -> (score: u64)
    requires
        sum <= count * ONE,
    ensures
        score as int == if count == 0 {
            empty as int
        } else {
            sum as int / count as int
        },
        count > 0 ==> score <= ONE,
{
    if count == 0 {
        empty
    } else {
        proof {
            lemma_div_is_ordered(sum as int, count * ONE, count as int);
            assert((count * ONE) / count as int == ONE) by (nonlinear_arith)
                requires
                    count > 0,
            ;
            lemma_div_pos_is_pos(sum as int, count as int);
        }
        (sum / count as u128) as u64
    }
}

/// An approximate counter of keys. A key is a sequence of words.
#[derive(Clone, Debug, PartialEq, Eq)]
pub struct NoveltySketch {
    pub rows: Vec<Vec<u64>>,
}

impl View for NoveltySketch {
    type V = Seq<Seq<u64>>;

    open spec fn view(&self) -> Seq<Seq<u64>> {
        Seq::new(self.rows@.len(), |row: int| self.rows@[row]@)
    }
}

impl NoveltySketch {
    /// Whether the sketch has rows, all of the same positive width.
    pub open spec fn wf(&self) -> bool {
        table_wf(self@)
    }

    /// Whether the sketch has rows, all of the same positive width.
    pub fn is_well_formed(&self) -> (ok: bool)
        ensures
            ok == self.wf(),
    {
        if self.rows.len() == 0 || self.rows[0].len() == 0 {
            return false;
        }
        let width = self.rows[0].len();
        let mut row: usize = 0;
        while row < self.rows.len()
            invariant
                row <= self.rows@.len(),
                self.rows@.len() > 0,
                width == self.rows@[0]@.len(),
                width > 0,
                forall|r: int| 0 <= r < row ==> (#[trigger] self@[r]).len() == width,
            decreases self.rows@.len() - row,
        {
            if self.rows[row].len() != width {
                proof {
                    assert(self@[row as int].len() != self@[0].len());
                }
                return false;
            }
            row += 1;
        }
        true
    }

    /// An empty sketch of `depth` rows of `width` buckets.
    pub fn new(depth: usize, width: usize) -> (sketch: NoveltySketch)
        requires
            depth > 0,
            width > 0,
        ensures
            sketch.wf(),
            sketch@.len() == depth,
            sketch@[0].len() == width,
            all_zero(sketch@),
    {
        let mut rows: Vec<Vec<u64>> = Vec::new();
        let mut row: usize = 0;
        while row < depth
            invariant
                row <= depth,
                rows@.len() == row,
                forall|r: int| 0 <= r < row ==> (#[trigger] rows@[r])@.len() == width,
                forall|r: int, at: int|
                    0 <= r < row && 0 <= at < width ==> (#[trigger] rows@[r]@[at]) == 0,
            decreases depth - row,
        {
            let counters: Vec<u64> = vec![0u64; width];
            rows.push(counters);
            row += 1;
        }
        let sketch = NoveltySketch { rows };
        proof {
            assert forall|r: int| 0 <= r < sketch@.len() implies (#[trigger] sketch@[r]).len()
                == width by {
                assert(sketch@[r] == rows@[r]@);
            }
            assert forall|r: int, at: int|
                0 <= r < sketch@.len() && 0 <= at < sketch@[r].len() implies (
            #[trigger] sketch@[r][at]) == 0 by {
                assert(sketch@[r] == rows@[r]@);
            }
        }
        sketch
    }

    /// Records one observation of `key`.
    pub fn insert(&mut self, key: &[u64])
        requires
            old(self).wf(),
        ensures
            final(self).wf(),
            final(self)@ == inserted(old(self)@, key@),
    {
        let depth = self.rows.len();
        let mut row: usize = 0;
        while row < depth
            invariant
                row <= depth,
                depth == old(self)@.len(),
                old(self).wf(),
                self@.len() == depth,
                forall|r: int|
                    0 <= r < row ==> (#[trigger] self@[r]) == inserted(old(self)@, key@)[r],
                forall|r: int| row <= r < depth ==> (#[trigger] self@[r]) == old(self)@[r],
            decreases depth - row,
        {
            proof {
                assert(self@[row as int] == old(self)@[row as int]);
                assert(old(self)@[row as int].len() == old(self)@[0].len());
            }
            let width = self.rows[row].len();
            let at = bucket_of(key, row, width);
            let count = self.rows[row][at];
            let next = if count < u64::MAX {
                count + 1
            } else {
                count
            };
            let ghost before = self@;
            let mut counters: Vec<u64> = Vec::new();
            std::mem::swap(&mut counters, &mut self.rows[row]);
            counters.set(at, next);
            self.rows.set(row, counters);
            proof {
                assert(self@[row as int] == before[row as int].update(at as int, next));
                assert forall|r: int| row < r < depth implies (#[trigger] self@[r]) == old(
                    self,
                )@[r] by {
                    assert(self@[r] == before[r]);
                }
                assert forall|r: int| 0 <= r < row implies (#[trigger] self@[r]) == inserted(
                    old(self)@,
                    key@,
                )[r] by {
                    assert(self@[r] == before[r]);
                }
            }
            row += 1;
        }
        proof {
            assert(self@ =~= inserted(old(self)@, key@));
        }
    }

    /// The novelty of `key`: `ONE` where nothing like it was seen, less the
    /// more often it, or a key that shares its buckets, was seen.
    pub fn query(&self, key: &[u64]) -> (score: u64)
        requires
            self.wf(),
        ensures
            score == novelty_of(self@, key@),
            score <= ONE,
    {
        let depth = self.rows.len();
        let mut least: u64 = u64::MAX;
        let mut row: usize = 0;
        while row < depth
            invariant
                row <= depth,
                depth == self@.len(),
                self.wf(),
                least == estimate_upto(self@, key@, row as int),
            decreases depth - row,
        {
            proof {
                assert(self@[row as int].len() == self@[0].len());
            }
            let width = self.rows[row].len();
            let at = bucket_of(key, row, width);
            let count = self.rows[row][at];
            if count < least {
                least = count;
            }
            row += 1;
        }
        proof {
            lemma_novelty_bounds(least, least);
        }
        if least >= ONE {
            proof {
                lemma_basic_div(ONE as int, least + 1);
            }
            0
        } else {
            ONE / (least + 1)
        }
    }

    /// Records one observation of `key` and gives its novelty, the
    /// observation counted in.
    pub fn observe(&mut self, key: &[u64]) -> (score: u64)
        requires
            old(self).wf(),
        ensures
            final(self).wf(),
            final(self)@ == inserted(old(self)@, key@),
            score == novelty_of(final(self)@, key@),
            score <= ONE,
    {
        self.insert(key);
        self.query(key)
    }

    /// Records one observation of each of `keys` in turn and adds up the
    /// novelties, each taken right after its key was recorded.
    pub fn observe_all(&mut self, keys: &Vec<Vec<u64>>) -> (sum: u128)
        requires
            old(self).wf(),
        ensures
            final(self).wf(),
            final(self)@ == observed(old(self)@, key_views(keys@)),
            sum == novelty_sum(old(self)@, key_views(keys@)),
            sum <= keys@.len() * ONE,
    {
        let mut sum: u128 = 0;
        let mut i: usize = 0;
        let ghost all = key_views(keys@);
        while i < keys.len()
            invariant
                i <= keys@.len(),
                all == key_views(keys@),
                self.wf(),
                self@ == observed(old(self)@, all.take(i as int)),
                sum == novelty_sum(old(self)@, all.take(i as int)),
                sum <= i * ONE,
            decreases keys@.len() - i,
        {
            proof {
                assert(all.take(i as int + 1).drop_last() == all.take(i as int));
                assert(all.take(i as int + 1).last() == keys@[i as int]@);
                assert(i * ONE + ONE == (i + 1) * ONE) by (nonlinear_arith);
                assert(i * ONE <= usize::MAX * ONE) by (nonlinear_arith)
                    requires
                        i <= usize::MAX,
                ;
            }
            let score = self.observe(keys[i].as_slice());
            sum = sum + score as u128;
            i += 1;
        }
        proof {
            assert(all.take(i as int) == all);
        }
        sum
    }
}

/// The bucket of `key` in the given row of `width` buckets.
fn bucket_of(key: &[u64], row: usize, width: usize) -> (at: usize)
    requires
        width > 0,
    ensures
        at == bucket(key@, row as int, width as nat),
        at < width,
{
    let seed = ((row as u64).wrapping_add(1)).wrapping_mul(SEED_STEP);
    let mut hash: u64 = seed;
    let mut i: usize = 0;
    while i < key.len()
        invariant
            i <= key@.len(),
            hash == key_hash(key@.take(i as int), seed),
        decreases key@.len() - i,
    {
        proof {
            assert(key@.take(i as int + 1).drop_last() == key@.take(i as int));
        }
        hash = (hash ^ key[i]).wrapping_mul(HASH_PRIME);
        i += 1;
    }
    proof {
        assert(key@.take(i as int) == key@);
        lemma_mod_bound(hash as int, width as int);
    }
    (hash % width as u64) as usize
}

/// The three sketches of an evaluation session. They start empty and are
/// never reset, so what one individual did lowers the novelty of the same
/// behaviour in the next.
#[derive(Clone, Debug, PartialEq, Eq)]
pub struct Sketches {
    /// Register observations.
    pub register_error: NoveltySketch,
    /// Memory-write events.
    pub memory_writes: NoveltySketch,
    /// Instruction addresses.
    pub addresses_visited: NoveltySketch,
}

impl Sketches {
    /// Whether each of the three sketches is well formed.
    pub open spec fn wf(&self) -> bool {
        &&& self.register_error.wf()
        &&& self.memory_writes.wf()
        &&& self.addresses_visited.wf()
    }

    /// Whether each of the three sketches is well formed.
    pub fn is_well_formed(&self) -> (ok: bool)
        ensures
            ok == self.wf(),
    {
        self.register_error.is_well_formed() && self.memory_writes.is_well_formed()
            && self.addresses_visited.is_well_formed()
    }

    /// Whether nothing was recorded yet.
    pub open spec fn is_fresh(&self) -> bool {
        &&& all_zero(self.register_error@)
        &&& all_zero(self.memory_writes@)
        &&& all_zero(self.addresses_visited@)
    }

    /// Three empty sketches, to which everything is new.
    pub fn new() -> (sketches: Sketches)
        ensures
            sketches.wf(),
            sketches.is_fresh(),
            forall|key: Seq<u64>|
                #![all_triggers]
                novelty_of(sketches.register_error@, key) == ONE && novelty_of(
                    sketches.memory_writes@,
                    key,
                ) == ONE && novelty_of(sketches.addresses_visited@, key) == ONE,
    {
        let sketches = Sketches {
            register_error: NoveltySketch::new(DEFAULT_DEPTH, DEFAULT_WIDTH),
            memory_writes: NoveltySketch::new(DEFAULT_DEPTH, DEFAULT_WIDTH),
            addresses_visited: NoveltySketch::new(DEFAULT_DEPTH, DEFAULT_WIDTH),
        };
        proof {
            assert forall|key: Seq<u64>|
                #![all_triggers]
                novelty_of(sketches.register_error@, key) == ONE && novelty_of(
                    sketches.memory_writes@,
                    key,
                ) == ONE && novelty_of(sketches.addresses_visited@, key) == ONE by {
                lemma_empty_is_novel(sketches.register_error@, key);
                lemma_empty_is_novel(sketches.memory_writes@, key);
                lemma_empty_is_novel(sketches.addresses_visited@, key);
            }
        }
        sketches
    }
}

/// A novelty lies between 0 and `ONE`, is `ONE` for what was never seen, and
/// does not rise when the count rises.
pub proof fn lemma_novelty_bounds(fewer: u64, more: u64)
    requires
        fewer <= more,
    ensures
        novelty(more) <= novelty(fewer) <= ONE,
        novelty(0) == ONE,
{
    lemma_div_is_ordered_by_denominator(ONE as int, fewer + 1, more + 1);
    lemma_div_is_ordered_by_denominator(ONE as int, 1, fewer + 1);
    lemma_div_pos_is_pos(ONE as int, more + 1);
}

/// Whether every counter of `table` is 0.
pub open spec fn all_zero(table: Seq<Seq<u64>>) -> bool {
    forall|row: int, at: int|
        0 <= row < table.len() && 0 <= at < table[row].len() ==> (#[trigger] table[row][at]) == 0
}

/// The bucket of a key lies inside its row.
proof fn lemma_bucket_in_row(table: Seq<Seq<u64>>, key: Seq<u64>, row: int)
    requires
        table_wf(table),
        0 <= row < table.len(),
    ensures
        0 <= bucket(key, row, table[row].len()) < table[row].len(),
{
    lemma_mod_bound(key_hash(key, row_seed(row)) as int, table[row].len() as int);
}

/// In a table of zeros the first rows estimate 0.
proof fn lemma_zero_estimate(table: Seq<Seq<u64>>, key: Seq<u64>, rows: int)
    requires
        table_wf(table),
        all_zero(table),
        1 <= rows <= table.len(),
    ensures
        estimate_upto(table, key, rows) == 0,
    decreases rows,
{
    lemma_bucket_in_row(table, key, rows - 1);
    if rows > 1 {
        lemma_zero_estimate(table, key, rows - 1);
    }
}

/// Before anything was seen, every key is as novel as can be.
pub proof fn lemma_empty_is_novel(table: Seq<Seq<u64>>, key: Seq<u64>)
    requires
        table_wf(table),
        all_zero(table),
    ensures
        estimate(table, key) == 0,
        novelty_of(table, key) == ONE,
{
    lemma_zero_estimate(table, key, table.len() as int);
    lemma_novelty_bounds(0, 0);
}

/// An observation keeps the shape of the table.
pub proof fn lemma_inserted_wf(table: Seq<Seq<u64>>, key: Seq<u64>)
    requires
        table_wf(table),
    ensures
        table_wf(inserted(table, key)),
{
    let after = inserted(table, key);
    assert forall|row: int| 0 <= row < after.len() implies (#[trigger] after[row]).len()
        == after[0].len() by {
        assert(table[row].len() == table[0].len());
    }
}

/// What an observation of `key` does to the first rows' estimates: that of
/// `key` is bumped, and that of any `other` key does not fall.
proof fn lemma_estimate_upto_inserted(
    table: Seq<Seq<u64>>,
    key: Seq<u64>,
    other: Seq<u64>,
    rows: int,
)
    requires
        table_wf(table),
        0 <= rows <= table.len(),
    ensures
        estimate_upto(inserted(table, key), key, rows) == bumped(estimate_upto(table, key, rows)),
        estimate_upto(inserted(table, key), other, rows) >= estimate_upto(table, other, rows),
    decreases rows,
{
    if rows > 0 {
        lemma_estimate_upto_inserted(table, key, other, rows - 1);
        lemma_bucket_in_row(table, key, rows - 1);
        lemma_bucket_in_row(table, other, rows - 1);
    }
}

/// After one more observation of `key`, the estimate of `key` is one higher
/// (a full counter stays full), its novelty is no higher than before, and no
/// other key has become more novel.
pub proof fn lemma_insert_lowers_novelty(table: Seq<Seq<u64>>, key: Seq<u64>, other: Seq<u64>)
    requires
        table_wf(table),
    ensures
        estimate(inserted(table, key), key) == bumped(estimate(table, key)),
        novelty_of(inserted(table, key), key) <= novelty_of(table, key),
        novelty_of(inserted(table, key), other) <= novelty_of(table, other),
{
    lemma_estimate_upto_inserted(table, key, other, table.len() as int);
    lemma_novelty_bounds(estimate(table, key), estimate(inserted(table, key), key));
    lemma_novelty_bounds(estimate(table, other), estimate(inserted(table, key), other));
}

/// The novelty of a key lies in `[0, ONE]` after any number of observations
/// of it, and does not rise with their number.
pub proof fn lemma_novelty_falls_with_inserts(
    table: Seq<Seq<u64>>,
    key: Seq<u64>,
    fewer: nat,
    more: nat,
)
    requires
        table_wf(table),
        fewer <= more,
    ensures
        table_wf(inserted_times(table, key, more)),
        novelty_of(inserted_times(table, key, more), key) <= novelty_of(
            inserted_times(table, key, fewer),
            key,
        ) <= ONE,
    decreases more,
{
    if fewer == more {
        lemma_novelty_bounds(
            estimate(inserted_times(table, key, fewer), key),
            estimate(inserted_times(table, key, fewer), key),
        );
        if more > 0 {
            lemma_novelty_falls_with_inserts(table, key, (more - 1) as nat, (more - 1) as nat);
            lemma_inserted_wf(inserted_times(table, key, (more - 1) as nat), key);
        }
    } else {
        lemma_novelty_falls_with_inserts(table, key, fewer, (more - 1) as nat);
        let before = inserted_times(table, key, (more - 1) as nat);
        lemma_inserted_wf(before, key);
        lemma_insert_lowers_novelty(before, key, key);
    }
}

} // verus!
