//! The chromosome of an individual and its genetic operators: random
//! initialisation, masked crossover and memory-aware mutation.

use crate::chance::{distinct_positions, random_tag, random_word, sample_positions, uniform};
use crate::config::Config;
use crate::memory::MemoryImage;
use crate::word::{decode_word, encode_word, word_bytes, word_value};
use vstd::prelude::*;

verus! {

/// Whether bit `index mod 64` of `n` is set.
pub open spec fn bit_at(n: u64, index: nat) -> bool {
    (n >> ((index % 64) as u64)) & 1 == 1
}

/// Tests bit `index mod 64` of `n`, so that a mask of 64 bits covers a
/// chromosome of any length.
pub fn bit(n: u64, index: usize) -> (set: bool)
    ensures
        set == bit_at(n, index as nat),
{
    let shift: u64 = index as u64 % 64;
    (n >> shift) & 1 == 1
}

/// The chromosome of a child: the mother's genes, but for the places where
/// the mask has a set bit, which take the father's gene at the same place,
/// counted round the father's length. An empty father has nothing to give.
pub open spec fn crossed(mother: Seq<u64>, father: Seq<u64>, mask: u64) -> Seq<u64> {
    Seq::new(
        mother.len(),
        |i: int|
            if bit_at(mask, i as nat) && father.len() > 0 {
                father[i % (father.len() as int)]
            } else {
                mother[i]
            },
    )
}

/// Whether `chromosome` takes its genes from `soup` at the places `order`,
/// which rise strictly: a sample without repetition, in the soup's own order.
pub open spec fn ordered_sample(chromosome: Seq<u64>, soup: Seq<u64>, order: Seq<usize>) -> bool {
    &&& order.len() == chromosome.len()
    &&& forall|i: int|
        0 <= i < order.len() ==> (#[trigger] order[i]) < soup.len() && chromosome[i]
            == soup[order[i] as int]
    &&& forall|i: int, j: int|
        0 <= i < j < order.len() ==> (#[trigger] order[i]) < (#[trigger] order[j])
}

/// The ways to change one gene.
#[derive(Clone, Copy, Debug, PartialEq, Eq, Structural)]
pub enum MutationKind {
    /// Follow the gene as a pointer and take the word it points at.
    Dereference,
    /// Replace the gene by an address that points at its value.
    Indirection,
    /// Add a small offset, wrapping round.
    Increment,
    /// Subtract a small offset, wrapping round.
    Decrement,
}

/// What a dereference makes of `gene`: the word at that address where the
/// memory there runs on for more than eight bytes, else the gene itself.
pub open spec fn dereferenced(gene: u64, memory: &MemoryImage) -> nat {
    match memory.span_at(gene) {
        Some(span) => if span.len() > 8 {
            word_value(span, memory.word_size as nat, memory.endian)
        } else {
            gene as nat
        },
        None => gene as nat,
    }
}

/// Whether an indirection turns `gene` into `changed`: into the first
/// address whose memory starts with the bytes of `gene`, or into itself where
/// there is no such address.
pub open spec fn indirected(gene: u64, changed: u64, memory: &MemoryImage) -> bool {
    let pattern = word_bytes(gene, memory.word_size as nat, memory.endian);
    if exists|addr: u64| memory.starts_with_at(addr, pattern) {
        memory.first_match(changed, pattern)
    } else {
        changed == gene
    }
}

/// Whether a mutation of the given kind may turn `gene` into `changed`.
pub open spec fn mutation_allows(
    kind: MutationKind,
    offset: u64,
    gene: u64,
    changed: u64,
    memory: &MemoryImage,
) -> bool {
    match kind {
        MutationKind::Dereference => changed as nat == dereferenced(gene, memory),
        MutationKind::Indirection => indirected(gene, changed, memory),
        MutationKind::Increment => changed == gene.wrapping_add(offset),
        MutationKind::Decrement => changed == gene.wrapping_sub(offset),
    }
}

impl MutationKind {
    /// The kind that a draw from `[0, 4)` stands for.
    pub fn from_draw(draw: u64) -> (kind: MutationKind)
        requires
            draw < 4,
        ensures
            kind == match draw {
                0 => MutationKind::Dereference,
                1 => MutationKind::Indirection,
                2 => MutationKind::Increment,
                _ => MutationKind::Decrement,
            },
    {
        if draw == 0 {
            MutationKind::Dereference
        } else if draw == 1 {
            MutationKind::Indirection
        } else if draw == 2 {
            MutationKind::Increment
        } else {
            MutationKind::Decrement
        }
    }
}

/// The genome of one individual.
#[derive(Clone, Debug, PartialEq, Eq)]
pub struct Genotype {
    /// Governs the crossovers that this individual takes part in.
    pub crossover_mask: u64,
    /// The genes: addresses into the target, or plain numbers.
    pub chromosome: Vec<u64>,
    /// A random identifier.
    pub tag: u64,
    /// The display name, unique in a population.
    pub name: String,
    /// The names of the parents: none for a founder, two after a crossover.
    pub parents: Vec<String>,
}

impl Genotype {
    /// Whether `self` is what a crossover makes of `mother` and `father`:
    /// the mask is the exclusive or of theirs, the chromosome is crossed
    /// under that mask, the name is still to be given, and the parents are
    /// named mother first.
    pub open spec fn is_child_of(&self, mother: &Genotype, father: &Genotype) -> bool {
        &&& self.crossover_mask == mother.crossover_mask ^ father.crossover_mask
        &&& self.chromosome@ == crossed(
            mother.chromosome@,
            father.chromosome@,
            self.crossover_mask,
        )
        &&& self.name@.len() == 0
        &&& self.parents@.len() == 2
        &&& self.parents@[0] == mother.name
        &&& self.parents@[1] == father.name
    }

    /// Whether `self` differs from `before` at most in the gene at `index`.
    pub open spec fn same_but_gene(&self, before: &Genotype, index: int) -> bool {
        &&& self.crossover_mask == before.crossover_mask
        &&& self.tag == before.tag
        &&& self.name == before.name
        &&& self.parents == before.parents
        &&& self.chromosome@.len() == before.chromosome@.len()
        &&& forall|j: int|
            0 <= j < self.chromosome@.len() && j != index ==> self.chromosome@[j]
                == before.chromosome@[j]
    }

    /// One child of `mother` and `father` under `mask`, with the given tag.
    fn cross(mother: &Genotype, father: &Genotype, mask: u64, tag: u64) -> (child: Genotype)
        requires
            mask == mother.crossover_mask ^ father.crossover_mask,
        ensures
            child.is_child_of(mother, father),
            child.tag == tag,
    {
        let mut chromosome: Vec<u64> = Vec::new();
        let mut i: usize = 0;
        while i < mother.chromosome.len()
            invariant
                i <= mother.chromosome@.len(),
                chromosome@ == crossed(mother.chromosome@, father.chromosome@, mask).take(i as int),
            decreases mother.chromosome@.len() - i,
        {
            let gene = if bit(mask, i) && father.chromosome.len() > 0 {
                father.chromosome[i % father.chromosome.len()]
            } else {
                mother.chromosome[i]
            };
            chromosome.push(gene);
            i += 1;
        }
        proof {
            let whole = crossed(mother.chromosome@, father.chromosome@, mask);
            assert(whole.take(whole.len() as int) == whole);
        }
        let mut parents: Vec<String> = Vec::new();
        parents.push(mother.name.clone());
        parents.push(father.name.clone());
        Genotype { crossover_mask: mask, chromosome, tag, name: String::new(), parents }
    }

    /// The two children of `self` and `mate`. Both carry the exclusive or of
    /// the parents' masks. The first has `self` as mother and `mate` as
    /// father, the second the other way round; each gets a fresh random tag
    /// and no name.
    pub fn crossover(&self, mate: &Self, _params: &Config) -> (children: Vec<Genotype>)
        ensures
            children@.len() == 2,
            children@[0].is_child_of(self, mate),
            children@[1].is_child_of(mate, self),
            forall|k: int|
                0 <= k < 2 ==> (#[trigger] children@[k]).crossover_mask == self.crossover_mask
                    ^ mate.crossover_mask,
    {
        let mask = self.crossover_mask ^ mate.crossover_mask;
        proof {
            lemma_mask_symmetric(self.crossover_mask, mate.crossover_mask);
        }
        let first = Self::cross(self, mate, mask, random_tag());
        let second = Self::cross(mate, self, mask, random_tag());
        let mut children: Vec<Genotype> = Vec::new();
        children.push(first);
        children.push(second);
        children
    }

    /// A founder whose genes are the soup's values at the given places, taken
    /// in the soup's own order whatever order the places come in.
    pub fn from_sample(
        soup: &Vec<u64>,
        positions: &Vec<usize>,
        crossover_mask: u64,
        tag: u64,
        name: String,
    ) -> (founder: Genotype)
        requires
            distinct_positions(positions@, soup@.len()),
        ensures
            founder.crossover_mask == crossover_mask,
            founder.tag == tag,
            founder.name == name,
            founder.parents@.len() == 0,
            founder.chromosome@.len() == positions@.len(),
            exists|order: Seq<usize>|
                #[trigger] ordered_sample(founder.chromosome@, soup@, order) && forall|i: int|
                    0 <= i < order.len() ==> positions@.contains(#[trigger] order[i]),
    {
        let order = sorted_positions(positions);
        let mut chromosome: Vec<u64> = Vec::new();
        let mut i: usize = 0;
        while i < order.len()
            invariant
                i <= order@.len(),
                chromosome@.len() == i,
                forall|k: int| 0 <= k < order@.len() ==> (#[trigger] order@[k]) < soup@.len(),
                forall|k: int|
                    0 <= k < i ==> chromosome@[k] == soup@[(#[trigger] order@[k]) as int],
            decreases order@.len() - i,
        {
            chromosome.push(soup[order[i]]);
            i += 1;
        }
        let founder = Genotype { crossover_mask, chromosome, tag, name, parents: Vec::new() };
        proof {
            assert(ordered_sample(founder.chromosome@, soup@, order@));
            assert(forall|i: int|
                0 <= i < order@.len() ==> positions@.contains(#[trigger] order@[i]));
        }
        founder
    }

    /// A founder: a length drawn from `[min_init_len, max_init_len)`, that
    /// many genes sampled from the soup without repetition and kept in the
    /// soup's order, a random mask and tag, and no parents. A soup with fewer
    /// values than the drawn length gives all of them, so the chromosome is
    /// shorter than `min_init_len` only where the whole soup is.
    pub fn random(params: &Config, name: String) -> (founder: Genotype)
        requires
            params.min_init_len < params.max_init_len,
        ensures
            founder.name == name,
            founder.parents@.len() == 0,
            exists|length: int|
                params.min_init_len <= length < params.max_init_len
                    && #[trigger] sample_len(length, params.soup@.len())
                    == founder.chromosome@.len(),
            founder.chromosome@.len() < params.max_init_len,
            params.soup@.len() >= params.min_init_len ==> params.min_init_len
                <= founder.chromosome@.len(),
            exists|order: Seq<usize>| #[trigger]
                ordered_sample(founder.chromosome@, params.soup@, order),
    {
        let length = uniform(params.min_init_len as u64, params.max_init_len as u64) as usize;
        let amount = if length <= params.soup.len() {
            length
        } else {
            params.soup.len()
        };
        let positions = sample_positions(&params.soup, amount);
        let crossover_mask = random_word();
        let tag = random_word();
        proof {
            assert(sample_len(length as int, params.soup@.len()) == amount);
        }
        Self::from_sample(&params.soup, &positions, crossover_mask, tag, name)
    }

    /// Changes the gene at `index` by a mutation of the given kind, and
    /// nothing else. A dereference or an indirection whose lookup finds
    /// nothing leaves the gene as it was.
    pub fn apply_mutation(
        &mut self,
        index: usize,
        kind: MutationKind,
        offset: u64,
        memory: &MemoryImage,
    )
        requires
            index < old(self).chromosome@.len(),
            memory.wf(),
        ensures
            final(self).same_but_gene(old(self), index as int),
            mutation_allows(
                kind,
                offset,
                old(self).chromosome@[index as int],
                final(self).chromosome@[index as int],
                memory,
            ),
    {
        let gene = self.chromosome[index];
        match kind {
            MutationKind::Dereference => {
                match memory.try_dereference(gene) {
                    Some(bytes) => {
                        if bytes.len() > 8 {
                            let word = decode_word(bytes, memory.word_size, memory.endian);
                            self.chromosome.set(index, word);
                        }
                    },
                    None => {},
                }
            },
            MutationKind::Indirection => {
                let bytes = encode_word(gene, memory.word_size, memory.endian);
                match memory.reverse_lookup(bytes.as_slice()) {
                    Some(address) => {
                        self.chromosome.set(index, address);
                    },
                    None => {},
                }
            },
            MutationKind::Increment => {
                self.chromosome.set(index, gene.wrapping_add(offset));
            },
            MutationKind::Decrement => {
                self.chromosome.set(index, gene.wrapping_sub(offset));
            },
        }
    }

    /// Mutates one gene, drawn at random, by a kind drawn at random, with an
    /// offset drawn from `[0, 256)` for the two arithmetic kinds. The length
    /// of the chromosome never changes.
    pub fn mutate(&mut self, _params: &Config, memory: &MemoryImage)
        requires
            old(self).chromosome@.len() > 0,
            memory.wf(),
        ensures
            final(self).chromosome@.len() == old(self).chromosome@.len(),
            exists|index: int, kind: MutationKind, offset: u64|
                0 <= index < old(self).chromosome@.len() && offset < 256
                    && final(self).same_but_gene(old(self), index)
                    && #[trigger] mutation_allows(
                    kind,
                    offset,
                    old(self).chromosome@[index],
                    final(self).chromosome@[index],
                    memory,
                ),
    {
        let index = uniform(0, self.chromosome.len() as u64) as usize;
        let kind = MutationKind::from_draw(uniform(0, 4));
        let offset = uniform(0, 0x100);
        self.apply_mutation(index, kind, offset, memory);
    }
}

/// The mask of a child does not depend on which parent is the mother.
pub proof fn lemma_mask_symmetric(a: u64, b: u64)
    ensures
        a ^ b == b ^ a,
{
    assert(a ^ b == b ^ a) by (bit_vector);
}

/// The number of genes that a sample of `length` takes from a soup of
/// `available` values.
pub open spec fn sample_len(length: int, available: nat) -> int {
    if length <= available {
        length
    } else {
        available as int
    }
}

/// The given places in rising order.
fn sorted_positions(positions: &Vec<usize>) -> (sorted: Vec<usize>)
    requires
        forall|i: int, j: int|
            0 <= i < j < positions@.len() ==> #[trigger] positions@[i] != #[trigger] positions@[j],
    ensures
        sorted@.len() == positions@.len(),
        forall|i: int, j: int|
            0 <= i < j < sorted@.len() ==> (#[trigger] sorted@[i]) < (#[trigger] sorted@[j]),
        forall|i: int| 0 <= i < sorted@.len() ==> positions@.contains(#[trigger] sorted@[i]),
{
    let mut sorted: Vec<usize> = Vec::new();
    let ghost mut source: Seq<int> = Seq::empty();
    let mut k: usize = 0;
    while k < positions.len()
        invariant
            k <= positions@.len(),
            sorted@.len() == k,
            source.len() == k,
            forall|i: int, j: int|
                0 <= i < j < positions@.len() ==> #[trigger] positions@[i]
                    != #[trigger] positions@[j],
            forall|i: int, j: int|
                0 <= i < j < sorted@.len() ==> (#[trigger] sorted@[i]) < (#[trigger] sorted@[j]),
            forall|i: int|
                0 <= i < k ==> 0 <= (#[trigger] source[i]) < k && sorted@[i]
                    == positions@[source[i]],
        decreases positions@.len() - k,
    {
        let place = positions[k];
        let mut at: usize = 0;
        while at < sorted.len() && sorted[at] < place
            invariant
                at <= sorted@.len(),
                forall|i: int| 0 <= i < at ==> (#[trigger] sorted@[i]) < place,
            decreases sorted@.len() - at,
        {
            at += 1;
        }
        proof {
            if at < sorted@.len() {
                assert(sorted@[at as int] == positions@[source[at as int]]);
                assert(sorted@[at as int] != place);
            }
        }
        let ghost before = sorted@;
        sorted.insert(at, place);
        proof {
            source = source.insert(at as int, k as int);
            assert forall|i: int, j: int| 0 <= i < j < sorted@.len() implies (#[trigger] sorted@[i])
                < (#[trigger] sorted@[j]) by {
                let bi = if i < at { i } else { i - 1 };
                let bj = if j < at { j } else { j - 1 };
                if i != at && j != at {
                    assert(before[bi] < before[bj]);
                } else if i == at {
                    assert(before[bj] >= before[at as int]);
                }
            }
        }
        k += 1;
    }
    proof {
        assert forall|i: int| 0 <= i < sorted@.len() implies positions@.contains(
            #[trigger] sorted@[i],
        ) by {
            assert(sorted@[i] == positions@[source[i]]);
        }
    }
    sorted
}

/// Every gene of a child is the mother's gene at its place, or, where the
/// mask has a set bit and the father has genes, the father's gene at that
/// place counted round his length: the place read is `i mod father.len()`,
/// which lies inside his chromosome.
pub proof fn lemma_crossed_genes(mother: Seq<u64>, father: Seq<u64>, mask: u64, i: int)
    requires
        0 <= i < mother.len(),
    ensures
        crossed(mother, father, mask).len() == mother.len(),
        father.len() > 0 ==> 0 <= i % (father.len() as int) < father.len(),
        bit_at(mask, i as nat) && father.len() > 0 ==> crossed(mother, father, mask)[i] == father[i
            % (father.len() as int)],
        !(bit_at(mask, i as nat) && father.len() > 0) ==> crossed(mother, father, mask)[i]
            == mother[i],
{
}

} // verus!
