//! The addresses that a run visited: every address inside a basic block
//! that ran, each once.

use crate::profile::{Block, Profile};
use hashbrown::HashSet;
use vstd::prelude::*;

verus! {

/// `hashbrown::HashSet`.
#[verifier::external_type_specification]
#[verifier::external_body]
#[verifier::reject_recursive_types(T)]
#[verifier::reject_recursive_types(S)]
pub struct ExHashSet<T, S>(HashSet<T, S>);

/// The hasher that a `hashbrown::HashSet` uses where none is named.
#[verifier::external_type_specification]
#[verifier::external_body]
pub struct ExDefaultHashBuilder(hashbrown::hash_map::DefaultHashBuilder);

/// The addresses that a set holds.
pub uninterp spec fn members(set: HashSet<u64>) -> Set<u64>;

/// `HashSet::new`: a set that holds nothing.
#[verifier::external_body]
fn address_set_new() -> (set: HashSet<u64>)
    ensures
        members(set) == Set::<u64>::empty(),
{
    HashSet::new()
}

/// `HashSet::insert`: the set holds `addr` afterwards and whatever it held
/// before; the result says whether `addr` is new to it.
#[verifier::external_body]
fn address_set_insert(set: &mut HashSet<u64>, addr: u64) -> (fresh: bool)
    ensures
        members(*final(set)) == members(*old(set)).insert(addr),
        fresh == !members(*old(set)).contains(addr),
{
    set.insert(addr)
}

/// `HashSet::iter`, collected: every address that the set holds, once, in
/// an order that nothing is known of.
#[verifier::external_body]
fn address_set_list(set: &HashSet<u64>) -> (list: Vec<u64>)
    ensures
        list@.no_duplicates(),
        forall|addr: u64| #[trigger] list@.contains(addr) <==> members(*set).contains(addr),
{
    set.iter().copied().collect()
}

/// Whether one of `blocks` covers `addr`.
pub open spec fn covered(blocks: Seq<Block>, addr: u64) -> bool
    decreases blocks.len(),
{
    if blocks.len() == 0 {
        false
    } else {
        covered(blocks.drop_last(), addr) || blocks.last().covers(addr)
    }
}

/// Whether a block of one of `paths` covers `addr`.
pub open spec fn visited_by(paths: Seq<Vec<Block>>, addr: u64) -> bool
    decreases paths.len(),
{
    if paths.len() == 0 {
        false
    } else {
        visited_by(paths.drop_last(), addr) || covered(paths.last()@, addr)
    }
}

/// Whether `addresses` are the addresses that `paths` visited, each once.
pub open spec fn lists_visited(addresses: Seq<u64>, paths: Seq<Vec<Block>>) -> bool {
    &&& addresses.no_duplicates()
    &&& forall|addr: u64| #[trigger] addresses.contains(addr) <==> visited_by(paths, addr)
}

/// The addresses that the run visited, each once, in no particular order.
pub fn addresses_visited(profile: &Profile) -> (addresses: Vec<u64>)
    ensures
        lists_visited(addresses@, profile.paths@),
{
    let mut set = address_set_new();
    let mut p: usize = 0;
    while p < profile.paths.len()
        invariant
            p <= profile.paths@.len(),
            forall|addr: u64| #[trigger]
                members(set).contains(addr) <==> visited_by(profile.paths@.take(p as int), addr),
        decreases profile.paths@.len() - p,
    {
        let path = &profile.paths[p];
        let ghost earlier = profile.paths@.take(p as int);
        let mut b: usize = 0;
        while b < path.len()
            invariant
                b <= path@.len(),
                forall|addr: u64| #[trigger]
                    members(set).contains(addr) <==> visited_by(earlier, addr) || covered(
                        path@.take(b as int),
                        addr,
                    ),
            decreases path@.len() - b,
        {
            let entry = path[b].entry;
            let size = path[b].size as u64;
            let ghost done = path@.take(b as int);
            let mut offset: u64 = 0;
            while offset < size && offset <= u64::MAX - entry
                invariant
                    offset <= size,
                    forall|addr: u64| #[trigger]
                        members(set).contains(addr) <==> visited_by(earlier, addr) || covered(
                            done,
                            addr,
                        ) || entry <= addr < entry + offset,
                decreases size - offset,
            {
                address_set_insert(&mut set, entry + offset);
                offset += 1;
            }
            proof {
                assert(path@.take(b as int + 1).drop_last() == done);
                assert(path@.take(b as int + 1).last() == path@[b as int]);
                assert forall|addr: u64| #[trigger]
                    members(set).contains(addr) <==> visited_by(earlier, addr) || covered(
                        path@.take(b as int + 1),
                        addr,
                    ) by {
                    assert(path@[b as int].covers(addr) <==> entry <= addr < entry + offset);
                }
            }
            b += 1;
        }
        proof {
            assert(path@.take(b as int) == path@);
            assert(profile.paths@.take(p as int + 1).drop_last() == earlier);
            assert(profile.paths@.take(p as int + 1).last() == profile.paths@[p as int]);
        }
        p += 1;
    }
    proof {
        assert(profile.paths@.take(p as int) == profile.paths@);
    }
    address_set_list(&set)
}

} // verus!
