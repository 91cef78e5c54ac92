//! The loaded target as the operators see it: byte segments at addresses,
//! with the target's word size and byte order.

use crate::word::{valid_word_size, Endian};
use vstd::prelude::*;
use vstd::slice::slice_subrange;

verus! {

/// A run of bytes loaded at `base`.
#[derive(Clone, Debug, PartialEq, Eq)]
pub struct Segment {
    pub base: u64,
    pub bytes: Vec<u8>,
    pub executable: bool,
}

impl Segment {
    /// Whether `addr` lies inside the segment.
    pub open spec fn holds(&self, addr: u64) -> bool {
        self.base <= addr < self.base + self.bytes@.len()
    }

    /// The bytes from `addr` to the end of the segment.
    pub open spec fn span_from(&self, addr: u64) -> Seq<u8> {
        self.bytes@.subrange(addr - self.base, self.bytes@.len() as int)
    }
}

/// The bytes from `addr` to the end of the first segment that holds `addr`.
pub open spec fn span_in(segments: Seq<Segment>, addr: u64) -> Option<Seq<u8>>
    decreases segments.len(),
{
    if segments.len() == 0 {
        None
    } else if segments[0].holds(addr) {
        Some(segments[0].span_from(addr))
    } else {
        span_in(segments.drop_first(), addr)
    }
}

/// The bytes of the executable segments, counted.
pub open spec fn executable_bytes(segments: Seq<Segment>) -> nat
    decreases segments.len(),
{
    if segments.len() == 0 {
        0
    } else {
        executable_bytes(segments.drop_last()) + if segments.last().executable {
            segments.last().bytes@.len()
        } else {
            0
        }
    }
}

/// The size of the executable region as far as a `usize` can tell.
pub open spec fn executable_size(segments: Seq<Segment>) -> nat {
    if executable_bytes(segments) <= usize::MAX {
        executable_bytes(segments)
    } else {
        usize::MAX as nat
    }
}

/// A read-only image of the target's memory.
#[derive(Clone, Debug, PartialEq, Eq)]
pub struct MemoryImage {
    pub segments: Vec<Segment>,
    pub word_size: usize,
    pub endian: Endian,
}

impl MemoryImage {
    /// The word size is one that a target can have.
    pub open spec fn wf(&self) -> bool {
        valid_word_size(self.word_size as nat)
    }

    /// Whether the word size is one that a target can have.
    pub fn is_well_formed(&self) -> (ok: bool)
        ensures
            ok == self.wf(),
    {
        self.word_size == 2 || self.word_size == 4 || self.word_size == 8
    }

    /// What `addr` points at: the bytes from there to the end of its segment.
    pub open spec fn span_at(&self, addr: u64) -> Option<Seq<u8>> {
        span_in(self.segments@, addr)
    }

    /// Whether the memory at `addr` starts with `pattern`.
    pub open spec fn starts_with_at(&self, addr: u64, pattern: Seq<u8>) -> bool {
        match self.span_at(addr) {
            Some(span) => pattern.is_prefix_of(span),
            None => false,
        }
    }

    /// Whether `addr` is the first address whose memory starts with
    /// `pattern`: it lies in the first segment that holds such an address,
    /// and is the lowest such address there.
    pub open spec fn first_match(&self, addr: u64, pattern: Seq<u8>) -> bool {
        exists|i: int|
            {
                &&& 0 <= i < self.segments@.len()
                &&& (#[trigger] self.segments@[i]).holds(addr)
                &&& self.starts_with_at(addr, pattern)
                &&& forall|j: int, other: u64|
                    0 <= j < i && (#[trigger] self.segments@[j]).holds(other)
                        ==> !#[trigger] self.starts_with_at(other, pattern)
                &&& forall|other: u64|
                    self.segments@[i].base <= other < addr ==> !#[trigger] self.starts_with_at(
                        other,
                        pattern,
                    )
            }
    }

    /// The bytes that `addr` points at, up to the end of their segment, or
    /// `None` where no segment holds `addr`.
    pub fn try_dereference(&self, addr: u64) -> (span: Option<&[u8]>)
        ensures
            match span {
                Some(bytes) => self.span_at(addr) == Some(bytes@),
                None => self.span_at(addr) is None,
            },
    {
        let mut i: usize = 0;
        proof {
            assert(self.segments@.skip(0) == self.segments@);
        }
        while i < self.segments.len()
            invariant
                i <= self.segments@.len(),
                span_in(self.segments@, addr) == span_in(self.segments@.skip(i as int), addr),
            decreases self.segments@.len() - i,
        {
            let segment = &self.segments[i];
            proof {
                assert(self.segments@.skip(i as int)[0] == self.segments@[i as int]);
                assert(self.segments@.skip(i as int).drop_first() == self.segments@.skip(
                    i as int + 1,
                ));
            }
            if addr >= segment.base && addr - segment.base < segment.bytes.len() as u64 {
                let offset: usize = (addr - segment.base) as usize;
                let bytes = slice_subrange(segment.bytes.as_slice(), offset, segment.bytes.len());
                return Some(bytes);
            }
            i += 1;
        }
        None
    }

    /// The first address whose memory starts with `pattern`, or `None` where
    /// there is no such address.
    pub fn reverse_lookup(&self, pattern: &[u8]) -> (found: Option<u64>)
        ensures
            match found {
                Some(addr) => self.first_match(addr, pattern@),
                None => forall|addr: u64| !self.starts_with_at(addr, pattern@),
            },
    {
        let mut i: usize = 0;
        while i < self.segments.len()
            invariant
                i <= self.segments@.len(),
                forall|j: int, addr: u64|
                    0 <= j < i && (#[trigger] self.segments@[j]).holds(addr)
                        ==> !#[trigger] self.starts_with_at(addr, pattern@),
            decreases self.segments@.len() - i,
        {
            let segment = &self.segments[i];
            let mut offset: usize = 0;
            while offset < segment.bytes.len()
                invariant
                    i < self.segments@.len(),
                    segment == &self.segments@[i as int],
                    offset <= segment.bytes@.len(),
                    forall|j: int, addr: u64|
                        0 <= j < i && (#[trigger] self.segments@[j]).holds(addr)
                            ==> !#[trigger] self.starts_with_at(addr, pattern@),
                    forall|addr: u64|
                        segment.base <= addr < segment.base + offset
                            ==> !#[trigger] self.starts_with_at(addr, pattern@),
                decreases segment.bytes@.len() - offset,
            {
                match segment.base.checked_add(offset as u64) {
                    Some(addr) => {
                        match self.try_dereference(addr) {
                            Some(span) => {
                                if starts_with(span, pattern) {
                                    proof {
                                        assert(self.segments@[i as int].holds(addr));
                                    }
                                    return Some(addr);
                                }
                            },
                            None => {},
                        }
                    },
                    None => {},
                }
                offset += 1;
            }
            i += 1;
        }
        proof {
            assert forall|addr: u64| !self.starts_with_at(addr, pattern@) by {
                lemma_span_has_segment(self.segments@, addr);
            }
        }
        None
    }

    /// The size of the executable region in bytes, or `usize::MAX` where the
    /// count does not fit.
    pub fn size_of_executable_memory(&self) -> (size: usize)
        ensures
            size as nat == executable_size(self.segments@),
    {
        let mut total: usize = 0;
        let mut i: usize = 0;
        while i < self.segments.len()
            invariant
                i <= self.segments@.len(),
                total as nat == if executable_bytes(self.segments@.take(i as int)) <= usize::MAX {
                    executable_bytes(self.segments@.take(i as int))
                } else {
                    usize::MAX as nat
                },
            decreases self.segments@.len() - i,
        {
            proof {
                assert(self.segments@.take(i as int + 1).drop_last() == self.segments@.take(
                    i as int,
                ));
            }
            if self.segments[i].executable {
                total = total.saturating_add(self.segments[i].bytes.len());
            }
            i += 1;
        }
        proof {
            assert(self.segments@.take(i as int) == self.segments@);
        }
        total
    }
}

/// Whether `bytes` begins with `pattern`.
pub fn starts_with(bytes: &[u8], pattern: &[u8]) -> (yes: bool)
    ensures
        yes == pattern@.is_prefix_of(bytes@),
{
    if pattern.len() > bytes.len() {
        return false;
    }
    let mut i: usize = 0;
    while i < pattern.len()
        invariant
            i <= pattern@.len() <= bytes@.len(),
            forall|k: int| 0 <= k < i ==> pattern@[k] == bytes@[k],
        decreases pattern@.len() - i,
    {
        if pattern[i] != bytes[i] {
            proof {
                assert(bytes@.subrange(0, pattern@.len() as int)[i as int] != pattern@[i as int]);
            }
            return false;
        }
        i += 1;
    }
    proof {
        assert(bytes@.subrange(0, pattern@.len() as int) =~= pattern@);
    }
    true
}

/// An address that points at something lies in one of the segments.
proof fn lemma_span_has_segment(segments: Seq<Segment>, addr: u64)
    ensures
        span_in(segments, addr) is Some ==> exists|j: int|
            0 <= j < segments.len() && (#[trigger] segments[j]).holds(addr),
    decreases segments.len(),
{
    if segments.len() > 0 && !segments[0].holds(addr) {
        lemma_span_has_segment(segments.drop_first(), addr);
        if span_in(segments, addr) is Some {
            let j = choose|j: int|
                0 <= j < segments.drop_first().len() && (#[trigger] segments.drop_first()[j]).holds(
                    addr,
                );
            assert(segments[j + 1].holds(addr));
        }
    } else if segments.len() > 0 {
        assert(segments[0].holds(addr));
    }
}

/// There is at most one first address whose memory starts with a pattern.
pub proof fn lemma_first_match_unique(memory: &MemoryImage, a: u64, b: u64, pattern: Seq<u8>)
    requires
        memory.first_match(a, pattern),
        memory.first_match(b, pattern),
    ensures
        a == b,
{
    let i = choose|i: int|
        {
            &&& 0 <= i < memory.segments@.len()
            &&& (#[trigger] memory.segments@[i]).holds(a)
            &&& memory.starts_with_at(a, pattern)
            &&& forall|j: int, other: u64|
                0 <= j < i && (#[trigger] memory.segments@[j]).holds(other)
                    ==> !#[trigger] memory.starts_with_at(other, pattern)
            &&& forall|other: u64|
                memory.segments@[i].base <= other < a ==> !#[trigger] memory.starts_with_at(
                    other,
                    pattern,
                )
        };
    let k = choose|k: int|
        {
            &&& 0 <= k < memory.segments@.len()
            &&& (#[trigger] memory.segments@[k]).holds(b)
            &&& memory.starts_with_at(b, pattern)
            &&& forall|j: int, other: u64|
                0 <= j < k && (#[trigger] memory.segments@[j]).holds(other)
                    ==> !#[trigger] memory.starts_with_at(other, pattern)
            &&& forall|other: u64|
                memory.segments@[k].base <= other < b ==> !#[trigger] memory.starts_with_at(
                    other,
                    pattern,
                )
        };
    if i < k {
        assert(memory.segments@[i].holds(a));
        assert(!memory.starts_with_at(a, pattern));
    } else if k < i {
        assert(memory.segments@[k].holds(b));
        assert(!memory.starts_with_at(b, pattern));
    }
}

} // verus!
