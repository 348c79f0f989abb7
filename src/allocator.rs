use vstd::prelude::*;

verus! {

/// Start address of the heap region.
pub const HEAP_START_ADDRESS: u64 = 0x3_0000_0000;

/// Length of the heap region.
pub const HEAP_LENGTH: u64 = 0x10_0000;

/// First address past the heap.
pub const TOP_ADDRESS: u64 = HEAP_START_ADDRESS + HEAP_LENGTH;

/// Lowest address that can be handed out: the heap's first word holds the
/// allocation position.
pub const BOTTOM_ADDRESS: u64 = HEAP_START_ADDRESS + 8;

pub open spec fn saturating_sub(a: u64, b: u64) -> u64 {
    if a >= b {
        (a - b) as u64
    } else {
        0
    }
}

/// `x` with the bits of `mask` cleared: rounded down to the alignment that
/// `mask` (alignment minus one) stands for.
pub open spec fn clear_mask(x: u64, mask: u64) -> u64 {
    x & !mask
}

/// The rounded-down value is aligned, at most `x`, and less than one
/// alignment below it.
pub proof fn lemma_clear_mask(x: u64, mask: u64)
    ensures
        clear_mask(x, mask) & mask == 0,
        clear_mask(x, mask) <= x,
        x - clear_mask(x, mask) <= mask,
{
    assert((x & !mask) & mask == 0) by (bit_vector);
    assert((x & !mask) <= x) by (bit_vector);
    assert(x - (x & !mask) <= mask) by (bit_vector);
}

/// A bump allocator over the heap region: it hands out memory downwards
/// from the top and never frees. `pos` is the lowest address handed out,
/// zero before the first allocation.
#[derive(Debug, Clone, Copy)]
pub struct BumpAllocator {
    pub pos: u64,
}

impl BumpAllocator {
    pub open spec fn wf(self) -> bool {
        self.pos == 0 || (BOTTOM_ADDRESS <= self.pos && self.pos <= TOP_ADDRESS)
    }

    /// Where the next allocation starts from.
    pub open spec fn start(self) -> u64 {
        if self.pos == 0 {
            TOP_ADDRESS
        } else {
            self.pos
        }
    }

    /// The address that an allocation of `size` bytes aligned to `align`
    /// would take.
    pub open spec fn next(self, size: u64, align: u64) -> u64 {
        clear_mask(saturating_sub(self.start(), size), saturating_sub(align, 1))
    }

    pub fn new() -> (r: BumpAllocator)
        ensures
            r.wf(),
            r.pos == 0,
    {
        BumpAllocator { pos: 0 }
    }

    /// The number of bytes handed out so far.
    pub fn occupied(&self) -> (r: u64)
        requires
            self.wf(),
        ensures
            r == (if self.pos == 0 {
                0
            } else {
                TOP_ADDRESS - self.pos
            }),
    {
        if self.pos == 0 {
            0
        } else {
            TOP_ADDRESS - self.pos
        }
    }

    /// Hands out `size` bytes aligned to `align` (a mask of `align - 1` is
    /// cleared), below everything handed out before; `None` when they do not
    /// fit above the bottom of the heap, and then nothing changes.
    pub fn allocate(&mut self, size: u64, align: u64) -> (r: Option<u64>)
        requires
            old(self).wf(),
        ensures
            final(self).wf(),
            r == (if old(self).next(size, align) >= BOTTOM_ADDRESS {
                Some(old(self).next(size, align))
            } else {
                None::<u64>
            }),
            r matches Some(p) ==> final(self).pos == p,
            r is None ==> *final(self) == *old(self),
    {
        let mut pos = self.pos;
        if pos == 0 {
            pos = TOP_ADDRESS;
        }
        pos = pos.saturating_sub(size);
        pos &= !(align.saturating_sub(1));
        proof {
            lemma_clear_mask(saturating_sub(old(self).start(), size), saturating_sub(align, 1));
        }
        if pos < BOTTOM_ADDRESS {
            return None;
        }
        self.pos = pos;
        Some(pos)
    }
}

} // verus!
