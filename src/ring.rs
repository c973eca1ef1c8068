//! A ring of uniform-buffer slots that never hands out a slot whose last
//! reader may still be running on the GPU.
use vstd::prelude::*;

verus! {

/// Whether a slot last read by `reader` may be written, given the newest
/// frame known to have finished (frames finish in order).
pub open spec fn slot_free(reader: Option<u64>, retired: Option<u64>) -> bool {
    match reader {
        None => true,
        Some(f) => match retired {
            Some(r) => f <= r,
            None => false,
        },
    }
}

/// Slot `i` holds the last frame that read it, or `None` if none has.
pub struct UniformRing {
    pub readers: Vec<Option<u64>>,
    pub retired: Option<u64>,
}

impl UniformRing {
    /// A ring with no slot yet and no frame finished.
    pub fn new() -> (r: UniformRing)
        ensures
            r.readers@.len() == 0,
            r.retired is None,
    {
        UniformRing { readers: Vec::new(), retired: None }
    }

    /// Records that every frame up to `frame` has finished on the GPU.
    pub fn retire(&mut self, frame: u64)
        ensures
            final(self).readers@ == old(self).readers@,
            final(self).retired == Some(
                match old(self).retired {
                    Some(r) => if r > frame {
                        r
                    } else {
                        frame
                    },
                    None => frame,
                },
            ),
    {
        self.retired = match self.retired {
            Some(r) => if r > frame {
                Some(r)
            } else {
                Some(frame)
            },
            None => Some(frame),
        };
    }

    /// Gives back the slot that frame `frame` took but never submitted, if it
    /// still holds that frame.
    pub fn release(&mut self, slot: usize, frame: u64)
        ensures
            final(self).retired == old(self).retired,
            final(self).readers@ == (if slot < old(self).readers@.len() && old(self).readers@[slot as int]
                == Some(frame) {
                old(self).readers@.update(slot as int, None)
            } else {
                old(self).readers@
            }),
    {
        if slot < self.readers.len() && self.readers[slot] == Some(frame) {
            self.readers.set(slot, None);
        }
    }

    /// Picks the slot that frame `frame` writes its uniforms to: the first
    /// free one, or a new one where none is free. The slot is then marked as
    /// read by `frame`.
    pub fn next_slot(&mut self, frame: u64) -> (r: usize)
        ensures
            r <= old(self).readers@.len(),
            forall|i: int| 0 <= i < r ==> !slot_free(#[trigger] old(self).readers@[i], old(self).retired),
            r < old(self).readers@.len() ==> slot_free(old(self).readers@[r as int], old(self).retired)
                && final(self).readers@ == old(self).readers@.update(r as int, Some(frame)),
            r == old(self).readers@.len() ==> final(self).readers@ == old(self).readers@.push(Some(frame)),
            final(self).retired == old(self).retired,
    {
        let mut i: usize = 0;
        while i < self.readers.len()
            invariant
                i <= self.readers@.len(),
                self.readers@ == old(self).readers@,
                self.retired == old(self).retired,
                forall|k: int| 0 <= k < i ==> !slot_free(#[trigger] self.readers@[k], self.retired),
            decreases self.readers@.len() - i,
        {
            let free = match self.readers[i] {
                None => true,
                Some(f) => match self.retired {
                    Some(r) => f <= r,
                    None => false,
                },
            };
            if free {
                self.readers.set(i, Some(frame));
                return i;
            }
            i = i + 1;
        }
        self.readers.push(Some(frame));
        i
    }
}

} // verus!
