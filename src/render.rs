//! The frame engine's decisions: when the swapchain is rebuilt, whether a
//! frame is drawn or abandoned, which completion token a submission waits on,
//! and which uniform slot a frame writes.
use vstd::prelude::*;

use crate::font::Font;
use crate::overlay::TextOverlay;
use crate::ring::{UniformRing, slot_free};

verus! {

/// The one live completion token: the newest GPU work that the next
/// submission must wait on.
#[derive(Clone, Copy, Debug, PartialEq, Eq)]
pub enum Token {
    /// Nothing pending: the queue's idle baseline.
    Idle,
    /// The work submitted by frame `id`.
    Frame { id: u64 },
}

/// How acquiring the next presentable image went.
#[derive(Clone, Copy, Debug, PartialEq, Eq)]
pub enum AcquireOutcome {
    Acquired { image: usize, suboptimal: bool },
    OutOfDate,
    Failed,
}

/// How submitting and presenting a frame went.
#[derive(Clone, Copy, Debug, PartialEq, Eq)]
pub enum PresentOutcome {
    Presented,
    OutOfDate,
    Failed,
}

/// What starting a frame asks for.
#[derive(Clone, Copy, Debug, PartialEq, Eq)]
pub struct FrameStart {
    /// The frame's number.
    pub id: u64,
    /// Rebuild the swapchain, its framebuffers and pipelines first.
    pub rebuild: bool,
    /// The uniform slot this frame writes.
    pub uniform_slot: usize,
}

/// What to do once the image is acquired, or not.
#[derive(Clone, Copy, Debug, PartialEq, Eq)]
pub enum FrameAction {
    /// Record the render pass into `image`'s framebuffer, draw the mesh (and
    /// the overlay if `overlay`), submit after `wait_on` and the
    /// acquisition, then present.
    Draw { image: usize, wait_on: Token, overlay: bool },
    /// Record, submit and present nothing this frame.
    Abandon,
}

/// What the swapchain's staleness responds to.
#[derive(Clone, Copy, Debug, PartialEq, Eq)]
pub enum LifecycleEvent {
    /// A resize, or a suboptimal or out-of-date chain, was observed.
    MarkStale,
    /// A frame starts.
    BeginFrame,
}

/// Staleness after `e`, and whether `e` rebuilds the swapchain.
pub open spec fn lifecycle_step(stale: bool, e: LifecycleEvent) -> (bool, bool) {
    match e {
        LifecycleEvent::MarkStale => (true, false),
        LifecycleEvent::BeginFrame => (false, stale),
    }
}

/// Staleness after `events`, starting from `stale`.
pub open spec fn stale_after(stale: bool, events: Seq<LifecycleEvent>) -> bool
    decreases events.len(),
{
    if events.len() == 0 {
        stale
    } else {
        lifecycle_step(stale_after(stale, events.drop_last()), events.last()).0
    }
}

/// How many rebuilds `events` cause, starting from `stale`.
pub open spec fn rebuild_count(stale: bool, events: Seq<LifecycleEvent>) -> nat
    decreases events.len(),
{
    if events.len() == 0 {
        0
    } else {
        rebuild_count(stale, events.drop_last()) + if lifecycle_step(
            stale_after(stale, events.drop_last()),
            events.last(),
        ).1 {
            1nat
        } else {
            0nat
        }
    }
}

/// `n` stale marks in a row.
pub open spec fn marks(n: nat) -> Seq<LifecycleEvent> {
    Seq::new(n, |i: int| LifecycleEvent::MarkStale)
}

/// However often the swapchain is marked stale between two frames (once or
/// more), the next frame rebuilds it exactly once and leaves it fresh.
pub proof fn stale_marks_rebuild_once(stale: bool, n: nat)
    requires
        n >= 1,
    ensures
        rebuild_count(stale, marks(n).push(LifecycleEvent::BeginFrame)) == 1,
        !stale_after(stale, marks(n).push(LifecycleEvent::BeginFrame)),
        rebuild_count(
            stale,
            marks(n).push(LifecycleEvent::BeginFrame).push(LifecycleEvent::BeginFrame),
        ) == 1,
{
    lemma_marks(stale, n);
    let once = marks(n).push(LifecycleEvent::BeginFrame);
    assert(once.drop_last() =~= marks(n));
    assert(rebuild_count(stale, once) == 1);
    assert(!stale_after(stale, once));
    assert(once.push(LifecycleEvent::BeginFrame).drop_last() =~= once);
}

proof fn lemma_marks(stale: bool, n: nat)
    ensures
        rebuild_count(stale, marks(n)) == 0,
        n >= 1 ==> stale_after(stale, marks(n)),
    decreases n,
{
    if n > 0 {
        assert(marks(n).drop_last() =~= marks((n - 1) as nat));
        lemma_marks(stale, (n - 1) as nat);
    }
}

/// The state the frame engine decides on.
pub struct Renderer {
    /// The swapchain no longer matches the surface.
    pub stale: bool,
    /// Frames started so far.
    pub frame: u64,
    /// Number of presentable images, hence of framebuffers.
    pub images: usize,
    pub predecessor: Token,
    pub uniforms: UniformRing,
    pub overlay: Option<TextOverlay>,
}

impl Renderer {
    pub open spec fn wf(&self) -> bool {
        self.overlay matches Some(o) ==> o.wf()
    }

    /// A fresh engine over a swapchain of `images` images.
    pub fn new(images: usize) -> (r: Renderer)
        ensures
            r.wf(),
            !r.stale,
            r.frame == 0,
            r.images == images,
            r.predecessor == Token::Idle,
            r.uniforms.readers@.len() == 0,
            r.uniforms.retired is None,
            r.overlay is None,
    {
        Renderer {
            stale: false,
            frame: 0,
            images,
            predecessor: Token::Idle,
            uniforms: UniformRing::new(),
            overlay: None,
        }
    }

    /// Adds a text overlay drawn with `font`.
    pub fn with_overlay(self, font: &Font) -> (r: Renderer)
        requires
            self.wf(),
        ensures
            r.wf(),
            r.overlay matches Some(o) && o.quads@.len() == 0 && o.loaded == 0 && o.height
                == font.height && o.length == font.length,
            r.stale == self.stale,
            r.frame == self.frame,
            r.images == self.images,
            r.predecessor == self.predecessor,
            r.uniforms == self.uniforms,
    {
        let mut r = self;
        r.overlay = Some(TextOverlay::new(font));
        r
    }

    /// Marks the swapchain stale (the surface was resized). Doing so again
    /// before the next frame changes nothing.
    pub fn swapchain_outdated(&mut self)
        ensures
            final(self).stale == lifecycle_step(old(self).stale, LifecycleEvent::MarkStale).0,
            final(self).stale,
            final(self).frame == old(self).frame,
            final(self).images == old(self).images,
            final(self).predecessor == old(self).predecessor,
            final(self).uniforms == old(self).uniforms,
            final(self).overlay == old(self).overlay,
    {
        self.stale = true;
        proof {
            assert(self.stale == lifecycle_step(old(self).stale, LifecycleEvent::MarkStale).0);
        }
    }

    /// The overlay, if there is one.
    pub fn overlay_mut(&mut self) -> (r: &mut Option<TextOverlay>)
        ensures
            *r == old(self).overlay,
    {
        &mut self.overlay
    }

    /// Records that every frame up to `frame` has finished on the GPU.
    pub fn retire_finished(&mut self, frame: u64)
        ensures
            final(self).stale == old(self).stale,
            final(self).frame == old(self).frame,
            final(self).images == old(self).images,
            final(self).predecessor == old(self).predecessor,
            final(self).overlay == old(self).overlay,
            final(self).uniforms.readers@ == old(self).uniforms.readers@,
            final(self).uniforms.retired == Some(
                match old(self).uniforms.retired {
                    Some(r) => if r > frame {
                        r
                    } else {
                        frame
                    },
                    None => frame,
                },
            ),
    {
        self.uniforms.retire(frame);
    }

    /// Starts a frame: asks for a rebuild where the swapchain is stale (the
    /// rebuild happens before acquisition, so staleness is cleared), and
    /// picks a free uniform slot.
    pub fn begin_frame(&mut self) -> (r: FrameStart)
        requires
            old(self).frame < u64::MAX,
        ensures
            (final(self).stale, r.rebuild) == lifecycle_step(
                old(self).stale,
                LifecycleEvent::BeginFrame,
            ),
            r.rebuild == old(self).stale,
            !final(self).stale,
            r.id == old(self).frame + 1,
            final(self).frame == r.id,
            final(self).images == old(self).images,
            final(self).predecessor == old(self).predecessor,
            final(self).overlay == old(self).overlay,
            final(self).uniforms.retired == old(self).uniforms.retired,
            r.uniform_slot <= old(self).uniforms.readers@.len(),
            forall|i: int|
                0 <= i < r.uniform_slot ==> !slot_free(
                    #[trigger] old(self).uniforms.readers@[i],
                    old(self).uniforms.retired,
                ),
            r.uniform_slot < old(self).uniforms.readers@.len() ==> slot_free(
                old(self).uniforms.readers@[r.uniform_slot as int],
                old(self).uniforms.retired,
            ) && final(self).uniforms.readers@ == old(self).uniforms.readers@.update(
                r.uniform_slot as int,
                Some(r.id),
            ),
            r.uniform_slot == old(self).uniforms.readers@.len() ==> final(self).uniforms.readers@
                == old(self).uniforms.readers@.push(Some(r.id)),
    {
        let rebuild = self.stale;
        self.stale = false;
        self.frame = self.frame + 1;
        let slot = self.uniforms.next_slot(self.frame);
        FrameStart { id: self.frame, rebuild, uniform_slot: slot }
    }

    /// Records a rebuilt swapchain of `images` images.
    pub fn swapchain_rebuilt(&mut self, images: usize)
        ensures
            final(self).images == images,
            final(self).stale == old(self).stale,
            final(self).frame == old(self).frame,
            final(self).predecessor == old(self).predecessor,
            final(self).uniforms == old(self).uniforms,
            final(self).overlay == old(self).overlay,
    {
        self.images = images;
    }

    /// Decides frame `start` after acquisition. An out-of-date chain abandons
    /// the frame and is rebuilt next frame; a suboptimal one is drawn to and
    /// rebuilt next frame; an image with no framebuffer, or a failed
    /// acquisition, abandons the frame. An abandoned frame submits nothing,
    /// so it gives its uniform slot back.
    pub fn on_acquire(&mut self, start: FrameStart, outcome: AcquireOutcome) -> (r: FrameAction)
        requires
            old(self).wf(),
        ensures
            final(self).wf(),
            final(self).stale == (old(self).stale || outcome == AcquireOutcome::OutOfDate || (
            outcome matches AcquireOutcome::Acquired { suboptimal, .. } && suboptimal)),
            r == (match outcome {
                AcquireOutcome::Acquired { image, .. } => if image < old(self).images {
                    FrameAction::Draw {
                        image,
                        wait_on: old(self).predecessor,
                        overlay: old(self).overlay matches Some(o) && o.loaded > 0,
                    }
                } else {
                    FrameAction::Abandon
                },
                _ => FrameAction::Abandon,
            }),
            r matches FrameAction::Draw { .. } ==> final(self).uniforms == old(self).uniforms,
            r == FrameAction::Abandon ==> final(self).uniforms.retired == old(
                self,
            ).uniforms.retired && final(self).uniforms.readers@ == (if start.uniform_slot < old(
                self,
            ).uniforms.readers@.len() && old(self).uniforms.readers@[start.uniform_slot as int]
                == Some(start.id) {
                old(self).uniforms.readers@.update(start.uniform_slot as int, None)
            } else {
                old(self).uniforms.readers@
            }),
            final(self).frame == old(self).frame,
            final(self).images == old(self).images,
            final(self).predecessor == old(self).predecessor,
            final(self).overlay == old(self).overlay,
    {
        let action = match outcome {
            AcquireOutcome::Acquired { image, suboptimal } => {
                if suboptimal {
                    self.stale = true;
                }
                if image < self.images {
                    let overlay = match &self.overlay {
                        Some(o) => o.has_text(),
                        None => false,
                    };
                    FrameAction::Draw { image, wait_on: self.predecessor, overlay }
                } else {
                    FrameAction::Abandon
                }
            },
            AcquireOutcome::OutOfDate => {
                self.stale = true;
                FrameAction::Abandon
            },
            AcquireOutcome::Failed => FrameAction::Abandon,
        };
        if let FrameAction::Abandon = action {
            self.uniforms.release(start.uniform_slot, start.id);
        }
        action
    }

    /// Records how frame `id`'s submission ended: its work becomes the token
    /// the next submission waits on, or, where flushing failed, the engine
    /// falls back to the idle baseline (marking the chain stale where it was
    /// out of date).
    pub fn on_present(&mut self, id: u64, outcome: PresentOutcome) -> (r: Token)
        ensures
            r == final(self).predecessor,
            r == (match outcome {
                PresentOutcome::Presented => Token::Frame { id },
                _ => Token::Idle,
            }),
            final(self).stale == (old(self).stale || outcome == PresentOutcome::OutOfDate),
            final(self).frame == old(self).frame,
            final(self).images == old(self).images,
            final(self).uniforms == old(self).uniforms,
            final(self).overlay == old(self).overlay,
    {
        match outcome {
            PresentOutcome::Presented => {
                self.predecessor = Token::Frame { id };
            },
            PresentOutcome::OutOfDate => {
                self.stale = true;
                self.predecessor = Token::Idle;
            },
            PresentOutcome::Failed => {
                self.predecessor = Token::Idle;
            },
        }
        self.predecessor
    }
}

} // verus!
