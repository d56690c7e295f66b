//! The latest-wins sample hand-off between the decoder's callback thread and
//! the renderer: one slot with an "already pulled" flag and a close signal.
//!
//! This module holds the shared state and its transitions. Each transition
//! says whether the peer must be woken; the caller holds the state under a
//! lock and performs that notification.

use vstd::prelude::*;

verus! {

/// One decoded video frame: packed RGB24 bytes with its dimensions.
pub struct Frame {
    pub width: u32,
    pub height: u32,
    pub data: Vec<u8>,
}

impl Frame {
    /// The frame's pixel bytes, three per pixel, row-major.
    pub open spec fn bytes(&self) -> Seq<u8> {
        self.data@
    }

    /// The buffer holds exactly three bytes per pixel.
    pub open spec fn well_formed(&self) -> bool {
        self.bytes().len() == 3 * (self.width as int) * (self.height as int)
    }

    /// Wraps a buffer of three bytes per pixel as a frame.
    pub fn new(width: u32, height: u32, data: Vec<u8>) -> (r: Frame)
        requires
            data@.len() == 3 * (width as int) * (height as int),
        ensures
            r.width == width,
            r.height == height,
            r.bytes() == data@,
            r.well_formed(),
    {
        Frame { width, height, data }
    }

    /// A bytewise copy of the frame, standing in for the decoder's cheap
    /// handle clone.
    pub fn duplicate(&self) -> (r: Frame)
        ensures
            r.width == self.width,
            r.height == self.height,
            r.bytes() == self.bytes(),
    {
        let mut data: Vec<u8> = Vec::new();
        let n: usize = self.data.len();
        let mut k: usize = 0;
        while k < n
            invariant
                k <= n,
                n == self.data@.len(),
                data@ == self.data@.subrange(0, k as int),
            decreases n - k,
        {
            data.push(self.data[k]);
            proof {
                assert(data@ =~= self.data@.subrange(0, k as int + 1));
            }
            k = k + 1;
        }
        proof {
            assert(data@ =~= self.data@);
        }
        Frame { width: self.width, height: self.height, data }
    }
}

/// The slot has been torn down; no sample will pass through it again.
#[derive(Clone, Copy, PartialEq, Eq, Structural, Debug)]
pub struct PipeClosed;

/// What a renderer's pull attempt found in the slot.
pub enum PullStep {
    /// Nothing new to render; wait for a push or a reload.
    Wait,
    /// A fresh sample, now marked as pulled.
    Got(Frame),
    /// The slot is closed; the render loop ends.
    Disconnected,
}

/// The shared state of the hand-off: nothing yet, one sample with its pulled
/// flag, or torn down for good.
pub enum RenderState {
    /// No sample has been pushed yet.
    Empty,
    /// The slot holds a sample; `pulled` means the renderer has already taken
    /// a copy of it.
    Held { sample: Frame, pulled: bool },
    /// One side has torn down; terminal state.
    Closed,
}

/// The state a push leaves behind: a closed slot stays closed, any other
/// state now holds the new sample, not yet pulled.
pub open spec fn push_spec(st: RenderState, sample: Frame) -> RenderState {
    match st {
        RenderState::Closed => RenderState::Closed,
        _ => RenderState::Held { sample, pulled: false },
    }
}

impl RenderState {
    /// A fresh hand-off slot with nothing in it.
    pub fn new() -> (r: Self)
        ensures
            r is Empty,
    {
        RenderState::Empty
    }

    /// The producer's push: latest wins. An unpulled sample is overwritten in
    /// place with no wake (the renderer has not consumed the previous one);
    /// a closed slot rejects the push; otherwise the sample is stored and the
    /// renderer must be woken.
    pub fn push_sample(&mut self, sample: Frame) -> (r: Result<bool, PipeClosed>)
        ensures
            *final(self) == push_spec(*old(self), sample),
            r == match *old(self) {
                RenderState::Held { sample: s0, pulled: false } => Result::<bool, PipeClosed>::Ok(
                    false,
                ),
                RenderState::Closed => Result::<bool, PipeClosed>::Err(PipeClosed),
                _ => Result::<bool, PipeClosed>::Ok(true),
            },
    {
        let mut prev = RenderState::Empty;
        core::mem::swap(self, &mut prev);
        match prev {
            RenderState::Held { sample: _dropped, pulled: false } => {
                *self = RenderState::Held { sample, pulled: false };
                Ok(false)
            },
            RenderState::Closed => {
                *self = RenderState::Closed;
                Err(PipeClosed)
            },
            _ => {
                *self = RenderState::Held { sample, pulled: false };
                Ok(true)
            },
        }
    }

    /// The renderer's pull attempt: an unpulled sample is marked pulled and a
    /// copy of it is handed out; an empty slot or an already pulled sample
    /// means wait; a closed slot ends the render loop.
    pub fn try_pull(&mut self) -> (r: PullStep)
        ensures
            match *old(self) {
                RenderState::Empty => *final(self) is Empty && r is Wait,
                RenderState::Held { sample: s, pulled } => {
                    if pulled {
                        *final(self) == *old(self) && r is Wait
                    } else {
                        &&& *final(self) == RenderState::Held { sample: s, pulled: true }
                        &&& r matches PullStep::Got(f) && f.width == s.width && f.height == s.height
                            && f.bytes() == s.bytes()
                    }
                },
                RenderState::Closed => *final(self) is Closed && r is Disconnected,
            },
    {
        let mut prev = RenderState::Empty;
        core::mem::swap(self, &mut prev);
        match prev {
            RenderState::Empty => {
                *self = RenderState::Empty;
                PullStep::Wait
            },
            RenderState::Held { sample, pulled } => {
                if pulled {
                    *self = RenderState::Held { sample, pulled };
                    PullStep::Wait
                } else {
                    let copy = sample.duplicate();
                    *self = RenderState::Held { sample, pulled: true };
                    PullStep::Got(copy)
                }
            },
            RenderState::Closed => {
                *self = RenderState::Closed;
                PullStep::Disconnected
            },
        }
    }

    /// The reloader's request to render the held sample again, made when the
    /// terminal size changed while the pipeline was paused: a held sample is
    /// marked not pulled and the renderer must be woken; an empty slot is a
    /// quiet no-op; a closed slot reports the teardown.
    pub fn reload_sample(&mut self) -> (r: Result<bool, PipeClosed>)
        ensures
            match *old(self) {
                RenderState::Empty => *final(self) is Empty && r == Result::<
                    bool,
                    PipeClosed,
                >::Ok(false),
                RenderState::Held { sample: s, pulled } => *final(self) == RenderState::Held {
                    sample: s,
                    pulled: false,
                } && r == Result::<bool, PipeClosed>::Ok(true),
                RenderState::Closed => *final(self) is Closed && r == Result::<
                    bool,
                    PipeClosed,
                >::Err(PipeClosed),
            },
    {
        let mut prev = RenderState::Empty;
        core::mem::swap(self, &mut prev);
        match prev {
            RenderState::Empty => {
                *self = RenderState::Empty;
                Ok(false)
            },
            RenderState::Held { sample, pulled: _was } => {
                *self = RenderState::Held { sample, pulled: false };
                Ok(true)
            },
            RenderState::Closed => {
                *self = RenderState::Closed;
                Err(PipeClosed)
            },
        }
    }

    /// Tearing down either side of the pipe: the slot closes for good and the
    /// peer must be woken so it can see the teardown.
    pub fn close(&mut self)
        ensures
            *final(self) is Closed,
    {
        *self = RenderState::Closed;
    }
}

/// The state after a whole sequence of pushes, applied in order.
pub open spec fn after_pushes(st: RenderState, samples: Seq<Frame>) -> RenderState
    decreases samples.len(),
{
    if samples.len() == 0 {
        st
    } else {
        after_pushes(push_spec(st, samples[0]), samples.drop_first())
    }
}

/// Latest wins: after any nonempty sequence of pushes into a slot that is not
/// closed, the slot holds exactly the last pushed sample, not yet pulled;
/// every earlier sample has been dropped.
pub proof fn lemma_pushes_keep_latest(st: RenderState, samples: Seq<Frame>)
    requires
        samples.len() > 0,
        !(st is Closed),
    ensures
        after_pushes(st, samples) == (RenderState::Held { sample: samples.last(), pulled: false }),
    decreases samples.len(),
{
    if samples.len() == 1 {
        assert(after_pushes(push_spec(st, samples[0]), samples.drop_first()) == push_spec(
            st,
            samples[0],
        ));
    } else {
        lemma_pushes_keep_latest(push_spec(st, samples[0]), samples.drop_first());
        assert(samples.drop_first().last() == samples.last());
    }
}

/// Closed is absorbing: no sequence of pushes revives a closed slot, so after
/// a close every pull keeps returning the teardown error.
pub proof fn lemma_closed_absorbs_pushes(samples: Seq<Frame>)
    ensures
        after_pushes(RenderState::Closed, samples) is Closed,
    decreases samples.len(),
{
    if samples.len() > 0 {
        lemma_closed_absorbs_pushes(samples.drop_first());
    }
}

} // verus!
