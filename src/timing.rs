use vstd::prelude::*;

verus! {

/// Longest delay of one frame, in hundredths of a second.
pub const MAX_DELAY: u64 = 30000;

/// Delay of a frame that ends at `target` when `shown` hundredths have
/// already been given to earlier frames.
pub open spec fn delay_for(shown: int, target: int) -> int {
    if target <= shown {
        0
    } else if target - shown > MAX_DELAY {
        MAX_DELAY as int
    } else {
        target - shown
    }
}

/// Hundredths given out after frames ending at each of `targets` in turn.
pub open spec fn shown_after(targets: Seq<u64>) -> int
    decreases targets.len(),
{
    if targets.len() == 0 {
        0
    } else {
        let before = shown_after(targets.drop_last());
        before + delay_for(before, targets.last() as int)
    }
}

/// Whether the sequence never decreases.
pub open spec fn non_decreasing(s: Seq<u64>) -> bool {
    forall|i: int, j: int| 0 <= i <= j < s.len() ==> s[i] <= s[j]
}

/// The delays of a run add up to no more than where its last frame ends,
/// as long as end times do not go backwards.
pub proof fn lemma_delays_within_span(targets: Seq<u64>)
    requires
        targets.len() > 0,
        non_decreasing(targets),
    ensures
        0 <= shown_after(targets) <= targets.last(),
    decreases targets.len(),
{
    let prefix = targets.drop_last();
    if prefix.len() > 0 {
        assert(non_decreasing(prefix));
        lemma_delays_within_span(prefix);
        assert(prefix.last() <= targets.last());
    } else {
        assert(shown_after(prefix) == 0);
    }
    assert(shown_after(targets) == shown_after(prefix) + delay_for(
        shown_after(prefix),
        targets.last() as int,
    ));
}

/// What the writer does with one frame.
#[derive(Clone, Copy, Debug, PartialEq, Eq, Structural)]
pub struct FrameStep {
    /// Delay of the frame, in hundredths of a second.
    pub delay: u16,
    /// Whether the frame goes to the encoder; frames of no duration do not.
    pub emit: bool,
    /// How many times progress is reported after the frame.
    pub ticks: usize,
}

/// State of the writer between frames.
#[derive(Clone, Copy, Debug, PartialEq, Eq, Structural)]
pub struct FrameClock {
    /// Hundredths of a second given to the frames so far.
    pub shown: u64,
    /// Ordinals whose progress has been reported.
    pub done: usize,
}

impl FrameClock {
    pub fn new() -> (c: FrameClock)
        ensures
            c.shown == 0,
            c.done == 0,
    {
        FrameClock { shown: 0, done: 0 }
    }

    /// Takes a frame with ordinal `ordinal` that ends `target` hundredths
    /// of a second after the start.
    pub fn frame(&mut self, target: u64, ordinal: usize) -> (s: FrameStep)
        ensures
            s.delay == delay_for(old(self).shown as int, target as int),
            s.emit == (s.delay != 0),
            s.delay <= MAX_DELAY,
            final(self).shown == old(self).shown + s.delay,
            final(self).shown <= if old(self).shown < target { target } else { old(self).shown },
            s.ticks == if ordinal > old(self).done { ordinal - old(self).done } else { 0 },
            final(self).done == if ordinal > old(self).done { ordinal } else { old(self).done },
    {
        let gap = target.saturating_sub(self.shown);
        let delay: u16 = if gap > MAX_DELAY {
            MAX_DELAY as u16
        } else {
            gap as u16
        };
        self.shown = self.shown + delay as u64;
        let ticks = if ordinal > self.done {
            ordinal - self.done
        } else {
            0
        };
        if ordinal > self.done {
            self.done = ordinal;
        }
        FrameStep { delay, emit: delay != 0, ticks }
    }
}

} // verus!
