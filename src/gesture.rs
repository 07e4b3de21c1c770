//! Turns absolute pointer samples into discrete forward / backward pulses.

use vstd::prelude::*;

verus! {

/// Displacement from the baseline that must be exceeded to emit a pulse.
pub const GESTURE_THRESHOLD: i32 = 20;

/// A discrete navigation pulse.
#[derive(Clone, Copy, Debug, PartialEq, Eq, Structural)]
pub enum Pulse {
    Forward,
    Backward,
    Stay,
}

/// The pulse emitted for `sample` when `baseline` is remembered, and the
/// baseline remembered afterwards. `None` as a sample is "not in proximity".
pub open spec fn step_of(baseline: Option<i16>, sample: Option<i16>) -> (Pulse, Option<i16>) {
    match sample {
        None => (Pulse::Stay, None),
        Some(p) => match baseline {
            None => (Pulse::Stay, Some(p)),
            Some(b) => if p - b > GESTURE_THRESHOLD {
                (Pulse::Forward, None)
            } else if p - b < -GESTURE_THRESHOLD {
                (Pulse::Backward, None)
            } else {
                (Pulse::Stay, Some(b))
            },
        },
    }
}

/// The baseline remembered after a fresh decoder has seen `samples`.
pub open spec fn baseline_after(samples: Seq<Option<i16>>) -> Option<i16>
    decreases samples.len(),
{
    if samples.len() == 0 {
        None
    } else {
        step_of(baseline_after(samples.drop_last()), samples.last()).1
    }
}

/// The pulses a fresh decoder emits for `samples`, one per sample.
pub open spec fn pulses_of(samples: Seq<Option<i16>>) -> Seq<Pulse>
    decreases samples.len(),
{
    if samples.len() == 0 {
        Seq::empty()
    } else {
        pulses_of(samples.drop_last()).push(
            step_of(baseline_after(samples.drop_last()), samples.last()).0,
        )
    }
}

/// Relative-gesture detector over a positional sensor.
pub struct GestureDecoder {
    pub baseline: Option<i16>,
}

impl GestureDecoder {
    pub fn new() -> (r: GestureDecoder)
        ensures
            r.baseline is None,
    {
        GestureDecoder { baseline: None }
    }

    /// Feeds one sample: `Some(position)` while the pointer is in proximity,
    /// `None` otherwise.
    pub fn feed(&mut self, sample: Option<i16>) -> (r: Pulse)
        ensures
            (r, final(self).baseline) == step_of(old(self).baseline, sample),
    {
        match sample {
            None => {
                self.baseline = None;
                Pulse::Stay
            },
            Some(p) => match self.baseline {
                None => {
                    self.baseline = Some(p);
                    Pulse::Stay
                },
                Some(b) => {
                    let delta: i32 = p as i32 - b as i32;
                    if delta > GESTURE_THRESHOLD {
                        self.baseline = None;
                        Pulse::Forward
                    } else if delta < -GESTURE_THRESHOLD {
                        self.baseline = None;
                        Pulse::Backward
                    } else {
                        Pulse::Stay
                    }
                },
            },
        }
    }
}

/// Runs a fresh decoder over `samples` and collects its pulses.
pub fn decode_samples(samples: &Vec<Option<i16>>) -> (r: Vec<Pulse>)
    ensures
        r@ == pulses_of(samples@),
{
    let mut decoder = GestureDecoder::new();
    let mut out: Vec<Pulse> = Vec::new();
    let mut i: usize = 0;
    while i < samples.len()
        invariant
            i <= samples@.len(),
            decoder.baseline == baseline_after(samples@.take(i as int)),
            out@ == pulses_of(samples@.take(i as int)),
        decreases samples@.len() - i,
    {
        proof {
            assert(samples@.take(i as int + 1).drop_last() =~= samples@.take(i as int));
        }
        let p = decoder.feed(samples[i]);
        out.push(p);
        i += 1;
    }
    proof {
        assert(samples@.take(i as int) =~= samples@);
    }
    out
}

} // verus!
