//! The stream of requests: each sender sends on its own, the gaps between its
//! requests drawn from an exponential distribution with the sender's rate,
//! until the time horizon is reached. The draws are made outside; here is
//! what is done with them.

use crate::naming::chars_of;
use crate::naming::is_text;
use vstd::prelude::*;

verus! {

/// How the load is spread over the senders.
#[derive(Copy, Clone, Debug, PartialEq, Eq, Structural)]
pub enum Preset {
    /// Every sender sends at the same rate.
    Balanced,
    /// The first sender sends fifty times as often as each of the others.
    Skewed,
}

/// The preset that `name` names: `skewed` names the skewed one, any other
/// name the balanced one.
pub open spec fn preset_named(name: Seq<char>) -> Preset {
    if name == "skewed"@ {
        Preset::Skewed
    } else {
        Preset::Balanced
    }
}

/// The rate, in requests per unit of time, at which sender `sender` sends.
pub open spec fn rate_of(preset: Preset, sender: usize) -> u32 {
    if preset == Preset::Skewed && sender == 0 {
        50
    } else {
        1
    }
}

/// Reads the name of a preset.
pub fn preset_by_name(name: &str) -> (preset: Preset)
    ensures
        preset == preset_named(name@),
{
    let chars = chars_of(name);
    if is_text(&chars, "skewed") {
        Preset::Skewed
    } else {
        Preset::Balanced
    }
}

/// The senders of a run, taken one after the other, and the time that the
/// sender at work has reached.
pub struct Workload {
    preset: Preset,
    senders: usize,
    horizon: u64,
    sender: usize,
    clock: u64,
}

impl Workload {
    /// How the load is spread over the senders.
    pub closed spec fn preset(&self) -> Preset {
        self.preset
    }

    /// The number of senders.
    pub closed spec fn senders(&self) -> usize {
        self.senders
    }

    /// The time after which no request arrives.
    pub closed spec fn horizon(&self) -> u64 {
        self.horizon
    }

    /// The sender at work; the number of senders once all are done.
    pub closed spec fn sender(&self) -> usize {
        self.sender
    }

    /// The arrival time of the last request of the sender at work; 0 if it
    /// has sent none.
    pub closed spec fn clock(&self) -> u64 {
        self.clock
    }

    /// What holds of a workload at all times.
    pub open spec fn wf(&self) -> bool {
        self.sender() <= self.senders() && self.clock() <= self.horizon()
    }

    /// The workload of `senders` senders up to the time `horizon`, with
    /// nothing sent yet.
    pub fn new(preset: Preset, senders: usize, horizon: u64) -> (workload: Workload)
        ensures
            workload.wf(),
            workload.preset() == preset,
            workload.senders() == senders,
            workload.horizon() == horizon,
            workload.sender() == 0,
            workload.clock() == 0,
    {
        Workload { preset, senders, horizon, sender: 0, clock: 0 }
    }

    /// The rate of the sender at work, from which the gap to its next request
    /// is to be drawn; `None` once every sender is done.
    pub fn rate(&self) -> (rate: Option<u32>)
        requires
            self.wf(),
        ensures
            rate == if self.sender() < self.senders() {
                Some(rate_of(self.preset(), self.sender()))
            } else {
                None
            },
    {
        if self.sender < self.senders {
            if self.preset == Preset::Skewed && self.sender == 0 {
                Some(50)
            } else {
                Some(1)
            }
        } else {
            None
        }
    }

    /// Takes the gap, in ticks, from the last request of the sender at work
    /// to its next. Where the next request falls within the horizon, the
    /// result is its sender and its arrival time. Where it falls beyond,
    /// there is no such request: the sender is done, and the next sender
    /// starts at time 0.
    pub fn advance(&mut self, gap: u64) -> (request: Option<(usize, u64)>)
        requires
            old(self).wf(),
            old(self).sender() < old(self).senders(),
        ensures
            final(self).wf(),
            final(self).preset() == old(self).preset(),
            final(self).senders() == old(self).senders(),
            final(self).horizon() == old(self).horizon(),
            old(self).clock() + gap <= old(self).horizon() ==> {
                &&& request == Some((old(self).sender(), (old(self).clock() + gap) as u64))
                &&& final(self).sender() == old(self).sender()
                &&& final(self).clock() == old(self).clock() + gap
            },
            old(self).clock() + gap > old(self).horizon() ==> {
                &&& request is None
                &&& final(self).sender() == old(self).sender() + 1
                &&& final(self).clock() == 0
            },
    {
        if gap <= self.horizon - self.clock {
            self.clock = self.clock + gap;
            Some((self.sender, self.clock))
        } else {
            self.sender = self.sender + 1;
            self.clock = 0;
            None
        }
    }
}

} // verus!
