//! Traffic meter of an upstream: a bounded ring of cumulative traffic
//! snapshots and the TX-only test that spots an upstream which accepts
//! packets but returns nothing.
use std::collections::VecDeque;

use vstd::prelude::*;

use crate::upstream::Traffic;

verus! {

/// Number of snapshots the ring keeps, taken at one-second cadence.
pub const METER_MAX_SAMPLES: usize = 6;

/// One snapshot of an upstream's cumulative traffic counters.
#[derive(Debug, Clone, Copy, PartialEq, Eq, Structural)]
pub struct Sample {
    pub traffic: Traffic,
}

impl Sample {
    pub fn new(traffic: Traffic) -> (r: Self)
        ensures
            r.traffic == traffic,
    {
        Sample { traffic }
    }
}

/// Snapshots are of cumulative counters, so consecutive samples dominate
/// their predecessors.
pub open spec fn spec_samples_monotone(s: Seq<Sample>) -> bool {
    forall|i: int, j: int| #![trigger s[i], s[j]]
        0 <= i <= j < s.len() ==> s[i].traffic.tx_bytes <= s[j].traffic.tx_bytes
            && s[i].traffic.rx_bytes <= s[j].traffic.rx_bytes
}

/// The TX-only condition over a full window: the first half shows a positive
/// transmit delta while the whole window shows no receive delta at all.
pub open spec fn spec_tx_only(s: Seq<Sample>) -> bool {
    s.len() == METER_MAX_SAMPLES && s[METER_MAX_SAMPLES as int / 2].traffic.tx_bytes
        > s[0].traffic.tx_bytes && s[METER_MAX_SAMPLES - 1].traffic.rx_bytes
        == s[0].traffic.rx_bytes
}

#[derive(Debug)]
pub struct Meter {
    samples: VecDeque<Sample>,
}

impl Meter {
    pub closed spec fn spec_samples(&self) -> Seq<Sample> {
        self.samples@
    }

    /// Ring invariant: bounded length, snapshots in non-decreasing order.
    pub open spec fn wf(&self) -> bool {
        self.spec_samples().len() <= METER_MAX_SAMPLES && spec_samples_monotone(
            self.spec_samples(),
        )
    }

    pub fn new() -> (r: Self)
        ensures
            r.wf(),
            r.spec_samples().len() == 0,
    {
        Meter { samples: VecDeque::with_capacity(METER_MAX_SAMPLES) }
    }

    /// Adds a snapshot, dropping the oldest when the ring is full.  The
    /// snapshot must dominate the last one: the counters are cumulative.
    pub fn add_sample(&mut self, traffic: Traffic)
        requires
            old(self).wf(),
            old(self).spec_samples().len() > 0 ==> old(self).spec_samples().last().traffic.tx_bytes
                <= traffic.tx_bytes && old(self).spec_samples().last().traffic.rx_bytes
                <= traffic.rx_bytes,
        ensures
            final(self).wf(),
            final(self).spec_samples() == if old(self).spec_samples().len() < METER_MAX_SAMPLES {
                old(self).spec_samples().push(Sample { traffic })
            } else {
                old(self).spec_samples().skip(
                    old(self).spec_samples().len() - (METER_MAX_SAMPLES - 1),
                ).push(Sample { traffic })
            },
    {
        let ghost orig = self.samples@;
        proof {
            assert(self.samples@ =~= orig.skip(0));
        }
        while self.samples.len() >= METER_MAX_SAMPLES
            invariant
                spec_samples_monotone(orig),
                orig.len() <= METER_MAX_SAMPLES,
                orig.len() > 0 ==> orig.last().traffic.tx_bytes <= traffic.tx_bytes
                    && orig.last().traffic.rx_bytes <= traffic.rx_bytes,
                self.samples@ == orig.skip(orig.len() - self.samples@.len()),
                self.samples@.len() <= orig.len(),
                self.samples@.len() >= METER_MAX_SAMPLES - 1 || self.samples@.len() == orig.len(),
            decreases self.samples@.len(),
        {
            proof {
                assert(orig.skip(orig.len() - self.samples@.len()).subrange(
                    1,
                    self.samples@.len() as int,
                ) =~= orig.skip(orig.len() - (self.samples@.len() - 1)));
            }
            self.samples.pop_front();
        }
        self.samples.push_back(Sample { traffic });
        proof {
            assert(spec_samples_monotone(self.samples@));
            if orig.len() < METER_MAX_SAMPLES {
                assert(self.samples@ =~= orig.push(Sample { traffic }));
            } else {
                assert(self.samples@ =~= orig.skip(orig.len() - (METER_MAX_SAMPLES - 1)).push(
                    Sample { traffic },
                ));
            }
        }
    }

    /// The TX-only heuristic; false whenever the window is not yet full.
    pub fn tx_only(&self) -> (r: bool)
        requires
            self.wf(),
        ensures
            r == spec_tx_only(self.spec_samples()),
    {
        if self.samples.len() < METER_MAX_SAMPLES {
            return false;
        }
        let x = self.samples[0];
        let a = self.samples[METER_MAX_SAMPLES / 2];
        let b = self.samples[METER_MAX_SAMPLES - 1];
        a.traffic.tx_bytes > x.traffic.tx_bytes && b.traffic.rx_bytes == x.traffic.rx_bytes
    }

    pub fn len(&self) -> (r: usize)
        ensures
            r == self.spec_samples().len(),
    {
        self.samples.len()
    }
}

/// With any receive delta inside a monotone window, the TX-only condition is
/// off: observed return traffic clears the heuristic.
pub proof fn lemma_rx_delta_refutes_tx_only(s: Seq<Sample>, i: int, j: int)
    requires
        spec_samples_monotone(s),
        s.len() == METER_MAX_SAMPLES,
        0 <= i <= j < s.len(),
        s[j].traffic.rx_bytes > s[i].traffic.rx_bytes,
    ensures
        !spec_tx_only(s),
{
    assert(s[0].traffic.rx_bytes <= s[i].traffic.rx_bytes);
    assert(s[j].traffic.rx_bytes <= s[METER_MAX_SAMPLES - 1].traffic.rx_bytes);
}

} // verus!
