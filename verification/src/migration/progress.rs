//! Progress bookkeeping: a sliding window of throughput samples and
//! human-readable durations.

use vstd::prelude::*;
use std::time::Duration;
use crate::text::{decimal, push_decimal};

verus! {

/// The whole seconds of a duration (what `Duration::as_secs` returns).
pub uninterp spec fn whole_seconds(d: Duration) -> u64;

/// The whole seconds of a duration (std's `Duration::as_secs`).
#[verifier::external_body]
pub(crate) fn duration_as_secs(d: &Duration) -> (r: u64)
    ensures
        r == whole_seconds(*d),
{
    d.as_secs()
}

/// A duration of `s` seconds, shown by its two largest units: `"30s"`,
/// `"1m 30s"`, `"1h 1m"`, `"1d 1h"`.
pub open spec fn duration_text(s: u64) -> Seq<char> {
    if s < 60 {
        decimal(s as nat) + "s"@
    } else if s < 3600 {
        decimal((s / 60) as nat) + "m "@ + decimal((s % 60) as nat) + "s"@
    } else if s < 86400 {
        decimal((s / 3600) as nat) + "h "@ + decimal(((s % 3600) / 60) as nat) + "m"@
    } else {
        decimal((s / 86400) as nat) + "d "@ + decimal(((s % 86400) / 3600) as nat) + "h"@
    }
}

/// A number of seconds in human-readable form.
pub fn format_seconds(total_seconds: u64) -> (r: String)
    ensures
        r@ == duration_text(total_seconds),
{
    let mut r = String::new();
    if total_seconds < 60 {
        push_decimal(&mut r, total_seconds);
        r.append("s");
    } else if total_seconds < 3600 {
        push_decimal(&mut r, total_seconds / 60);
        r.append("m ");
        push_decimal(&mut r, total_seconds % 60);
        r.append("s");
    } else if total_seconds < 86400 {
        push_decimal(&mut r, total_seconds / 3600);
        r.append("h ");
        push_decimal(&mut r, (total_seconds % 3600) / 60);
        r.append("m");
    } else {
        push_decimal(&mut r, total_seconds / 86400);
        r.append("d ");
        push_decimal(&mut r, (total_seconds % 86400) / 3600);
        r.append("h");
    }
    r
}

/// A duration in human-readable form, by its whole seconds.
pub fn format_duration(duration: Duration) -> (r: String)
    ensures
        r@ == duration_text(whole_seconds(duration)),
{
    format_seconds(duration_as_secs(&duration))
}

/// Records processed by a moment.
#[derive(Debug, Clone, Copy, PartialEq, Eq, Structural)]
pub struct ThroughputSample {
    /// Nanoseconds on a monotonic clock.
    pub timestamp: u64,
    pub records_processed: u64,
}

/// The most recent samples within a time window.
pub struct ThroughputWindow {
    samples: Vec<ThroughputSample>,
    window_size: u64,
    max_samples: usize,
}

/// The samples kept after adding one at `t`: those no older than the
/// window, the new one, and at most `max` of them (the oldest dropped).
pub open spec fn after_sample(s: Seq<ThroughputSample>, window: u64, max: usize, sample: ThroughputSample) -> Seq<ThroughputSample> {
    let cutoff = if sample.timestamp >= window { (sample.timestamp - window) as u64 } else { 0 };
    let kept = s.filter(|x: ThroughputSample| x.timestamp >= cutoff).push(sample);
    if kept.len() > max { kept.drop_first() } else { kept }
}

impl ThroughputWindow {
    /// The samples, oldest first.
    pub closed spec fn samples(&self) -> Seq<ThroughputSample> {
        self.samples@
    }

    /// The window's length in nanoseconds.
    pub closed spec fn window(&self) -> u64 {
        self.window_size
    }

    /// How many samples are kept at most.
    pub closed spec fn max_samples(&self) -> usize {
        self.max_samples
    }

    /// An empty window.
    pub fn new(window_size: u64, max_samples: usize) -> (r: Self)
        ensures
            r.samples() == Seq::<ThroughputSample>::empty(),
            r.window() == window_size,
            r.max_samples() == max_samples,
    {
        ThroughputWindow { samples: Vec::new(), window_size, max_samples }
    }

    /// Adds the count of records processed by `timestamp`, dropping samples
    /// older than the window and, past the limit, the oldest.
    pub fn add_sample(&mut self, timestamp: u64, records_processed: u64)
        ensures
            final(self).window() == old(self).window(),
            final(self).max_samples() == old(self).max_samples(),
            final(self).samples() == after_sample(old(self).samples(), old(self).window(),
                old(self).max_samples(), ThroughputSample { timestamp, records_processed }),
    {
        let cutoff = timestamp.saturating_sub(self.window_size);
        let ghost s0 = self.samples@;
        let ghost pred = |x: ThroughputSample| x.timestamp >= cutoff;
        let mut kept: Vec<ThroughputSample> = Vec::new();
        let mut i: usize = 0;
        assert(s0.take(0).filter(pred) =~= Seq::<ThroughputSample>::empty()) by {
            reveal(Seq::filter);
        }
        while i < self.samples.len()
            invariant
                i <= s0.len(),
                self.samples@ == s0,
                pred == (|x: ThroughputSample| x.timestamp >= cutoff),
                kept@ == s0.take(i as int).filter(pred),
            decreases s0.len() - i,
        {
            proof {
                assert(s0.take(i + 1) =~= s0.take(i as int).push(s0[i as int]));
                s0.take(i as int).lemma_filter_push(s0[i as int], pred);
            }
            let x = self.samples[i];
            if x.timestamp >= cutoff {
                kept.push(x);
            }
            i += 1;
        }
        assert(s0.take(s0.len() as int) =~= s0);
        kept.push(ThroughputSample { timestamp, records_processed });
        if kept.len() > self.max_samples {
            kept.remove(0);
            assert(kept@ =~= s0.filter(pred).push(ThroughputSample { timestamp, records_processed }).drop_first());
        }
        self.samples = kept;
    }

    /// Records processed and nanoseconds elapsed between the oldest and
    /// newest samples (records never counted backwards); zeros with fewer
    /// than two samples.
    pub fn records_and_span(&self) -> (r: (u64, u64))
        ensures
            self.samples().len() < 2 ==> r == (0u64, 0u64),
            self.samples().len() >= 2 ==> ({
                let first = self.samples()[0];
                let last = self.samples().last();
                &&& r.0 == (if last.records_processed >= first.records_processed {
                        (last.records_processed - first.records_processed) as u64 } else { 0 })
                &&& r.1 == (if last.timestamp >= first.timestamp {
                        (last.timestamp - first.timestamp) as u64 } else { 0 })
            }),
    {
        if self.samples.len() < 2 {
            return (0, 0);
        }
        let first = self.samples[0];
        let last = self.samples[self.samples.len() - 1];
        (last.records_processed.saturating_sub(first.records_processed), last.timestamp.saturating_sub(first.timestamp))
    }
}

} // verus!
