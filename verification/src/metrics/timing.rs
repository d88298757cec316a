use vstd::prelude::*;
use std::time::{Duration, Instant};
use crate::client::{Client, prefix_text};
use crate::protocol::law_overlay_of_nothing;
use crate::metrics::{Metric, add_tag, add_tags, kind_text, metric_tags, tags_after_adding, write_kind};
use crate::transport::Transport;
use crate::types::{Tags, TagSeq, tags_insert, tags_overlay};
use crate::utils::{decimal, name_and_tags, push_char, serialize_name_and_tags, write_u64};

verus! {

#[verifier::external_type_specification]
#[verifier::external_body]
pub struct ExInstant(Instant);

/// The current instant (std's `Instant::now`); nothing is promised of it.
#[verifier::external_body]
pub(crate) fn instant_now() -> Instant {
    Instant::now()
}

/// The time elapsed since `start` (std's `Instant::elapsed`); it depends on the clock, so nothing
/// is promised of it.
#[verifier::external_body]
fn elapsed_since(start: &Instant) -> Duration {
    start.elapsed()
}

/// The whole nanoseconds in `d` (std's `Duration::as_nanos`); `Duration` is opaque here, so
/// nothing is promised of the number.
#[verifier::external_body]
fn duration_nanos(d: &Duration) -> u128 {
    d.as_nanos()
}

/// Resolution for timing metrics.
#[derive(Debug, Clone, Copy, PartialEq, Eq, Structural)]
pub enum TimingResolution {
    /// Seconds resolution.
    Seconds,
    /// Milliseconds resolution.
    MilliSeconds,
    /// Microseconds resolution.
    MicroSeconds,
    /// Nanoseconds resolution.
    NanoSeconds,
}

/// How a resolution is written: `s`, `ms`, `us` or `ns`.
pub open spec fn resolution_text(r: TimingResolution) -> Seq<char> {
    match r {
        TimingResolution::Seconds => seq!['s'],
        TimingResolution::MilliSeconds => seq!['m', 's'],
        TimingResolution::MicroSeconds => seq!['u', 's'],
        TimingResolution::NanoSeconds => seq!['n', 's'],
    }
}

impl TimingResolution {
    /// Encodes the resolution into its string representation.
    pub fn encode(&self) -> (s: &'static str)
        ensures
            s@ == resolution_text(*self),
    {
        match self {
            TimingResolution::Seconds => {
                proof {
                    reveal_strlit("s");
                }
                "s"
            },
            TimingResolution::MilliSeconds => {
                proof {
                    reveal_strlit("ms");
                }
                "ms"
            },
            TimingResolution::MicroSeconds => {
                proof {
                    reveal_strlit("us");
                }
                "us"
            },
            TimingResolution::NanoSeconds => {
                proof {
                    reveal_strlit("ns");
                }
                "ns"
            },
        }
    }
}

/// The text of a timing named `name` of `duration` in `resolution`, with its own tags `own` and
/// the default tags `defaults`.
pub open spec fn timing_text(
    name: Seq<char>,
    duration: u64,
    resolution: TimingResolution,
    own: TagSeq,
    defaults: TagSeq,
) -> Seq<char> {
    name_and_tags(name, defaults, own) + kind_text('t') + decimal(duration as nat) + seq!['|']
        + resolution_text(resolution)
}

/// A timing metric.
///
/// Timings are used to track the duration of events. A timing is written as
/// `name;tags|t|duration|resolution`.
pub struct Timing {
    pub name: String,
    pub duration: u64,
    pub resolution: TimingResolution,
    pub tags: Option<Tags>,
}

impl Timing {
    /// Creates a new timing metric with the given name, duration, and resolution.
    pub fn new(name: &str, duration: u64, resolution: TimingResolution) -> (t: Timing)
        ensures
            t.name@ == name@,
            t.duration == duration,
            t.resolution == resolution,
            t.tags is None,
    {
        Timing { name: name.to_owned(), duration, resolution, tags: None }
    }

    /// Adds multiple tags to the metric.
    pub fn with_tags(self, tags: Tags) -> (r: Timing)
        ensures
            r.name == self.name,
            r.duration == self.duration,
            r.resolution == self.resolution,
            r.tags matches Some(t) && t@ == tags_after_adding(self.tags, tags@),
    {
        Timing {
            name: self.name,
            duration: self.duration,
            resolution: self.resolution,
            tags: Some(add_tags(self.tags, tags)),
        }
    }

    /// Adds a single tag to the metric.
    pub fn with_tag(self, name: &str, value: &str) -> (r: Timing)
        ensures
            r.name == self.name,
            r.duration == self.duration,
            r.resolution == self.resolution,
            r.tags matches Some(t) && t@ == tags_insert(metric_tags(self.tags), name@, value@),
    {
        Timing {
            name: self.name,
            duration: self.duration,
            resolution: self.resolution,
            tags: Some(add_tag(self.tags, name, value)),
        }
    }
}

impl Metric for Timing {
    open spec fn encoded(&self, tags: TagSeq) -> Seq<char> {
        timing_text(self.name@, self.duration, self.resolution, metric_tags(self.tags), tags)
    }

    fn serialize(&self, tags: &Tags, buf: &mut String) {
        let ghost start = buf@;
        serialize_name_and_tags(buf, self.name.as_str(), tags, self.tags.as_ref());
        write_kind(buf, 't');
        write_u64(buf, self.duration);
        push_char(buf, '|');
        buf.append(self.resolution.encode());
        assert(buf@ =~= start + self.encoded(tags@));
    }
}

/// A timer for measuring durations.
///
/// Created via [`Client::timer`](crate::Client::timer).
/// The duration is sent to the client when [`Timer::finish`] is called.
pub struct Timer<'a, T> {
    pub client: &'a Client<T>,
    pub now: Instant,
    pub name: String,
    pub tags: Option<Tags>,
}

impl<'a, T: Transport> Timer<'a, T> {
    /// The nanoseconds elapsed since the timer started, cut to 64 bits. The number comes from the
    /// clock through `elapsed_since` and `duration_nanos`, which promise nothing of it, so no
    /// value of it can be stated.
    fn elapsed_nanos(&self) -> u64 {
        #[verifier::truncate]
        (duration_nanos(&elapsed_since(&self.now)) as u64)
    }

    /// Finishes the timer and sends the elapsed time to the client.
    ///
    /// The timing is named after the timer and given in nanoseconds; the timer's tags, if any,
    /// are sent as additional tags. The number of nanoseconds comes from the clock.
    pub fn finish(self)
        ensures
            exists|nanos: u64|
                self.client.transport.delivered(
                    prefix_text(self.client.prefix) + #[trigger] timing_text(
                        self.name@,
                        nanos,
                        TimingResolution::NanoSeconds,
                        Seq::empty(),
                        tags_overlay(metric_tags(self.tags), self.client.tags@),
                    ),
                ),
    {
        let nanos = self.elapsed_nanos();
        self.finish_after(nanos);
    }

    /// Finishes the timer as if `nanos` nanoseconds had elapsed: sends a timing named after the
    /// timer, in nanoseconds, with the timer's tags, if any, as additional tags.
    pub fn finish_after(self, nanos: u64)
        ensures
            self.client.transport.delivered(
                prefix_text(self.client.prefix) + timing_text(
                    self.name@,
                    nanos,
                    TimingResolution::NanoSeconds,
                    Seq::empty(),
                    tags_overlay(metric_tags(self.tags), self.client.tags@),
                ),
            ),
    {
        let timing = Timing::new(self.name.as_str(), nanos, TimingResolution::NanoSeconds);
        match self.tags {
            None => {
                proof {
                    law_overlay_of_nothing(self.client.tags@);
                }
                self.client.send(timing);
            },
            Some(tags) => {
                self.client.send_with_tags(timing, tags);
            },
        }
    }

    /// Finishes the timer and sends the elapsed time to the client with additional tags.
    ///
    /// The additional tags are set on the timer's own tags, and the result is sent along with
    /// the timing. The number of nanoseconds comes from the clock.
    pub fn finish_with_tags(self, tags: Tags)
        ensures
            exists|nanos: u64|
                self.client.transport.delivered(
                    prefix_text(self.client.prefix) + #[trigger] timing_text(
                        self.name@,
                        nanos,
                        TimingResolution::NanoSeconds,
                        Seq::empty(),
                        tags_overlay(tags_after_adding(self.tags, tags@), self.client.tags@),
                    ),
                ),
    {
        let nanos = self.elapsed_nanos();
        self.finish_with_tags_after(tags, nanos);
    }

    /// Finishes the timer with additional tags as if `nanos` nanoseconds had elapsed: the
    /// additional tags are set on the timer's own tags and sent along with the timing.
    pub fn finish_with_tags_after(self, tags: Tags, nanos: u64)
        ensures
            self.client.transport.delivered(
                prefix_text(self.client.prefix) + timing_text(
                    self.name@,
                    nanos,
                    TimingResolution::NanoSeconds,
                    Seq::empty(),
                    tags_overlay(tags_after_adding(self.tags, tags@), self.client.tags@),
                ),
            ),
    {
        let timing = Timing::new(self.name.as_str(), nanos, TimingResolution::NanoSeconds);
        let all_tags = add_tags(self.tags, tags);
        self.client.send_with_tags(timing, all_tags);
    }

    /// Adds multiple tags to the timer.
    pub fn with_tags(self, tags: Tags) -> (r: Timer<'a, T>)
        ensures
            r.client == self.client,
            r.now == self.now,
            r.name == self.name,
            r.tags matches Some(t) && t@ == tags_after_adding(self.tags, tags@),
    {
        Timer { client: self.client, now: self.now, name: self.name, tags: Some(add_tags(self.tags, tags)) }
    }

    /// Adds a single tag to the timer.
    pub fn with_tag(self, name: &str, value: &str) -> (r: Timer<'a, T>)
        ensures
            r.client == self.client,
            r.now == self.now,
            r.name == self.name,
            r.tags matches Some(t) && t@ == tags_insert(metric_tags(self.tags), name@, value@),
    {
        Timer {
            client: self.client,
            now: self.now,
            name: self.name,
            tags: Some(add_tag(self.tags, name, value)),
        }
    }
}

} // verus!
