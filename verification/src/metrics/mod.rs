//! The metrics that a client sends: counters, gauges, histograms and timings.
use vstd::prelude::*;
use crate::types::{Tags, TagSeq, tags_extend, tags_insert};
use crate::utils::push_char;

mod counter;
mod gauge;
mod histogram;
pub(crate) mod timing;

pub use counter::Counter;
pub use gauge::{Gauge, GaugeHandle, GaugeOperation, operation_text};
pub use histogram::Histogram;
pub use timing::{Timer, Timing, TimingResolution, resolution_text};

verus! {

/// Trait for all metrics that can be sent via the [`Client`](crate::Client).
pub trait Metric {
    /// The text that this metric writes, given the client's default tags.
    spec fn encoded(&self, tags: TagSeq) -> Seq<char>;

    /// Serializes the metric into a buffer suitable for MetCo.
    ///
    /// The `tags` parameter contains default tags from the client that should be
    /// included in the serialized output.
    fn serialize(&self, tags: &Tags, buf: &mut String)
        ensures
            final(buf)@ == old(buf)@ + self.encoded(tags@),
    ;
}

/// The tags that a metric carries; none when it has no tag list.
pub open spec fn metric_tags(tags: Option<Tags>) -> TagSeq {
    match tags {
        Some(t) => t@,
        None => Seq::empty(),
    }
}

/// The tags of a metric after `with_tags(added)`: the added list when the metric had none, else
/// its own list with every added tag set on it.
pub open spec fn tags_after_adding(current: Option<Tags>, added: TagSeq) -> TagSeq {
    match current {
        Some(t) => tags_extend(t@, added),
        None => added,
    }
}

/// Adding no tags leaves a metric's tags as they are: finishing a timer with no extra tags sends
/// what finishing it plainly sends.
pub proof fn law_adding_no_tags(current: Option<Tags>)
    ensures
        tags_after_adding(current, Seq::empty()) == metric_tags(current),
{
}

/// A metric's tag list after `with_tags(tags)`.
pub(crate) fn add_tags(current: Option<Tags>, tags: Tags) -> (r: Tags)
    ensures
        r@ == tags_after_adding(current, tags@),
{
    match current {
        None => tags,
        Some(mut current_tags) => {
            current_tags.extend(tags);
            current_tags
        },
    }
}

/// A metric's tag list after `with_tag(name, value)`.
pub(crate) fn add_tag(current: Option<Tags>, name: &str, value: &str) -> (r: Tags)
    ensures
        r@ == tags_insert(metric_tags(current), name@, value@),
{
    let mut t = match current {
        None => Tags::new(),
        Some(current_tags) => current_tags,
    };
    t.insert(name.to_owned(), value.to_owned());
    t
}

/// The marker of a metric's kind, between bars: `|kind|`.
pub open spec fn kind_text(kind: char) -> Seq<char> {
    seq!['|', kind, '|']
}

/// Writes `|kind|`.
pub(crate) fn write_kind(buf: &mut String, kind: char)
    ensures
        final(buf)@ == old(buf)@ + kind_text(kind),
{
    let ghost start = buf@;
    push_char(buf, '|');
    push_char(buf, kind);
    push_char(buf, '|');
    assert(buf@ =~= start + kind_text(kind));
}

} // verus!
