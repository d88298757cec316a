use vstd::prelude::*;
use crate::metrics::{Metric, add_tag, add_tags, kind_text, metric_tags, tags_after_adding, write_kind};
use crate::types::{Tags, TagSeq, tags_insert};
use crate::utils::{decimal, name_and_tags, serialize_name_and_tags, write_u64};

verus! {

/// A counter metric.
///
/// Counters are used to track occurrences of events. They are monotonic
/// and can only be incremented. A counter is written as `name;tags|c|count`.
pub struct Counter {
    pub name: String,
    pub count: u64,
    pub tags: Option<Tags>,
}

impl Counter {
    /// Creates a new counter with the given name and initial count.
    pub fn new(name: &str, count: u64) -> (c: Counter)
        ensures
            c.name@ == name@,
            c.count == count,
            c.tags is None,
    {
        Counter { name: name.to_owned(), count, tags: None }
    }

    /// Adds multiple tags to the metric.
    pub fn with_tags(self, tags: Tags) -> (r: Counter)
        ensures
            r.name == self.name,
            r.count == self.count,
            r.tags matches Some(t) && t@ == tags_after_adding(self.tags, tags@),
    {
        Counter { name: self.name, count: self.count, tags: Some(add_tags(self.tags, tags)) }
    }

    /// Adds a single tag to the metric.
    pub fn with_tag(self, name: &str, value: &str) -> (r: Counter)
        ensures
            r.name == self.name,
            r.count == self.count,
            r.tags matches Some(t) && t@ == tags_insert(metric_tags(self.tags), name@, value@),
    {
        Counter { name: self.name, count: self.count, tags: Some(add_tag(self.tags, name, value)) }
    }
}

impl Metric for Counter {
    open spec fn encoded(&self, tags: TagSeq) -> Seq<char> {
        name_and_tags(self.name@, tags, metric_tags(self.tags)) + kind_text('c') + decimal(self.count as nat)
    }

    fn serialize(&self, tags: &Tags, buf: &mut String) {
        let ghost start = buf@;
        serialize_name_and_tags(buf, self.name.as_str(), tags, self.tags.as_ref());
        write_kind(buf, 'c');
        write_u64(buf, self.count);
        assert(buf@ =~= start + self.encoded(tags@));
    }
}

} // verus!
