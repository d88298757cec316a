use vstd::prelude::*;
use crate::metrics::{Metric, add_tag, add_tags, kind_text, metric_tags, tags_after_adding, write_kind};
use crate::types::{Tags, TagSeq, tags_insert};
use crate::utils::{decimal, name_and_tags, serialize_name_and_tags, write_u64};

verus! {

/// A histogram metric.
///
/// Histograms are used to track the distribution of values. A histogram is written as
/// `name;tags|h|count`.
pub struct Histogram {
    pub name: String,
    pub count: u64,
    pub tags: Option<Tags>,
}

impl Histogram {
    /// Creates a new histogram with the given name and initial count.
    pub fn new(name: &str, count: u64) -> (c: Histogram)
        ensures
            c.name@ == name@,
            c.count == count,
            c.tags is None,
    {
        Histogram { name: name.to_owned(), count, tags: None }
    }

    /// Adds multiple tags to the metric.
    pub fn with_tags(self, tags: Tags) -> (r: Histogram)
        ensures
            r.name == self.name,
            r.count == self.count,
            r.tags matches Some(t) && t@ == tags_after_adding(self.tags, tags@),
    {
        Histogram { name: self.name, count: self.count, tags: Some(add_tags(self.tags, tags)) }
    }

    /// Adds a single tag to the metric.
    pub fn with_tag(self, name: &str, value: &str) -> (r: Histogram)
        ensures
            r.name == self.name,
            r.count == self.count,
            r.tags matches Some(t) && t@ == tags_insert(metric_tags(self.tags), name@, value@),
    {
        Histogram { name: self.name, count: self.count, tags: Some(add_tag(self.tags, name, value)) }
    }
}

impl Metric for Histogram {
    open spec fn encoded(&self, tags: TagSeq) -> Seq<char> {
        name_and_tags(self.name@, tags, metric_tags(self.tags)) + kind_text('h') + decimal(self.count as nat)
    }

    fn serialize(&self, tags: &Tags, buf: &mut String) {
        let ghost start = buf@;
        serialize_name_and_tags(buf, self.name.as_str(), tags, self.tags.as_ref());
        write_kind(buf, 'h');
        write_u64(buf, self.count);
        assert(buf@ =~= start + self.encoded(tags@));
    }
}

} // verus!
