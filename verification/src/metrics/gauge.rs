use vstd::prelude::*;
use crate::client::{Client, prefix_text};
use crate::metrics::{Metric, add_tag, add_tags, kind_text, metric_tags, tags_after_adding, write_kind};
use crate::transport::Transport;
use crate::types::{Tags, TagSeq, tags_insert};
use crate::utils::{name_and_tags, push_char, serialize_name_and_tags, signed_decimal, write_i64};

verus! {

/// Represents an operation to be performed on a gauge.
#[derive(Debug, Clone, PartialEq, Eq, Structural)]
pub enum GaugeOperation {
    /// Sets the gauge to an absolute value.
    SetTo(i64),
    /// Removes the gauge.
    Remove,
    /// Increments the gauge by a relative value.
    Increment(i64),
    /// Decrements the gauge by a relative value.
    Decrement(i64),
}

/// How a gauge operation is written after `|g|`: the value for a set, `x` for a removal, `+=`
/// or `-=` and the value for an increment or a decrement.
pub open spec fn operation_text(op: GaugeOperation) -> Seq<char> {
    match op {
        GaugeOperation::SetTo(v) => signed_decimal(v as int),
        GaugeOperation::Remove => seq!['x'],
        GaugeOperation::Increment(v) => seq!['+', '='] + signed_decimal(v as int),
        GaugeOperation::Decrement(v) => seq!['-', '='] + signed_decimal(v as int),
    }
}

/// The text of a gauge named `name` with operation `op`, its own tags `own` and the default
/// tags `defaults`.
pub open spec fn gauge_text(name: Seq<char>, op: GaugeOperation, own: TagSeq, defaults: TagSeq) -> Seq<char> {
    name_and_tags(name, defaults, own) + kind_text('g') + operation_text(op)
}

/// A gauge metric.
///
/// Gauges are used to track a value that can go up and down. A gauge is written as
/// `name;tags|g|operation`.
pub struct Gauge {
    pub name: String,
    pub operation: GaugeOperation,
    pub tags: Option<Tags>,
}

impl Gauge {
    /// Creates a new gauge with the given name and operation.
    pub fn new(name: &str, operation: GaugeOperation) -> (g: Gauge)
        ensures
            g.name@ == name@,
            g.operation == operation,
            g.tags is None,
    {
        Gauge { name: name.to_owned(), operation, tags: None }
    }

    /// Adds multiple tags to the metric.
    pub fn with_tags(self, tags: Tags) -> (r: Gauge)
        ensures
            r.name == self.name,
            r.operation == self.operation,
            r.tags matches Some(t) && t@ == tags_after_adding(self.tags, tags@),
    {
        Gauge { name: self.name, operation: self.operation, tags: Some(add_tags(self.tags, tags)) }
    }

    /// Adds a single tag to the metric.
    pub fn with_tag(self, name: &str, value: &str) -> (r: Gauge)
        ensures
            r.name == self.name,
            r.operation == self.operation,
            r.tags matches Some(t) && t@ == tags_insert(metric_tags(self.tags), name@, value@),
    {
        Gauge { name: self.name, operation: self.operation, tags: Some(add_tag(self.tags, name, value)) }
    }
}

impl Metric for Gauge {
    open spec fn encoded(&self, tags: TagSeq) -> Seq<char> {
        gauge_text(self.name@, self.operation, metric_tags(self.tags), tags)
    }

    fn serialize(&self, tags: &Tags, buf: &mut String) {
        let ghost start = buf@;
        serialize_name_and_tags(buf, self.name.as_str(), tags, self.tags.as_ref());
        write_kind(buf, 'g');
        let ghost head = buf@;
        match self.operation {
            GaugeOperation::SetTo(value) => write_i64(buf, value),
            GaugeOperation::Remove => push_char(buf, 'x'),
            GaugeOperation::Increment(value) => {
                push_char(buf, '+');
                push_char(buf, '=');
                write_i64(buf, value);
            },
            GaugeOperation::Decrement(value) => {
                push_char(buf, '-');
                push_char(buf, '=');
                write_i64(buf, value);
            },
        }
        assert(buf@ =~= head + operation_text(self.operation));
        assert(buf@ =~= start + self.encoded(tags@));
    }
}

/// A handle for performing operations on a gauge.
///
/// Created via [`Client::gauge`](crate::Client::gauge). Each operation sends one gauge metric
/// named after the handle.
pub struct GaugeHandle<'a, T> {
    pub client: &'a Client<T>,
    pub name: String,
}

impl<'a, T: Transport> GaugeHandle<'a, T> {
    /// The gauge metric that an operation of this handle sends.
    fn gauge(&self, operation: GaugeOperation) -> (g: Gauge)
        ensures
            g.name@ == self.name@,
            g.operation == operation,
            g.tags is None,
    {
        Gauge::new(self.name.as_str(), operation)
    }

    /// Sets the gauge to the given value.
    pub fn set(&self, value: i64)
        ensures
            self.client.transport.delivered(
                prefix_text(self.client.prefix) + gauge_text(self.name@, GaugeOperation::SetTo(value), Seq::empty(), self.client.tags@),
            ),
    {
        self.client.send(self.gauge(GaugeOperation::SetTo(value)));
    }

    /// Sets the gauge to the given value with additional tags.
    pub fn set_with_tags(&self, value: i64, tags: Tags)
        ensures
            self.client.transport.delivered(
                prefix_text(self.client.prefix) + gauge_text(self.name@, GaugeOperation::SetTo(value), tags@, self.client.tags@),
            ),
    {
        self.client.send(self.gauge(GaugeOperation::SetTo(value)).with_tags(tags));
    }

    /// Removes the gauge.
    pub fn remove(&self)
        ensures
            self.client.transport.delivered(
                prefix_text(self.client.prefix) + gauge_text(self.name@, GaugeOperation::Remove, Seq::empty(), self.client.tags@),
            ),
    {
        self.client.send(self.gauge(GaugeOperation::Remove));
    }

    /// Removes the gauge with additional tags.
    pub fn remove_with_tags(&self, tags: Tags)
        ensures
            self.client.transport.delivered(
                prefix_text(self.client.prefix) + gauge_text(self.name@, GaugeOperation::Remove, tags@, self.client.tags@),
            ),
    {
        self.client.send(self.gauge(GaugeOperation::Remove).with_tags(tags));
    }

    /// Increments the gauge by the given value.
    pub fn increment(&self, value: i64)
        ensures
            self.client.transport.delivered(
                prefix_text(self.client.prefix) + gauge_text(self.name@, GaugeOperation::Increment(value), Seq::empty(), self.client.tags@),
            ),
    {
        self.client.send(self.gauge(GaugeOperation::Increment(value)));
    }

    /// Increments the gauge by the given value with additional tags.
    pub fn increment_with_tags(&self, value: i64, tags: Tags)
        ensures
            self.client.transport.delivered(
                prefix_text(self.client.prefix) + gauge_text(self.name@, GaugeOperation::Increment(value), tags@, self.client.tags@),
            ),
    {
        self.client.send(self.gauge(GaugeOperation::Increment(value)).with_tags(tags));
    }

    /// Decrements the gauge by the given value.
    pub fn decrement(&self, value: i64)
        ensures
            self.client.transport.delivered(
                prefix_text(self.client.prefix) + gauge_text(self.name@, GaugeOperation::Decrement(value), Seq::empty(), self.client.tags@),
            ),
    {
        self.client.send(self.gauge(GaugeOperation::Decrement(value)));
    }

    /// Decrements the gauge by the given value with additional tags.
    pub fn decrement_with_tags(&self, value: i64, tags: Tags)
        ensures
            self.client.transport.delivered(
                prefix_text(self.client.prefix) + gauge_text(self.name@, GaugeOperation::Decrement(value), tags@, self.client.tags@),
            ),
    {
        self.client.send(self.gauge(GaugeOperation::Decrement(value)).with_tags(tags));
    }
}

} // verus!
