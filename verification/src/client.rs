//! The client: default tags, an optional prefix, and a transport.
use vstd::prelude::*;
use crate::metrics::{GaugeHandle, Metric, Timer};
use crate::metrics::timing::instant_now;
use crate::transport::Transport;
use crate::types::{Tags, distinct_keys, has_key, tags_extend, tags_insert, tags_missing, tags_overlay, lemma_missing};
use crate::utils::{escape_value, write_escaped_value};

verus! {

/// The text that a prefix contributes to a line; nothing when there is none.
pub open spec fn prefix_text(prefix: Option<String>) -> Seq<char> {
    match prefix {
        Some(p) => p@,
        None => Seq::empty(),
    }
}

/// The prefix after escaping, as a client holds it.
pub open spec fn escaped_prefix(prefix: Option<String>) -> Option<Seq<char>> {
    match prefix {
        Some(p) => Some(escape_value(p@)),
        None => None,
    }
}

/// The prefix of a client, as its view.
pub open spec fn prefix_view(prefix: Option<String>) -> Option<Seq<char>> {
    match prefix {
        Some(p) => Some(p@),
        None => None,
    }
}

/// MetCo client: sends each metric as one line through its transport.
pub struct Client<T> {
    pub transport: T,
    /// Tags added to every metric that does not set the same name itself.
    pub tags: Tags,
    /// Text written before every line, already escaped.
    pub prefix: Option<String>,
}

impl<T: Transport> Client<T> {
    /// The line that `send(metric)` hands to the transport: the prefix, then the metric written
    /// with the client's tags as defaults.
    pub fn line<M: Metric>(&self, metric: &M) -> (s: String)
        ensures
            s@ == prefix_text(self.prefix) + metric.encoded(self.tags@),
    {
        let mut buf = String::new();
        if let Some(prefix) = &self.prefix {
            buf.append(prefix.as_str());
        }
        metric.serialize(&self.tags, &mut buf);
        buf
    }

    /// The line that `send_with_tags(metric, tags)` hands to the transport: as `line`, with
    /// `tags` in front of the client's tags, which it overrides.
    pub fn line_with_tags<M: Metric>(&self, metric: &M, tags: Tags) -> (s: String)
        ensures
            s@ == prefix_text(self.prefix) + metric.encoded(tags_overlay(tags@, self.tags@)),
    {
        let ghost call = tags@;
        let mut merged = tags;
        let n = self.tags.len();
        let mut i: usize = 0;
        while i < n
            invariant
                n == self.tags@.len(),
                i <= n,
                distinct_keys(self.tags@),
                merged@ == call + tags_missing(self.tags@.take(i as int), call),
            decreases n - i,
        {
            let ghost prefix = self.tags@.take(i as int);
            assert(self.tags@.take(i + 1).drop_last() =~= prefix);
            let key = self.tags.key(i);
            proof {
                lemma_missing(prefix, call);
                let m = tags_missing(prefix, call);
                assert(!has_key(prefix, key@)) by {
                    if has_key(prefix, key@) {
                        let j = choose|j: int| 0 <= j < prefix.len() && #[trigger] prefix[j].0 == key@;
                        assert(self.tags@[j].0 == self.tags@[i as int].0);
                    }
                }
                assert(!has_key(m, key@));
                assert(has_key(call + m, key@) == has_key(call, key@)) by {
                    if has_key(call + m, key@) {
                        let j = choose|j: int| 0 <= j < (call + m).len() && #[trigger] (call + m)[j].0 == key@;
                        if j >= call.len() {
                            assert(m[j - call.len()].0 == key@);
                        } else {
                            assert(call[j].0 == key@);
                        }
                    }
                    if has_key(call, key@) {
                        let j = choose|j: int| 0 <= j < call.len() && #[trigger] call[j].0 == key@;
                        assert((call + m)[j].0 == key@);
                    }
                }
                assert(self.tags@.take(i + 1).last() == self.tags@[i as int]);
            }
            if !merged.contains_key(key.as_str()) {
                merged.insert(key.clone(), self.tags.value(i).clone());
                assert(merged@ =~= call + tags_missing(self.tags@.take(i + 1), call));
            } else {
                assert(tags_missing(self.tags@.take(i + 1), call) == tags_missing(prefix, call));
            }
            i = i + 1;
        }
        assert(self.tags@.take(n as int) =~= self.tags@);
        let mut buf = String::new();
        if let Some(prefix) = &self.prefix {
            buf.append(prefix.as_str());
        }
        metric.serialize(&merged, &mut buf);
        buf
    }

    /// Sends a metric to the MetCo server.
    ///
    /// The transport receives [`Client::line`] of the metric.
    pub fn send<M: Metric>(&self, metric: M) -> (r: &Self)
        ensures
            r == self,
            self.transport.delivered(prefix_text(self.prefix) + metric.encoded(self.tags@)),
    {
        let buf = self.line(&metric);
        self.transport.send(buf.as_str());
        self
    }

    /// Sends a metric to the MetCo server with additional tags.
    ///
    /// The transport receives [`Client::line_with_tags`] of the metric and the tags.
    pub fn send_with_tags<M: Metric>(&self, metric: M, tags: Tags) -> (r: &Self)
        ensures
            r == self,
            self.transport.delivered(
                prefix_text(self.prefix) + metric.encoded(tags_overlay(tags@, self.tags@)),
            ),
    {
        let buf = self.line_with_tags(&metric, tags);
        self.transport.send(buf.as_str());
        self
    }

    /// Creates a new timer for measuring durations; it starts now.
    pub fn timer<'a>(&'a self, name: &str) -> (t: Timer<'a, T>)
        ensures
            t.client == self,
            t.name@ == name@,
            t.tags is None,
    {
        Timer { client: self, now: instant_now(), name: name.to_owned(), tags: None }
    }

    /// Creates a handle for performing operations on a gauge.
    pub fn gauge<'a>(&'a self, name: &str) -> (g: GaugeHandle<'a, T>)
        ensures
            g.client == self,
            g.name@ == name@,
    {
        GaugeHandle { client: self, name: name.to_owned() }
    }
}

/// Builder for creating a [`Client`].
pub struct ClientBuilder {
    /// The default tags of the client to build.
    pub tags: Tags,
    /// The prefix of the client to build, before escaping.
    pub prefix: Option<String>,
}

impl Default for ClientBuilder {
    fn default() -> (b: ClientBuilder)
        ensures
            b.tags@ == Seq::<(Seq<char>, Seq<char>)>::empty(),
            b.prefix is None,
    {
        ClientBuilder { tags: Tags::new(), prefix: None }
    }
}

impl ClientBuilder {
    /// Adds a default tag to all metrics sent by the client.
    pub fn with_tag(self, name: &str, value: &str) -> (b: ClientBuilder)
        ensures
            b.tags@ == tags_insert(self.tags@, name@, value@),
            b.prefix == self.prefix,
    {
        let mut tags = self.tags;
        tags.insert(name.to_owned(), value.to_owned());
        ClientBuilder { tags, prefix: self.prefix }
    }

    /// Sets the text written before every metric line.
    pub fn with_prefix(self, prefix: &str) -> (b: ClientBuilder)
        ensures
            b.tags == self.tags,
            prefix_view(b.prefix) == Some(prefix@),
    {
        ClientBuilder { tags: self.tags, prefix: Some(prefix.to_owned()) }
    }

    /// Adds multiple default tags to all metrics sent by the client.
    pub fn with_tags(self, tags: Tags) -> (b: ClientBuilder)
        ensures
            b.tags@ == tags_extend(self.tags@, tags@),
            b.prefix == self.prefix,
    {
        let mut all = self.tags;
        all.extend(tags);
        ClientBuilder { tags: all, prefix: self.prefix }
    }

    /// Builds a client that sends through `transport`; the prefix is escaped once, here.
    pub fn build<T: Transport>(self, transport: T) -> (c: Client<T>)
        ensures
            c.transport == transport,
            c.tags == self.tags,
            prefix_view(c.prefix) == escaped_prefix(self.prefix),
    {
        let prefix = match self.prefix {
            Some(p) => {
                let mut escaped = String::new();
                write_escaped_value(&mut escaped, p.as_str());
                Some(escaped)
            },
            None => None,
        };
        Client { transport, tags: self.tags, prefix }
    }
}

} // verus!
