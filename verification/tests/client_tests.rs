use metco_client::transport::{BlackHoleTransport, Transport};
use metco_client::{ClientBuilder, Counter, Gauge, GaugeOperation, Histogram, Tags, Timing, TimingResolution};
use std::cell::RefCell;

#[derive(Default)]
struct Recorder {
    lines: RefCell<Vec<String>>,
}

impl Transport for Recorder {
    fn send(&self, metric: &str) {
        self.lines.borrow_mut().push(metric.to_string());
    }
}

fn tags(pairs: &[(&str, &str)]) -> Tags {
    let mut t = Tags::new();
    for (k, v) in pairs {
        t.insert(k.to_string(), v.to_string());
    }
    t
}

#[test]
fn test_client_builder_prefix() {
    let builder = ClientBuilder::default().with_prefix("app.");

    assert_eq!(builder.prefix.as_deref(), Some("app."));
}

#[test]
fn test_prefix_escaping() {
    let client = ClientBuilder::default()
        .with_prefix("app|test.")
        .build(BlackHoleTransport::default());

    assert_eq!(client.prefix.as_deref(), Some("app\\|test."));
}

#[test]
fn test_client_builder_tags() {
    let mut more = Tags::new();
    more.insert("t2".into(), "v2".into());
    let builder = ClientBuilder::default().with_tag("t1", "v1").with_tags(more);

    assert_eq!(builder.tags.len(), 2);
    assert_eq!(builder.tags.get("t1").unwrap(), "v1");
    assert_eq!(builder.tags.get("t2").unwrap(), "v2");
}

#[test]
fn test_gauge_handle_name() {
    let client = ClientBuilder::default().build(BlackHoleTransport::default());
    let handle = client.gauge("test_gauge");
    assert_eq!(handle.name, "test_gauge");
}

#[test]
fn test_timer_with_tags() {
    let client = ClientBuilder::default().build(BlackHoleTransport::default());
    let timer = client.timer("test").with_tag("t1", "v1");

    assert_eq!(timer.name, "test");
    assert_eq!(timer.tags.as_ref().unwrap().get("t1").unwrap(), "v1");
}

#[test]
fn test_client_and_send_data() {
    let client = ClientBuilder::default().build(Recorder::default());
    client
        .send(Counter::new("test", 12))
        .send(Histogram::new("test2", 123));
    assert_eq!(*client.transport.lines.borrow(), vec!["test|c|12", "test2|h|123"]);
}

#[test]
fn test_client_with_prefix_is_sent() {
    let client = ClientBuilder::default().with_prefix("app.").build(Recorder::default());
    client.send(Counter::new("test", 1));
    assert_eq!(client.line(&Counter::new("test", 1)), "app.test|c|1");
    assert_eq!(*client.transport.lines.borrow(), vec!["app.test|c|1"]);
}

#[test]
fn test_client_with_escaped_prefix_is_sent() {
    let client = ClientBuilder::default().with_prefix("app|test.").build(Recorder::default());
    client.send(Counter::new("m1", 1));
    assert_eq!(*client.transport.lines.borrow(), vec!["app\\|test.m1|c|1"]);
}

#[test]
fn default_tags_are_added_and_overridden() {
    let client = ClientBuilder::default().with_tag("source", "web").build(Recorder::default());
    client.send(Counter::new("req", 1).with_tag("method", "GET"));
    client.send(Counter::new("req", 1).with_tag("source", "cli"));
    assert_eq!(
        *client.transport.lines.borrow(),
        vec!["req;method=GET;source=web|c|1", "req;source=cli|c|1"]
    );
}

#[test]
fn send_with_tags_puts_call_tags_over_client_tags() {
    let client = ClientBuilder::default()
        .with_tag("a", "1")
        .with_tag("b", "2")
        .build(Recorder::default());
    client.send_with_tags(Counter::new("c", 3), tags(&[("b", "x"), ("z", "9")]));
    // the metric's own tags override both
    client.send_with_tags(Counter::new("c", 3).with_tag("z", "own"), tags(&[("z", "call")]));
    assert_eq!(
        *client.transport.lines.borrow(),
        vec!["c;b=x;z=9;a=1|c|3", "c;z=own;a=1;b=2|c|3"]
    );
}

#[test]
fn send_with_no_tags_is_a_plain_send() {
    let client = ClientBuilder::default().with_tag("a", "1").build(Recorder::default());
    let plain = client.line(&Histogram::new("h", 2));
    let with_none = client.line_with_tags(&Histogram::new("h", 2), Tags::new());
    assert_eq!(plain, with_none);
    assert_eq!(plain, "h;a=1|h|2");
}

#[test]
fn gauge_handle_sends_each_operation() {
    let client = ClientBuilder::default().build(Recorder::default());
    let gauge = client.gauge("active_users");
    gauge.set(42);
    gauge.increment(2);
    gauge.decrement(1);
    gauge.remove();
    gauge.set_with_tags(-7, tags(&[("k", "v")]));
    gauge.increment_with_tags(3, tags(&[("k", "v")]));
    gauge.decrement_with_tags(4, tags(&[("k", "v")]));
    gauge.remove_with_tags(tags(&[("k", "v")]));
    assert_eq!(
        *client.transport.lines.borrow(),
        vec![
            "active_users|g|42",
            "active_users|g|+=2",
            "active_users|g|-=1",
            "active_users|g|x",
            "active_users;k=v|g|-7",
            "active_users;k=v|g|+=3",
            "active_users;k=v|g|-=4",
            "active_users;k=v|g|x",
        ]
    );
}

fn split(line: &str) -> Vec<String> {
    line.split('|').map(|s| s.to_string()).collect()
}

#[test]
fn test_timer_is_sent() {
    let client = ClientBuilder::default().build(Recorder::default());
    let started = std::time::Instant::now();
    client.timer("test").finish();
    let bound = started.elapsed().as_nanos() as u64;
    let lines = client.transport.lines.borrow();
    assert_eq!(lines.len(), 1);
    let fields = split(&lines[0]);
    assert_eq!(fields.len(), 4);
    assert_eq!(fields[0], "test");
    assert_eq!(fields[1], "t");
    assert!(bound > fields[2].parse::<u64>().unwrap());
    assert_eq!(fields[3], "ns");
}

#[test]
fn timer_tags_and_finish_tags_are_sent() {
    let client = ClientBuilder::default().with_tag("d", "0").build(Recorder::default());
    client.timer("a").with_tag("t", "1").finish();
    client.timer("b").finish_with_tags(tags(&[("u", "2")]));
    client.timer("c").with_tag("t", "1").finish_with_tags(tags(&[("t", "3"), ("u", "2")]));
    let lines = client.transport.lines.borrow();
    let heads: Vec<String> = lines.iter().map(|l| split(l)[0].clone()).collect();
    assert_eq!(heads, vec!["a;t=1;d=0", "b;u=2;d=0", "c;t=3;u=2;d=0"]);
    for l in lines.iter() {
        assert!(l.ends_with("|ns"));
    }
}

#[test]
fn timing_and_gauge_lines_with_prefix_and_defaults() {
    let client = ClientBuilder::default()
        .with_prefix("p;")
        .with_tag("e=x", "v|y")
        .build(Recorder::default());
    client.send(Timing::new("q", 150, TimingResolution::MilliSeconds));
    client.send(Gauge::new("g", GaugeOperation::SetTo(5)));
    assert_eq!(
        *client.transport.lines.borrow(),
        vec!["p\\;q;e\\=x=v\\|y|t|150|ms", "p\\;g;e\\=x=v\\|y|g|5"]
    );
}

#[test]
fn builder_tags_replace_and_keep_order() {
    let builder = ClientBuilder::default()
        .with_tag("a", "1")
        .with_tag("b", "2")
        .with_tags(tags(&[("a", "3"), ("c", "4")]));
    assert_eq!(builder.tags.len(), 3);
    assert_eq!(builder.tags.key(0), "a");
    assert_eq!(builder.tags.value(0), "3");
    assert_eq!(builder.tags.key(2), "c");
    assert!(builder.prefix.is_none());
}

#[test]
fn finish_after_sends_the_given_nanoseconds() {
    let client = ClientBuilder::default()
        .with_prefix("p.")
        .with_tag("d", "0")
        .build(Recorder::default());
    client.timer("a").finish_after(150);
    client.timer("b").with_tag("d", "1").finish_after(7);
    client.timer("c").with_tag("t", "1").finish_with_tags_after(tags(&[("t", "2"), ("u", "3")]), 0);
    client.timer("e").finish_with_tags_after(Tags::new(), 5);
    assert_eq!(
        *client.transport.lines.borrow(),
        vec!["p.a;d=0|t|150|ns", "p.b;d=1|t|7|ns", "p.c;t=2;u=3;d=0|t|0|ns", "p.e;d=0|t|5|ns"]
    );
}

#[test]
fn send_with_tags_from_the_docs() {
    let client = ClientBuilder::default().build(Recorder::default());
    client.send_with_tags(Counter::new("requests", 1), tags(&[("env", "prod")]));
    assert_eq!(*client.transport.lines.borrow(), vec!["requests;env=prod|c|1"]);
}
