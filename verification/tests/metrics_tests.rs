use metco_client::{Counter, Gauge, GaugeOperation, Histogram, Metric, Tags, Timing, TimingResolution};

fn serialize_to_string(gauge: Gauge, tags: &Tags) -> String {
    let mut buf = String::new();
    gauge.serialize(tags, &mut buf);
    buf
}

#[test]
fn test_counter_serialization() {
    let tags = Tags::default();
    let mut buf = String::new();
    Counter::new("test", 10).serialize(&tags, &mut buf);
    assert_eq!("test|c|10", buf);
}

#[test]
fn test_histogram_serialization() {
    let tags = Tags::default();
    let mut buf = String::new();
    Histogram::new("test", 100).serialize(&tags, &mut buf);
    assert_eq!("test|h|100", buf);
}

#[test]
fn test_gauge_serialization() {
    let tags = Tags::default();

    assert_eq!(
        "test|g|123",
        serialize_to_string(Gauge::new("test", GaugeOperation::SetTo(123)), &tags)
    );
    assert_eq!(
        "test|g|-123",
        serialize_to_string(Gauge::new("test", GaugeOperation::SetTo(-123)), &tags)
    );
    assert_eq!(
        "test|g|x",
        serialize_to_string(Gauge::new("test", GaugeOperation::Remove), &tags)
    );
    assert_eq!(
        "test|g|+=10",
        serialize_to_string(Gauge::new("test", GaugeOperation::Increment(10)), &tags)
    );
    assert_eq!(
        "test|g|-=10",
        serialize_to_string(Gauge::new("test", GaugeOperation::Decrement(10)), &tags)
    );
}

#[test]
fn test_timing_resolution_encoding() {
    assert_eq!(TimingResolution::Seconds.encode(), "s");
    assert_eq!(TimingResolution::MilliSeconds.encode(), "ms");
    assert_eq!(TimingResolution::MicroSeconds.encode(), "us");
    assert_eq!(TimingResolution::NanoSeconds.encode(), "ns");
}

#[test]
fn test_timing_serialization() {
    let tags = Tags::default();
    let mut buf = String::new();
    Timing::new("test", 100, TimingResolution::MilliSeconds).serialize(&tags, &mut buf);
    assert_eq!("test|t|100|ms", buf);
}

#[test]
fn serialize_appends_to_the_buffer() {
    let mut buf = String::from("x.");
    Counter::new("c", 0).serialize(&Tags::new(), &mut buf);
    assert_eq!(buf, "x.c|c|0");
}

#[test]
fn gauge_extremes_and_negative_steps() {
    let tags = Tags::new();
    assert_eq!(
        "g|g|-9223372036854775808",
        serialize_to_string(Gauge::new("g", GaugeOperation::SetTo(i64::MIN)), &tags)
    );
    assert_eq!(
        "g|g|+=-5",
        serialize_to_string(Gauge::new("g", GaugeOperation::Increment(-5)), &tags)
    );
    assert_eq!(
        "g|g|-=9223372036854775807",
        serialize_to_string(Gauge::new("g", GaugeOperation::Decrement(i64::MAX)), &tags)
    );
}

#[test]
fn metric_tags_override_default_tags() {
    let mut defaults = Tags::new();
    defaults.insert("source".into(), "web".into());
    defaults.insert("env".into(), "prod".into());

    let mut buf = String::new();
    Counter::new("req", 1)
        .with_tag("method", "GET")
        .serialize(&defaults, &mut buf);
    assert_eq!(buf, "req;method=GET;source=web;env=prod|c|1");

    let mut buf = String::new();
    Counter::new("req", 1)
        .with_tag("source", "cli")
        .serialize(&defaults, &mut buf);
    assert_eq!(buf, "req;source=cli;env=prod|c|1");
}

#[test]
fn with_tag_replaces_a_tag_of_the_same_name() {
    let mut buf = String::new();
    Histogram::new("h", 7)
        .with_tag("a", "1")
        .with_tag("b", "2")
        .with_tag("a", "3")
        .serialize(&Tags::new(), &mut buf);
    assert_eq!(buf, "h;a=3;b=2|h|7");
}

#[test]
fn with_tags_adds_to_existing_tags() {
    let mut more = Tags::new();
    more.insert("b".into(), "2".into());
    more.insert("a".into(), "9".into());
    let mut buf = String::new();
    Timing::new("t", 5, TimingResolution::Seconds)
        .with_tag("a", "1")
        .with_tags(more)
        .serialize(&Tags::new(), &mut buf);
    assert_eq!(buf, "t;a=9;b=2|t|5|s");
}

#[test]
fn with_tags_on_a_gauge_without_tags() {
    let mut tags = Tags::new();
    tags.insert("k".into(), "v;w".into());
    let mut buf = String::new();
    Gauge::new("g|1", GaugeOperation::Remove)
        .with_tags(tags)
        .serialize(&Tags::new(), &mut buf);
    assert_eq!(buf, "g\\|1;k=v\\;w|g|x");
}

#[test]
fn counters_carry_the_whole_u64_range() {
    let mut buf = String::new();
    Counter::new("c", u64::MAX).serialize(&Tags::new(), &mut buf);
    assert_eq!(buf, format!("c|c|{}", u64::MAX));
}
