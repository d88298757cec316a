use metco_client::prelude::{Counter, Gauge, GaugeOperation, Histogram, Metric, Tags, Timing, TimingResolution};

#[test]
fn counter_is_properly_serialized() {
    let mut buf = String::new();
    Counter::new("test", 124).serialize(&Tags::default(), &mut buf);
    assert_eq!("test|c|124", buf);

    let mut buf = String::new();
    Counter::new("test", 124)
        .with_tag("t1", "v1")
        .serialize(&Tags::default(), &mut buf);
    assert_eq!("test;t1=v1|c|124", buf);
}

#[test]
fn histogram_is_properly_serialized() {
    let mut buf = String::new();
    Histogram::new("test", 124).serialize(&Tags::default(), &mut buf);
    assert_eq!("test|h|124", buf);
}

#[test]
fn timing_is_properly_serialized() {
    let mut buf = String::new();
    Timing::new("test", 124, TimingResolution::MicroSeconds)
        .serialize(&Tags::default(), &mut buf);
    assert_eq!("test|t|124|us", buf);
}

#[test]
fn test_tag_escaping_in_serialization() {
    let mut tags = Tags::new();
    tags.insert("k=1".into(), "v;1".into());
    let mut buf = String::new();
    Counter::new("test", 1)
        .with_tags(tags)
        .serialize(&Tags::default(), &mut buf);
    assert_eq!("test;k\\=1=v\\;1|c|1", buf);
}

#[test]
fn gauge_is_properly_serialized() {
    let mut buf = String::new();
    Gauge::new("test", GaugeOperation::SetTo(123)).serialize(&Tags::default(), &mut buf);
    assert_eq!("test|g|123", buf);
}
