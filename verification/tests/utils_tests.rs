use metco_client::utils::{serialize_name_and_tags, write_escaped_tag_name, write_escaped_value, write_i64, write_u64};
use metco_client::Tags;

#[test]
fn test_escape_value() {
    let mut buff = String::new();
    write_escaped_value(&mut buff, "test");
    assert_eq!(buff, "test");

    let mut buff = String::new();
    write_escaped_value(&mut buff, "te;st");
    assert_eq!(buff, "te\\;st");

    let mut buff = String::new();
    write_escaped_value(&mut buff, "t|e;s\\t");
    assert_eq!(buff, "t\\|e\\;s\\\\t");
}

#[test]
fn test_escape_tag_name() {
    let mut buff = String::new();
    write_escaped_tag_name(&mut buff, "test");
    assert_eq!(buff, "test");

    let mut buff = String::new();
    write_escaped_tag_name(&mut buff, "te\\st");
    assert_eq!(buff, "te\\\\st");

    let mut buff = String::new();
    write_escaped_tag_name(&mut buff, "te=st");
    assert_eq!(buff, "te\\=st");
}

#[test]
fn test_serialize_name_and_tags() {
    let mut buff = String::new();
    serialize_name_and_tags(&mut buff, "test", &Tags::default(), None);
    assert_eq!("test", buff);

    let mut default_tags = Tags::new();
    default_tags.insert("k1".into(), "v1".into());
    let mut buff = String::new();
    serialize_name_and_tags(&mut buff, "test", &default_tags, None);
    assert_eq!("test;k1=v1", buff);

    let mut metric_tags = Tags::new();
    metric_tags.insert("k2".into(), "v2".into());
    let mut buff = String::new();
    serialize_name_and_tags(&mut buff, "test", &default_tags, Some(&metric_tags));
    assert!(buff == "test;k2=v2;k1=v1" || buff == "test;k1=v1;k2=v2");

    // Metric tag overrides default tag
    let mut override_tags = Tags::new();
    override_tags.insert("k1".into(), "v1_new".into());
    let mut buff = String::new();
    serialize_name_and_tags(&mut buff, "test", &default_tags, Some(&override_tags));
    assert_eq!("test;k1=v1_new", buff);
}

#[test]
fn test_serialize_with_escaping() {
    let mut metric_tags = Tags::new();
    metric_tags.insert("k1".into(), "v|1".into());

    let mut buff = String::new();
    serialize_name_and_tags(&mut buff, "t|est", &Tags::default(), Some(&metric_tags));
    assert_eq!("t\\|est;k1=v\\|1", buff);
}

#[test]
fn escaping_appends_to_what_is_there() {
    let mut buff = String::from("a|");
    write_escaped_value(&mut buff, "b");
    assert_eq!(buff, "a|b");
}

#[test]
fn tag_names_keep_bars_and_semicolons() {
    let mut buff = String::new();
    write_escaped_tag_name(&mut buff, "a|b;c=d\\");
    assert_eq!(buff, "a|b;c\\=d\\\\");
}

#[test]
fn values_keep_equal_signs() {
    let mut buff = String::new();
    write_escaped_value(&mut buff, "a=b");
    assert_eq!(buff, "a=b");
}

#[test]
fn non_ascii_text_is_copied() {
    let mut buff = String::new();
    write_escaped_value(&mut buff, "žćč|€");
    assert_eq!(buff, "žćč\\|€");
}

#[test]
fn empty_name_and_empty_tags() {
    let mut buff = String::new();
    serialize_name_and_tags(&mut buff, "", &Tags::new(), Some(&Tags::new()));
    assert_eq!(buff, "");
}

#[test]
fn several_defaults_keep_their_order_and_skip_overridden_ones() {
    let mut defaults = Tags::new();
    defaults.insert("a".into(), "1".into());
    defaults.insert("b".into(), "2".into());
    defaults.insert("c".into(), "3".into());
    let mut own = Tags::new();
    own.insert("b".into(), "x".into());
    own.insert("d".into(), "y".into());
    let mut buff = String::new();
    serialize_name_and_tags(&mut buff, "m", &defaults, Some(&own));
    assert_eq!(buff, "m;b=x;d=y;a=1;c=3");
}

#[test]
fn unsigned_numbers_are_written_in_decimal() {
    for n in [0u64, 1, 9, 10, 11, 99, 100, 12345, 1_000_000, u64::MAX - 1, u64::MAX] {
        let mut buff = String::new();
        write_u64(&mut buff, n);
        assert_eq!(buff, n.to_string());
    }
    let mut buff = String::new();
    write_u64(&mut buff, 1234567890);
    assert_eq!(buff, "1234567890");
}

#[test]
fn signed_numbers_are_written_in_decimal() {
    for n in [0i64, 1, -1, 9, -9, 10, -10, 123, -123, i64::MAX, i64::MIN, i64::MIN + 1] {
        let mut buff = String::new();
        write_i64(&mut buff, n);
        assert_eq!(buff, n.to_string());
    }
    let mut buff = String::new();
    write_i64(&mut buff, -9223372036854775808);
    assert_eq!(buff, "-9223372036854775808");
}
