use metco_client::transport::BlackHoleTransport;
use metco_client::{ClientBuilder, Counter, Gauge, GaugeOperation, Histogram, Tags, Timing, TimingResolution};

/// Splits at each `sep` that has no `\` before it; a `\` and the character after it stay together.
fn split_bare(s: &str, sep: char) -> Vec<String> {
    let mut parts = vec![String::new()];
    let mut chars = s.chars();
    while let Some(c) = chars.next() {
        if c == '\\' {
            match chars.next() {
                Some(d) => {
                    parts.last_mut().unwrap().push(c);
                    parts.last_mut().unwrap().push(d);
                }
                None => parts.last_mut().unwrap().push(c),
            }
        } else if c == sep {
            parts.push(String::new());
        } else {
            parts.last_mut().unwrap().push(c);
        }
    }
    parts
}

fn unescape(s: &str) -> String {
    let mut out = String::new();
    let mut chars = s.chars();
    while let Some(c) = chars.next() {
        if c == '\\' {
            match chars.next() {
                Some(d) => out.push(d),
                None => out.push(c),
            }
        } else {
            out.push(c);
        }
    }
    out
}

/// Reads a line back: the name, the tags in order, and the fields after the head.
fn read_line(line: &str) -> (String, Vec<(String, String)>, Vec<String>) {
    let fields = split_bare(line, '|');
    let head = split_bare(&fields[0], ';');
    let name = unescape(&head[0]);
    let tags = head[1..]
        .iter()
        .map(|piece| {
            let parts = split_bare(piece, '=');
            (unescape(&parts[0]), unescape(&parts[1..].join("=")))
        })
        .collect();
    (name, tags, fields[1..].to_vec())
}

fn owned(pairs: &[(&str, &str)]) -> Vec<(String, String)> {
    pairs.iter().map(|(k, v)| (k.to_string(), v.to_string())).collect()
}

#[test]
fn counter_line_reads_back_with_special_characters() {
    let client = ClientBuilder::default()
        .with_prefix("a|b;c\\")
        .with_tag("d=e", "f|g;h=i\\")
        .build(BlackHoleTransport::default());
    let line = client.line(&Counter::new("n;|=\\m", 42).with_tag("k\\=", "=v"));
    let (name, tags, fields) = read_line(&line);
    assert_eq!(name, "a|b;c\\n;|=\\m");
    assert_eq!(tags, owned(&[("k\\=", "=v"), ("d=e", "f|g;h=i\\")]));
    assert_eq!(fields, vec!["c", "42"]);
    assert_eq!(fields[1].parse::<u64>().unwrap(), 42);
}

#[test]
fn every_kind_reads_back() {
    let client = ClientBuilder::default().with_tag("env", "prod").build(BlackHoleTransport::default());
    let (_, _, f) = read_line(&client.line(&Histogram::new("h", 7)));
    assert_eq!(f, vec!["h", "7"]);
    let (_, _, f) = read_line(&client.line(&Gauge::new("g", GaugeOperation::Decrement(-3))));
    assert_eq!(f, vec!["g", "-=-3"]);
    let (n, t, f) = read_line(&client.line(&Timing::new("t|x", 9, TimingResolution::MicroSeconds)));
    assert_eq!(n, "t|x");
    assert_eq!(t, owned(&[("env", "prod")]));
    assert_eq!(f, vec!["t", "9", "us"]);
}

#[test]
fn overriding_tag_is_read_once() {
    let client = ClientBuilder::default()
        .with_tag("k", "default")
        .with_tag("other", "o")
        .build(BlackHoleTransport::default());
    let mut call = Tags::new();
    call.insert("k".into(), "call".into());
    let (_, t, _) = read_line(&client.line_with_tags(&Counter::new("c", 1), call));
    assert_eq!(t, owned(&[("k", "call"), ("other", "o")]));
}

#[test]
fn tag_names_with_a_bar_do_not_read_back() {
    // Tag names are written with only `\` and `=` escaped: a `|` in a tag name is read as a
    // field separator.
    let client = ClientBuilder::default().build(BlackHoleTransport::default());
    let line = client.line(&Counter::new("c", 1).with_tag("a|b", "v"));
    assert_eq!(line, "c;a|b=v|c|1");
    let (name, tags, fields) = read_line(&line);
    assert_eq!(name, "c");
    assert_ne!(tags, owned(&[("a|b", "v")]));
    assert_ne!(fields, vec!["c", "1"]);
}
