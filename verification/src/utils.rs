//! Text encoding shared by all metrics: escaping, tag lists and decimal numbers.
use vstd::prelude::*;
use crate::types::{Tags, TagSeq, has_key, tags_missing, tags_overlay};

verus! {

/// Appends one character to `buf` (std's `String::push`).
#[verifier::external_body]
pub(crate) fn push_char(buf: &mut String, c: char)
    ensures
        final(buf)@ == old(buf)@.push(c),
{
    buf.push(c);
}

/// The characters that get a `\` before them in a metric name, tag value or prefix.
pub open spec fn value_specials() -> Set<char> {
    set!['\\', '|', ';']
}

/// The characters that get a `\` before them in a tag name.
pub open spec fn tag_name_specials() -> Set<char> {
    set!['\\', '=']
}

/// How one character is written: with a `\` before it when it is special.
pub open spec fn escape_char(c: char, specials: Set<char>) -> Seq<char> {
    if specials.contains(c) {
        seq!['\\', c]
    } else {
        seq![c]
    }
}

/// A text as written: each special character gets a `\` before it.
pub open spec fn escape(s: Seq<char>, specials: Set<char>) -> Seq<char>
    decreases s.len(),
{
    if s.len() == 0 {
        Seq::empty()
    } else {
        escape(s.drop_last(), specials) + escape_char(s.last(), specials)
    }
}

/// A metric name, tag value or prefix as written: `\`, `|` and `;` get a `\` before them.
pub open spec fn escape_value(s: Seq<char>) -> Seq<char> {
    escape(s, value_specials())
}

/// A tag name as written: `\` and `=` get a `\` before them.
pub open spec fn escape_tag_name(s: Seq<char>) -> Seq<char> {
    escape(s, tag_name_specials())
}

/// One tag as written after a metric name: `;name=value`.
pub open spec fn encode_tag(p: (Seq<char>, Seq<char>)) -> Seq<char> {
    seq![';'] + escape_tag_name(p.0) + seq!['='] + escape_value(p.1)
}

/// A list of tags as written, one after the other.
pub open spec fn encode_tags(s: TagSeq) -> Seq<char>
    decreases s.len(),
{
    if s.len() == 0 {
        Seq::empty()
    } else {
        encode_tags(s.drop_last()) + encode_tag(s.last())
    }
}

/// The tags of an optional tag list; none when it is absent.
pub open spec fn opt_tags(tags: Option<&Tags>) -> TagSeq {
    match tags {
        Some(t) => t@,
        None => Seq::empty(),
    }
}

/// The head of every metric line: the escaped name, then the metric's own tags, then the default
/// tags whose name the metric's tags do not have.
pub open spec fn name_and_tags(name: Seq<char>, defaults: TagSeq, own: TagSeq) -> Seq<char> {
    escape_value(name) + encode_tags(tags_overlay(own, defaults))
}

/// The character of a decimal digit.
pub open spec fn digit_char(d: nat) -> char {
    if d == 0 {
        '0'
    } else if d == 1 {
        '1'
    } else if d == 2 {
        '2'
    } else if d == 3 {
        '3'
    } else if d == 4 {
        '4'
    } else if d == 5 {
        '5'
    } else if d == 6 {
        '6'
    } else if d == 7 {
        '7'
    } else if d == 8 {
        '8'
    } else {
        '9'
    }
}

/// A natural number in decimal, without leading zeros.
pub open spec fn decimal(n: nat) -> Seq<char>
    decreases n,
{
    if n < 10 {
        seq![digit_char(n)]
    } else {
        decimal(n / 10) + seq![digit_char(n % 10)]
    }
}

/// An integer in decimal, with a `-` before a negative one.
pub open spec fn signed_decimal(n: int) -> Seq<char> {
    if n < 0 {
        seq!['-'] + decimal((-n) as nat)
    } else {
        decimal(n as nat)
    }
}

/// Escapes a metric value and writes it to the string.
///
/// Replaces `\`, `|`, and `;` with their escaped versions.
pub fn write_escaped_value(buf: &mut String, value: &str)
    ensures
        final(buf)@ == old(buf)@ + escape_value(value@),
{
    broadcast use vstd::string::group_string_axioms;

    let ghost start = buf@;
    for c in it: value.chars()
        invariant
            it.seq() == value@,
            buf@ == start + escape(it.seq().take(it.index() as int), value_specials()),
    {
        assert(it.seq().take(it.index() + 1).drop_last() == it.seq().take(it.index() as int));
        if c == '\\' || c == '|' || c == ';' {
            push_char(buf, '\\');
        }
        push_char(buf, c);
    }
    assert(value@.take(value@.len() as int) == value@);
}

/// Escapes a tag name and writes it to the string.
///
/// Replaces `\` and `=` with their escaped versions.
pub fn write_escaped_tag_name(buf: &mut String, name: &str)
    ensures
        final(buf)@ == old(buf)@ + escape_tag_name(name@),
{
    broadcast use vstd::string::group_string_axioms;

    let ghost start = buf@;
    for c in it: name.chars()
        invariant
            it.seq() == name@,
            buf@ == start + escape(it.seq().take(it.index() as int), tag_name_specials()),
    {
        assert(it.seq().take(it.index() + 1).drop_last() == it.seq().take(it.index() as int));
        if c == '\\' || c == '=' {
            push_char(buf, '\\');
        }
        push_char(buf, c);
    }
    assert(name@.take(name@.len() as int) == name@);
}

/// Writes one tag: `;name=value`.
fn write_tag(buf: &mut String, name: &str, value: &str)
    ensures
        final(buf)@ == old(buf)@ + encode_tag((name@, value@)),
{
    let ghost start = buf@;
    push_char(buf, ';');
    write_escaped_tag_name(buf, name);
    push_char(buf, '=');
    write_escaped_value(buf, value);
    assert(buf@ =~= start + encode_tag((name@, value@)));
}

/// Serializes a metric name and its tags into the string.
///
/// This is a helper function used by various metric implementations to
/// ensure consistent serialization of names and tags. The metric's own tags come first; a
/// default tag is written only when the metric's tags do not have its name.
pub fn serialize_name_and_tags(buf: &mut String, name: &str, default_tags: &Tags, tags: Option<&Tags>)
    ensures
        final(buf)@ == old(buf)@ + name_and_tags(name@, default_tags@, opt_tags(tags)),
{
    let ghost start = buf@;
    let ghost own = opt_tags(tags);
    write_escaped_value(buf, name);

    if let Some(t) = tags {
        let n = t.len();
        let mut i: usize = 0;
        while i < n
            invariant
                n == t@.len(),
                i <= n,
                buf@ == start + escape_value(name@) + encode_tags(t@.take(i as int)),
            decreases n - i,
        {
            assert(t@.take(i + 1).drop_last() =~= t@.take(i as int));
            write_tag(buf, t.key(i).as_str(), t.value(i).as_str());
            i = i + 1;
        }
        assert(t@.take(n as int) =~= t@);
    }
    assert(buf@ == start + escape_value(name@) + encode_tags(own));

    let n = default_tags.len();
    let mut i: usize = 0;
    while i < n
        invariant
            n == default_tags@.len(),
            i <= n,
            own == opt_tags(tags),
            buf@ == start + escape_value(name@) + encode_tags(own) + encode_tags(
                tags_missing(default_tags@.take(i as int), own),
            ),
        decreases n - i,
    {
        let ghost prefix = default_tags@.take(i as int);
        assert(default_tags@.take(i + 1).drop_last() =~= prefix);
        let key = default_tags.key(i);
        let overridden = match tags {
            Some(t) => t.contains_key(key.as_str()),
            None => false,
        };
        assert(overridden == has_key(own, key@));
        assert(default_tags@.take(i + 1).last() == default_tags@[i as int]);
        let ghost m_old = tags_missing(prefix, own);
        let ghost pair = default_tags@[i as int];
        if !overridden {
            write_tag(buf, key.as_str(), default_tags.value(i).as_str());
            assert(tags_missing(default_tags@.take(i + 1), own) == m_old.push(pair));
            assert(m_old.push(pair).drop_last() =~= m_old);
            assert(encode_tags(m_old.push(pair)) == encode_tags(m_old) + encode_tag(pair));
        } else {
            assert(tags_missing(default_tags@.take(i + 1), own) == m_old);
        }
        i = i + 1;
    }
    assert(default_tags@.take(n as int) =~= default_tags@);
    proof {
        lemma_encode_tags_append(own, tags_missing(default_tags@, own));
    }
    assert(buf@ =~= start + name_and_tags(name@, default_tags@, own));
}

/// Writing two tag lists one after the other writes their concatenation.
pub proof fn lemma_encode_tags_append(a: TagSeq, b: TagSeq)
    ensures
        encode_tags(a + b) == encode_tags(a) + encode_tags(b),
    decreases b.len(),
{
    if b.len() == 0 {
        assert(a + b =~= a);
    } else {
        lemma_encode_tags_append(a, b.drop_last());
        assert((a + b).drop_last() =~= a + b.drop_last());
    }
}

/// The character of the digit `d`.
fn digit(d: u64) -> (c: char)
    requires
        d < 10,
    ensures
        c == digit_char(d as nat),
{
    if d == 0 {
        '0'
    } else if d == 1 {
        '1'
    } else if d == 2 {
        '2'
    } else if d == 3 {
        '3'
    } else if d == 4 {
        '4'
    } else if d == 5 {
        '5'
    } else if d == 6 {
        '6'
    } else if d == 7 {
        '7'
    } else if d == 8 {
        '8'
    } else {
        '9'
    }
}

/// Writes `n` in decimal.
pub fn write_u64(buf: &mut String, n: u64)
    ensures
        final(buf)@ == old(buf)@ + decimal(n as nat),
    decreases n,
{
    let ghost start = buf@;
    if n >= 10 {
        write_u64(buf, n / 10);
    }
    push_char(buf, digit(n % 10));
    assert(buf@ =~= start + decimal(n as nat));
}

/// Writes `n` in decimal, with a `-` before a negative number.
pub fn write_i64(buf: &mut String, n: i64)
    ensures
        final(buf)@ == old(buf)@ + signed_decimal(n as int),
{
    let ghost start = buf@;
    if n < 0 {
        push_char(buf, '-');
        let magnitude: u64 = if n == i64::MIN {
            9223372036854775808u64
        } else {
            (-n) as u64
        };
        write_u64(buf, magnitude);
        assert(buf@ =~= start + signed_decimal(n as int));
    } else {
        write_u64(buf, n as u64);
    }
}

} // verus!
