//! Reading escaped text back, and the laws that make the written lines readable: escaping can be
//! undone, and escaped text never holds a bare separator.
use vstd::prelude::*;
use crate::client::{escaped_prefix, prefix_text, prefix_view};
use crate::types::{TagSeq, tags_missing, tags_overlay};
use crate::metrics::{Counter, Gauge, GaugeOperation, Histogram, Metric, Timing, TimingResolution, metric_tags, operation_text, resolution_text};
use crate::utils::{decimal, digit_char, encode_tag, encode_tags, name_and_tags, signed_decimal};
use crate::utils::{escape, escape_char, escape_tag_name, escape_value, tag_name_specials, value_specials};

verus! {

/// Reads escaped text back: a `\` stands for the character after it.
pub open spec fn unescape(s: Seq<char>) -> Seq<char>
    decreases s.len(),
{
    if s.len() == 0 {
        Seq::empty()
    } else if s[0] == '\\' && s.len() >= 2 {
        seq![s[1]] + unescape(s.subrange(2, s.len() as int))
    } else {
        seq![s[0]] + unescape(s.subrange(1, s.len() as int))
    }
}

/// Whether `c` occurs in `s` without a `\` before it, that is, as a separator for a reader that
/// takes a `\` and the character after it together.
pub open spec fn has_bare(s: Seq<char>, c: char) -> bool
    decreases s.len(),
{
    if s.len() == 0 {
        false
    } else if s[0] == '\\' && s.len() >= 2 {
        has_bare(s.subrange(2, s.len() as int), c)
    } else {
        s[0] == c || has_bare(s.subrange(1, s.len() as int), c)
    }
}

/// Escaping a text that starts with `c` writes `c` first.
pub proof fn lemma_escape_front(s: Seq<char>, specials: Set<char>)
    requires
        s.len() > 0,
    ensures
        escape(s, specials) == escape_char(s[0], specials) + escape(s.subrange(1, s.len() as int), specials),
    decreases s.len(),
{
    let rest = s.subrange(1, s.len() as int);
    if s.len() == 1 {
        assert(s.drop_last() =~= Seq::<char>::empty());
        assert(rest =~= Seq::<char>::empty());
        assert(escape(s, specials) =~= escape_char(s[0], specials));
    } else {
        let t = s.drop_last();
        lemma_escape_front(t, specials);
        assert(t.subrange(1, t.len() as int) =~= rest.drop_last());
        assert(rest.last() == s.last());
        assert(escape(s, specials) =~= escape_char(s[0], specials) + escape(rest, specials));
    }
}

/// Reading back an escaped text gives the text, when `\` is among the escaped characters.
pub proof fn lemma_unescape_escape(s: Seq<char>, specials: Set<char>)
    requires
        specials.contains('\\'),
    ensures
        unescape(escape(s, specials)) == s,
    decreases s.len(),
{
    if s.len() > 0 {
        let rest = s.subrange(1, s.len() as int);
        let e = escape(s, specials);
        let er = escape(rest, specials);
        lemma_escape_front(s, specials);
        lemma_unescape_escape(rest, specials);
        if specials.contains(s[0]) {
            assert(e.subrange(2, e.len() as int) =~= er);
        } else {
            assert(e.subrange(1, e.len() as int) =~= er);
        }
        assert(unescape(e) =~= s);
    }
}

/// An escaped text holds no special character bare, nor any character that the text lacks, when
/// `\` is among the escaped characters.
pub proof fn lemma_escape_no_bare(s: Seq<char>, specials: Set<char>, c: char)
    requires
        specials.contains('\\'),
        specials.contains(c) || !s.contains(c),
    ensures
        !has_bare(escape(s, specials), c),
    decreases s.len(),
{
    if s.len() > 0 {
        let rest = s.subrange(1, s.len() as int);
        let e = escape(s, specials);
        let er = escape(rest, specials);
        lemma_escape_front(s, specials);
        if !specials.contains(c) {
            assert forall|i: int| 0 <= i < rest.len() implies rest[i] != c by {
                assert(s[i + 1] == rest[i]);
            }
            assert(s[0] != c);
        }
        lemma_escape_no_bare(rest, specials, c);
        if specials.contains(s[0]) {
            assert(e.subrange(2, e.len() as int) =~= er);
        } else {
            assert(e.subrange(1, e.len() as int) =~= er);
        }
    }
}

/// Names, tag values and prefixes are written so that a reader finds them intact: reading back
/// the escaped text gives the text itself, and neither `|` nor `;` occurs in it bare.
pub proof fn law_value_escaping(s: Seq<char>)
    ensures
        unescape(escape_value(s)) == s,
        !has_bare(escape_value(s), '|'),
        !has_bare(escape_value(s), ';'),
{
    lemma_unescape_escape(s, value_specials());
    lemma_escape_no_bare(s, value_specials(), '|');
    lemma_escape_no_bare(s, value_specials(), ';');
}

/// Tag names are written so that a reader finds them intact: reading back the escaped text gives
/// the text itself, and `=` does not occur in it bare.
pub proof fn law_tag_name_escaping(s: Seq<char>)
    ensures
        unescape(escape_tag_name(s)) == s,
        !has_bare(escape_tag_name(s), '='),
{
    lemma_unescape_escape(s, tag_name_specials());
    lemma_escape_no_bare(s, tag_name_specials(), '=');
}

/// Escaping loses nothing: two different texts are never written the same.
pub proof fn law_escaping_is_injective(a: Seq<char>, b: Seq<char>)
    ensures
        escape_value(a) == escape_value(b) ==> a == b,
        escape_tag_name(a) == escape_tag_name(b) ==> a == b,
{
    law_value_escaping(a);
    law_value_escaping(b);
    law_tag_name_escaping(a);
    law_tag_name_escaping(b);
}

/// With no tags of its own in front, the default tags are written unchanged: sending with an
/// empty tag list writes what a plain send writes.
pub proof fn law_overlay_of_nothing(base: TagSeq)
    ensures
        tags_overlay(Seq::empty(), base) == base,
    decreases base.len(),
{
    let e: TagSeq = Seq::empty();
    if base.len() > 0 {
        law_overlay_of_nothing(base.drop_last());
        assert(tags_missing(base.drop_last(), e) =~= base.drop_last());
        assert(tags_missing(base, e) =~= base);
    }
    assert(tags_overlay(e, base) =~= base);
}


/// Whether the `\` escapes of `s` are all complete: no `\` stands last without a character to
/// escape.
pub open spec fn whole_tokens(s: Seq<char>) -> bool
    decreases s.len(),
{
    if s.len() == 0 {
        true
    } else if s[0] == '\\' {
        s.len() >= 2 && whole_tokens(s.subrange(2, s.len() as int))
    } else {
        whole_tokens(s.subrange(1, s.len() as int))
    }
}

/// The pieces of `s` between its bare occurrences of `sep`, as a reader splits a line.
pub open spec fn split_bare(s: Seq<char>, sep: char) -> Seq<Seq<char>>
    decreases s.len(),
{
    if s.len() == 0 {
        seq![Seq::empty()]
    } else if s[0] == '\\' && s.len() >= 2 {
        let rest = split_bare(s.subrange(2, s.len() as int), sep);
        rest.update(0, s.subrange(0, 2) + rest[0])
    } else if s[0] == sep {
        seq![Seq::<char>::empty()] + split_bare(s.subrange(1, s.len() as int), sep)
    } else {
        let rest = split_bare(s.subrange(1, s.len() as int), sep);
        rest.update(0, seq![s[0]] + rest[0])
    }
}

/// The pieces joined with `sep` between them.
pub open spec fn join(parts: Seq<Seq<char>>, sep: char) -> Seq<char>
    decreases parts.len(),
{
    if parts.len() == 0 {
        Seq::empty()
    } else if parts.len() == 1 {
        parts[0]
    } else {
        parts[0] + seq![sep] + join(parts.subrange(1, parts.len() as int), sep)
    }
}

/// A reader always finds at least one piece.
pub proof fn lemma_split_nonempty(s: Seq<char>, sep: char)
    ensures
        split_bare(s, sep).len() >= 1,
    decreases s.len(),
{
    if s.len() > 0 {
        if s[0] == '\\' && s.len() >= 2 {
            lemma_split_nonempty(s.subrange(2, s.len() as int), sep);
        } else if s[0] != sep {
            lemma_split_nonempty(s.subrange(1, s.len() as int), sep);
        }
    }
}

/// A text without bare `sep` and with whole escapes, put before `b`, only lengthens the first
/// piece of `b`.
pub proof fn lemma_split_prepend(a: Seq<char>, b: Seq<char>, sep: char)
    requires
        whole_tokens(a),
        !has_bare(a, sep),
    ensures
        split_bare(a + b, sep) == split_bare(b, sep).update(0, a + split_bare(b, sep)[0]),
    decreases a.len(),
{
    lemma_split_nonempty(b, sep);
    let sb = split_bare(b, sep);
    if a.len() == 0 {
        assert(a + b =~= b);
        assert(sb.update(0, a + sb[0]) =~= sb);
    } else {
        let ab = a + b;
        if a[0] == '\\' {
            let a2 = a.subrange(2, a.len() as int);
            assert(ab.subrange(2, ab.len() as int) =~= a2 + b);
            lemma_split_prepend(a2, b, sep);
            assert(ab.subrange(0, 2) + (a2 + sb[0]) =~= a + sb[0]);
            assert(split_bare(ab, sep) =~= sb.update(0, a + sb[0]));
        } else {
            let a1 = a.subrange(1, a.len() as int);
            assert(ab.subrange(1, ab.len() as int) =~= a1 + b);
            lemma_split_prepend(a1, b, sep);
            assert(seq![a[0]] + (a1 + sb[0]) =~= a + sb[0]);
            assert(split_bare(ab, sep) =~= sb.update(0, a + sb[0]));
        }
    }
}

/// Pieces without bare `sep` and with whole escapes, joined with `sep`, are split back into the
/// same pieces.
pub proof fn lemma_split_join(parts: Seq<Seq<char>>, sep: char)
    requires
        parts.len() >= 1,
        sep != '\\',
        forall|i: int| 0 <= i < parts.len() ==> whole_tokens(#[trigger] parts[i]) && !has_bare(parts[i], sep),
    ensures
        split_bare(join(parts, sep), sep) == parts,
    decreases parts.len(),
{
    if parts.len() == 1 {
        let e = Seq::<char>::empty();
        assert(split_bare(e, sep) =~= seq![e]);
        lemma_split_prepend(parts[0], e, sep);
        assert(parts[0] + e =~= parts[0]);
        assert(split_bare(join(parts, sep), sep) =~= parts);
    } else {
        let rest = parts.subrange(1, parts.len() as int);
        let jr = join(rest, sep);
        assert forall|i: int| 0 <= i < rest.len() implies whole_tokens(#[trigger] rest[i]) && !has_bare(rest[i], sep) by {
            assert(rest[i] == parts[i + 1]);
        }
        lemma_split_join(rest, sep);
        let tail = seq![sep] + jr;
        assert(tail.subrange(1, tail.len() as int) =~= jr);
        assert(split_bare(tail, sep) =~= seq![Seq::<char>::empty()] + rest);
        lemma_split_prepend(parts[0], tail, sep);
        assert(parts[0] + seq![sep] + jr =~= parts[0] + tail);
        assert(split_bare(join(parts, sep), sep) =~= parts);
    }
}

/// Joining the pieces that a reader finds gives the text back.
pub proof fn lemma_join_split(s: Seq<char>, sep: char)
    requires
        sep != '\\',
    ensures
        join(split_bare(s, sep), sep) == s,
    decreases s.len(),
{
    if s.len() > 0 {
        if s[0] == '\\' && s.len() >= 2 {
            let r = s.subrange(2, s.len() as int);
            lemma_join_split(r, sep);
            lemma_split_nonempty(r, sep);
            lemma_join_first(split_bare(r, sep), s.subrange(0, 2), sep);
            assert(s.subrange(0, 2) + r =~= s);
        } else if s[0] == sep {
            let r = s.subrange(1, s.len() as int);
            lemma_join_split(r, sep);
            lemma_split_nonempty(r, sep);
            let parts = seq![Seq::<char>::empty()] + split_bare(r, sep);
            assert(parts.subrange(1, parts.len() as int) =~= split_bare(r, sep));
            assert(Seq::<char>::empty() + seq![sep] + r =~= s);
        } else {
            let r = s.subrange(1, s.len() as int);
            lemma_join_split(r, sep);
            lemma_split_nonempty(r, sep);
            lemma_join_first(split_bare(r, sep), seq![s[0]], sep);
            assert(seq![s[0]] + r =~= s);
        }
    }
}

/// Lengthening the first piece lengthens the joined text at its front.
pub proof fn lemma_join_first(parts: Seq<Seq<char>>, x: Seq<char>, sep: char)
    requires
        parts.len() >= 1,
    ensures
        join(parts.update(0, x + parts[0]), sep) == x + join(parts, sep),
{
    let p2 = parts.update(0, x + parts[0]);
    if parts.len() == 1 {
        assert(join(p2, sep) == x + parts[0]);
    } else {
        assert(p2.subrange(1, p2.len() as int) =~= parts.subrange(1, parts.len() as int));
        assert(join(p2, sep) =~= x + join(parts, sep));
    }
}

/// Joining one more piece appends a separator and the piece.
pub proof fn lemma_join_push(parts: Seq<Seq<char>>, x: Seq<char>, sep: char)
    requires
        parts.len() >= 1,
    ensures
        join(parts.push(x), sep) == join(parts, sep) + seq![sep] + x,
    decreases parts.len(),
{
    let p2 = parts.push(x);
    if parts.len() == 1 {
        assert(p2.subrange(1, p2.len() as int) =~= seq![x]);
        assert(join(seq![x], sep) == x);
        assert(p2[0] == parts[0]);
        assert(join(p2, sep) =~= join(parts, sep) + seq![sep] + x);
    } else {
        let rest = parts.subrange(1, parts.len() as int);
        lemma_join_push(rest, x, sep);
        assert(p2.subrange(1, p2.len() as int) =~= rest.push(x));
        assert(p2[0] == parts[0]);
        assert(join(p2, sep) == parts[0] + seq![sep] + join(rest.push(x), sep));
        assert(join(parts, sep) == parts[0] + seq![sep] + join(rest, sep));
        let jr = join(rest, sep);
        assert(join(rest.push(x), sep) == jr + seq![sep] + x);
        assert(parts[0] + seq![sep] + (jr + seq![sep] + x) =~= (parts[0] + seq![sep] + jr) + seq![sep] + x);
    }
}


/// Escaped text has whole escapes, when `\` is among the escaped characters.
pub proof fn lemma_escape_whole(s: Seq<char>, specials: Set<char>)
    requires
        specials.contains('\\'),
    ensures
        whole_tokens(escape(s, specials)),
    decreases s.len(),
{
    if s.len() > 0 {
        let rest = s.subrange(1, s.len() as int);
        let e = escape(s, specials);
        lemma_escape_front(s, specials);
        lemma_escape_whole(rest, specials);
        if specials.contains(s[0]) {
            assert(e.subrange(2, e.len() as int) =~= escape(rest, specials));
        } else {
            assert(e.subrange(1, e.len() as int) =~= escape(rest, specials));
        }
    }
}

/// Escaping two texts one after the other escapes their concatenation.
pub proof fn lemma_escape_append(a: Seq<char>, b: Seq<char>, specials: Set<char>)
    ensures
        escape(a + b, specials) == escape(a, specials) + escape(b, specials),
    decreases b.len(),
{
    if b.len() == 0 {
        assert(a + b =~= a);
        assert(escape(a, specials) + escape(b, specials) =~= escape(a, specials));
    } else {
        lemma_escape_append(a, b.drop_last(), specials);
        assert((a + b).drop_last() =~= a + b.drop_last());
        assert((a + b).last() == b.last());
        assert(escape(a + b, specials) =~= escape(a, specials) + escape(b, specials));
    }
}

/// A text without `\` has whole escapes, and holds bare exactly the characters it holds.
pub proof fn lemma_plain_text(s: Seq<char>, c: char)
    requires
        !s.contains('\\'),
    ensures
        whole_tokens(s),
        has_bare(s, c) == s.contains(c),
    decreases s.len(),
{
    if s.len() > 0 {
        let rest = s.subrange(1, s.len() as int);
        assert(s[0] != '\\');
        assert forall|i: int| 0 <= i < rest.len() implies rest[i] != '\\' by {
            assert(s[i + 1] == rest[i]);
        }
        lemma_plain_text(rest, c);
        if rest.contains(c) {
            let i = choose|i: int| 0 <= i < rest.len() && rest[i] == c;
            assert(s[i + 1] == c);
        }
        if s.contains(c) && s[0] != c {
            let i = choose|i: int| 0 <= i < s.len() && s[i] == c;
            assert(rest[i - 1] == c);
        }
    }
}

/// Reading on from a text with whole escapes: bare characters and whole escapes of the
/// concatenation are those of the two parts.
pub proof fn lemma_concat_tokens(a: Seq<char>, b: Seq<char>, c: char)
    requires
        whole_tokens(a),
    ensures
        whole_tokens(a + b) == whole_tokens(b),
        has_bare(a + b, c) == (has_bare(a, c) || has_bare(b, c)),
    decreases a.len(),
{
    if a.len() == 0 {
        assert(a + b =~= b);
    } else {
        let ab = a + b;
        if a[0] == '\\' {
            let a2 = a.subrange(2, a.len() as int);
            assert(ab.subrange(2, ab.len() as int) =~= a2 + b);
            lemma_concat_tokens(a2, b, c);
        } else {
            let a1 = a.subrange(1, a.len() as int);
            assert(ab.subrange(1, ab.len() as int) =~= a1 + b);
            lemma_concat_tokens(a1, b, c);
        }
    }
}


/// One tag as a reader finds it between `;` separators: `name=value`, escaped.
pub open spec fn tag_piece(p: (Seq<char>, Seq<char>)) -> Seq<char> {
    escape_tag_name(p.0) + seq!['='] + escape_value(p.1)
}

/// A tag read back from its piece: the name before the first bare `=`, the value after it.
pub open spec fn read_tag(piece: Seq<char>) -> (Seq<char>, Seq<char>) {
    let parts = split_bare(piece, '=');
    (unescape(parts[0]), unescape(join(parts.subrange(1, parts.len() as int), '=')))
}

/// The pieces of a line's head (its text before the first bare `|`) between bare `;`.
pub open spec fn read_head(line: Seq<char>) -> Seq<Seq<char>> {
    split_bare(split_bare(line, '|')[0], ';')
}

/// The metric name that a reader finds in a line.
pub open spec fn read_name(line: Seq<char>) -> Seq<char> {
    unescape(read_head(line)[0])
}

/// The tags that a reader finds in a line, in order.
pub open spec fn read_tags(line: Seq<char>) -> TagSeq {
    let head = read_head(line);
    head.subrange(1, head.len() as int).map_values(|p: Seq<char>| read_tag(p))
}

/// The fields that a reader finds in a line after its head, between bare `|`.
pub open spec fn read_fields(line: Seq<char>) -> Seq<Seq<char>> {
    let f = split_bare(line, '|');
    f.subrange(1, f.len() as int)
}

/// No tag name holds `|` or `;`: tag names are written with only `\` and `=` escaped, so these
/// two would be read as separators.
pub open spec fn plain_tag_names(t: TagSeq) -> bool {
    forall|i: int| 0 <= i < t.len() ==> !(#[trigger] t[i].0).contains('|') && !t[i].0.contains(';')
}

/// A field of plain text: no `\` and no `|`.
pub open spec fn plain_field(f: Seq<char>) -> bool {
    !f.contains('\\') && !f.contains('|')
}

/// A tag written as a piece reads back as the tag.
pub proof fn lemma_read_tag(p: (Seq<char>, Seq<char>))
    ensures
        read_tag(tag_piece(p)) == p,
{
    let k = escape_tag_name(p.0);
    let v = escape_value(p.1);
    let rest = seq!['='] + v;
    law_tag_name_escaping(p.0);
    law_value_escaping(p.1);
    lemma_escape_whole(p.0, tag_name_specials());
    lemma_split_prepend(k, rest, '=');
    assert(rest.subrange(1, rest.len() as int) =~= v);
    lemma_split_nonempty(v, '=');
    let sv = split_bare(v, '=');
    assert(split_bare(rest, '=') =~= seq![Seq::<char>::empty()] + sv);
    assert(k + rest =~= tag_piece(p));
    let parts = split_bare(tag_piece(p), '=');
    assert(parts[0] =~= k);
    assert(parts.subrange(1, parts.len() as int) =~= sv);
    lemma_join_split(v, '=');
}

/// A tag piece has whole escapes, and holds no bare `|` or `;` when its name lacks them.
pub proof fn lemma_tag_piece_tokens(p: (Seq<char>, Seq<char>), c: char)
    requires
        c == '|' || c == ';',
        !p.0.contains(c),
    ensures
        whole_tokens(tag_piece(p)),
        !has_bare(tag_piece(p), c),
{
    let k = escape_tag_name(p.0);
    let v = escape_value(p.1);
    let eq = seq!['='];
    lemma_escape_whole(p.0, tag_name_specials());
    lemma_escape_whole(p.1, value_specials());
    lemma_escape_no_bare(p.0, tag_name_specials(), c);
    lemma_escape_no_bare(p.1, value_specials(), c);
    assert(!eq.contains('\\')) by {
        assert(eq[0] == '=');
    }
    assert(!eq.contains(c)) by {
        assert(eq[0] == '=');
    }
    lemma_plain_text(eq, c);
    lemma_concat_tokens(eq, v, c);
    lemma_concat_tokens(k, eq + v, c);
    assert(k + (eq + v) =~= tag_piece(p));
}

/// A head followed by tags is the head and the tag pieces joined with `;`.
pub proof fn lemma_head_join(first: Seq<char>, t: TagSeq)
    ensures
        first + encode_tags(t) == join(seq![first] + t.map_values(|p: (Seq<char>, Seq<char>)| tag_piece(p)), ';'),
    decreases t.len(),
{
    let pieces = t.map_values(|p: (Seq<char>, Seq<char>)| tag_piece(p));
    if t.len() == 0 {
        assert(seq![first] + pieces =~= seq![first]);
        assert(first + encode_tags(t) =~= first);
    } else {
        let t2 = t.drop_last();
        let pieces2 = t2.map_values(|p: (Seq<char>, Seq<char>)| tag_piece(p));
        lemma_head_join(first, t2);
        assert(seq![first] + pieces =~= (seq![first] + pieces2).push(tag_piece(t.last())));
        lemma_join_push(seq![first] + pieces2, tag_piece(t.last()), ';');
        assert(encode_tag(t.last()) =~= seq![';'] + tag_piece(t.last()));
        assert(first + encode_tags(t) =~= (first + encode_tags(t2)) + seq![';'] + tag_piece(t.last()));
    }
}

/// The line of a metric, as a client writes it with an escaped prefix, reads back as the prefixed
/// name, the tags that the metric's own tags leave after overriding the defaults, and the
/// metric's fields; provided no tag name holds `|` or `;`.
pub proof fn lemma_line_reads_back(
    prefix: Seq<char>,
    name: Seq<char>,
    defaults: TagSeq,
    own: TagSeq,
    fields: Seq<Seq<char>>,
)
    requires
        plain_tag_names(tags_overlay(own, defaults)),
        forall|i: int| 0 <= i < fields.len() ==> plain_field(#[trigger] fields[i]),
    ensures
        ({
            let line = join(seq![escape_value(prefix) + name_and_tags(name, defaults, own)] + fields, '|');
            &&& read_name(line) == prefix + name
            &&& read_tags(line) == tags_overlay(own, defaults)
            &&& read_fields(line) == fields
        }),
{
    let t = tags_overlay(own, defaults);
    let first = escape_value(prefix + name);
    let pieces = t.map_values(|p: (Seq<char>, Seq<char>)| tag_piece(p));
    let head_parts = seq![first] + pieces;
    lemma_escape_append(prefix, name, value_specials());
    let head = escape_value(prefix) + name_and_tags(name, defaults, own);
    assert(head =~= first + encode_tags(t));
    lemma_head_join(first, t);
    // the head splits at `;` into the escaped name and the tag pieces
    lemma_escape_whole(prefix + name, value_specials());
    law_value_escaping(prefix + name);
    assert forall|i: int| 0 <= i < head_parts.len() implies whole_tokens(#[trigger] head_parts[i]) && !has_bare(head_parts[i], ';') by {
        if i > 0 {
            assert(head_parts[i] == tag_piece(t[i - 1]));
            lemma_tag_piece_tokens(t[i - 1], ';');
        }
    }
    lemma_split_join(head_parts, ';');
    // the head has no bare `|`, so the line splits at `|` into the head and the fields
    assert forall|i: int| 0 <= i < head_parts.len() implies whole_tokens(#[trigger] head_parts[i]) && !has_bare(head_parts[i], '|') by {
        if i > 0 {
            assert(head_parts[i] == tag_piece(t[i - 1]));
            lemma_tag_piece_tokens(t[i - 1], '|');
        }
    }
    lemma_join_tokens(head_parts, ';', '|');
    let parts = seq![head] + fields;
    assert forall|i: int| 0 <= i < parts.len() implies whole_tokens(#[trigger] parts[i]) && !has_bare(parts[i], '|') by {
        if i > 0 {
            assert(parts[i] == fields[i - 1]);
            lemma_plain_text(fields[i - 1], '|');
        }
    }
    lemma_split_join(parts, '|');
    let line = join(parts, '|');
    assert(split_bare(line, '|')[0] == head);
    assert(read_head(line) == head_parts);
    assert(read_fields(line) =~= fields);
    assert(read_tags(line) =~= t) by {
        assert forall|i: int| 0 <= i < t.len() implies #[trigger] read_tags(line)[i] == t[i] by {
            assert(head_parts[i + 1] == tag_piece(t[i]));
            lemma_read_tag(t[i]);
        }
    }
}


/// Pieces with whole escapes and without bare `c`, joined with another separator, have whole
/// escapes and no bare `c`.
pub proof fn lemma_join_tokens(parts: Seq<Seq<char>>, sep: char, c: char)
    requires
        sep != '\\',
        sep != c,
        forall|i: int| 0 <= i < parts.len() ==> whole_tokens(#[trigger] parts[i]) && !has_bare(parts[i], c),
    ensures
        whole_tokens(join(parts, sep)),
        !has_bare(join(parts, sep), c),
    decreases parts.len(),
{
    if parts.len() == 0 {
    } else if parts.len() == 1 {
        assert(whole_tokens(parts[0]));
    } else {
        let rest = parts.subrange(1, parts.len() as int);
        assert forall|i: int| 0 <= i < rest.len() implies whole_tokens(#[trigger] rest[i]) && !has_bare(rest[i], c) by {
            assert(rest[i] == parts[i + 1]);
        }
        lemma_join_tokens(rest, sep, c);
        let jr = join(rest, sep);
        let s1 = seq![sep];
        assert(!s1.contains('\\') && !s1.contains(c)) by {
            assert(s1[0] == sep);
        }
        lemma_plain_text(s1, c);
        lemma_concat_tokens(s1, jr, c);
        assert(whole_tokens(parts[0]) && !has_bare(parts[0], c));
        lemma_concat_tokens(parts[0], s1 + jr, c);
        assert(parts[0] + (s1 + jr) =~= join(parts, sep));
    }
}


/// The value of a decimal digit character.
pub open spec fn digit_value(c: char) -> nat {
    if c == '1' {
        1
    } else if c == '2' {
        2
    } else if c == '3' {
        3
    } else if c == '4' {
        4
    } else if c == '5' {
        5
    } else if c == '6' {
        6
    } else if c == '7' {
        7
    } else if c == '8' {
        8
    } else if c == '9' {
        9
    } else {
        0
    }
}

/// The number that a reader finds in a decimal field.
pub open spec fn read_decimal(s: Seq<char>) -> nat
    decreases s.len(),
{
    if s.len() == 0 {
        0
    } else {
        read_decimal(s.drop_last()) * 10 + digit_value(s.last())
    }
}

/// Numbers are written so that a reader finds them back.
pub proof fn law_decimal_reads_back(n: nat)
    ensures
        read_decimal(decimal(n)) == n,
    decreases n,
{
    if n < 10 {
        let d = decimal(n);
        assert(d.drop_last() =~= Seq::<char>::empty());
        assert(digit_value(digit_char(n)) == n);
        assert(d.last() == digit_char(n));
        assert(read_decimal(Seq::<char>::empty()) == 0);
        assert(read_decimal(d) == read_decimal(d.drop_last()) * 10 + digit_value(d.last()));
    } else {
        law_decimal_reads_back(n / 10);
        let d = decimal(n);
        assert(d.drop_last() =~= decimal(n / 10));
        assert(digit_value(digit_char(n % 10)) == n % 10);
        assert(d.last() == digit_char(n % 10));
        assert(read_decimal(d) == read_decimal(decimal(n / 10)) * 10 + n % 10);
        assert(n == (n / 10) * 10 + n % 10) by (nonlinear_arith);
    }
}

/// Numbers are written as plain fields.
pub proof fn lemma_decimal_plain(n: nat)
    ensures
        plain_field(decimal(n)),
    decreases n,
{
    let d = decimal(n);
    if n < 10 {
        assert(d[0] == digit_char(n));
    } else {
        lemma_decimal_plain(n / 10);
        let front = decimal(n / 10);
        assert forall|i: int| 0 <= i < d.len() implies d[i] != '\\' && d[i] != '|' by {
            if i < front.len() {
                assert(d[i] == front[i]);
            } else {
                assert(d[i] == digit_char(n % 10));
            }
        }
    }
}

/// Signed numbers are written as plain fields.
pub proof fn lemma_signed_decimal_plain(n: int)
    ensures
        plain_field(signed_decimal(n)),
{
    if n < 0 {
        let m = (-n) as nat;
        lemma_decimal_plain(m);
        let d = signed_decimal(n);
        assert forall|i: int| 0 <= i < d.len() implies d[i] != '\\' && d[i] != '|' by {
            if i > 0 {
                assert(d[i] == decimal(m)[i - 1]);
            }
        }
    } else {
        lemma_decimal_plain(n as nat);
    }
}

/// The pieces of a line head and fields joined with `|`.
pub proof fn lemma_join_fields(head: Seq<char>, fields: Seq<Seq<char>>)
    requires
        fields.len() >= 1,
    ensures
        join(seq![head] + fields, '|') == head + seq!['|'] + join(fields, '|'),
{
    let parts = seq![head] + fields;
    assert(parts.subrange(1, parts.len() as int) =~= fields);
}

/// The joined text of two fields.
pub proof fn lemma_join_two(a: Seq<char>, b: Seq<char>, sep: char)
    ensures
        join(seq![a, b], sep) == a + seq![sep] + b,
{
    let parts = seq![a, b];
    assert(parts.subrange(1, 2) =~= seq![b]);
    assert(join(seq![b], sep) == b);
}

/// The joined text of three fields.
pub proof fn lemma_join_three(a: Seq<char>, b: Seq<char>, c: Seq<char>, sep: char)
    ensures
        join(seq![a, b, c], sep) == a + seq![sep] + b + seq![sep] + c,
{
    let parts = seq![a, b, c];
    assert(parts.subrange(1, 3) =~= seq![b, c]);
    lemma_join_two(b, c, sep);
    assert(join(parts, sep) =~= a + seq![sep] + b + seq![sep] + c);
}

/// A line of one letter is a plain field.
pub proof fn lemma_letter_plain(c: char)
    requires
        c != '\\' && c != '|',
    ensures
        plain_field(seq![c]),
{
    assert(seq![c][0] == c);
}

/// A counter's line reads back as its prefixed name, its tags over the defaults, the kind `c`
/// and its count; provided no tag name holds `|` or `;`.
pub proof fn law_counter_line(prefix: Seq<char>, m: Counter, defaults: TagSeq)
    requires
        plain_tag_names(tags_overlay(metric_tags(m.tags), defaults)),
    ensures
        ({
            let line = escape_value(prefix) + m.encoded(defaults);
            &&& read_name(line) == prefix + m.name@
            &&& read_tags(line) == tags_overlay(metric_tags(m.tags), defaults)
            &&& read_fields(line) == seq![seq!['c'], decimal(m.count as nat)]
            &&& read_decimal(read_fields(line)[1]) == m.count
        }),
{
    let head = name_and_tags(m.name@, defaults, metric_tags(m.tags));
    let fields = seq![seq!['c'], decimal(m.count as nat)];
    lemma_letter_plain('c');
    lemma_decimal_plain(m.count as nat);
    law_decimal_reads_back(m.count as nat);
    assert forall|i: int| 0 <= i < fields.len() implies plain_field(#[trigger] fields[i]) by {}
    lemma_line_reads_back(prefix, m.name@, defaults, metric_tags(m.tags), fields);
    lemma_join_fields(escape_value(prefix) + head, fields);
    lemma_join_two(seq!['c'], decimal(m.count as nat), '|');
    assert(escape_value(prefix) + m.encoded(defaults) =~= join(seq![escape_value(prefix) + head] + fields, '|'));
}

/// A histogram's line reads back as its prefixed name, its tags over the defaults, the kind `h`
/// and its count; provided no tag name holds `|` or `;`.
pub proof fn law_histogram_line(prefix: Seq<char>, m: Histogram, defaults: TagSeq)
    requires
        plain_tag_names(tags_overlay(metric_tags(m.tags), defaults)),
    ensures
        ({
            let line = escape_value(prefix) + m.encoded(defaults);
            &&& read_name(line) == prefix + m.name@
            &&& read_tags(line) == tags_overlay(metric_tags(m.tags), defaults)
            &&& read_fields(line) == seq![seq!['h'], decimal(m.count as nat)]
            &&& read_decimal(read_fields(line)[1]) == m.count
        }),
{
    let head = name_and_tags(m.name@, defaults, metric_tags(m.tags));
    let fields = seq![seq!['h'], decimal(m.count as nat)];
    lemma_letter_plain('h');
    lemma_decimal_plain(m.count as nat);
    law_decimal_reads_back(m.count as nat);
    assert forall|i: int| 0 <= i < fields.len() implies plain_field(#[trigger] fields[i]) by {}
    lemma_line_reads_back(prefix, m.name@, defaults, metric_tags(m.tags), fields);
    lemma_join_fields(escape_value(prefix) + head, fields);
    lemma_join_two(seq!['h'], decimal(m.count as nat), '|');
    assert(escape_value(prefix) + m.encoded(defaults) =~= join(seq![escape_value(prefix) + head] + fields, '|'));
}

/// A gauge's line reads back as its prefixed name, its tags over the defaults, the kind `g` and
/// its operation; provided no tag name holds `|` or `;`.
pub proof fn law_gauge_line(prefix: Seq<char>, m: Gauge, defaults: TagSeq)
    requires
        plain_tag_names(tags_overlay(metric_tags(m.tags), defaults)),
    ensures
        ({
            let line = escape_value(prefix) + m.encoded(defaults);
            &&& read_name(line) == prefix + m.name@
            &&& read_tags(line) == tags_overlay(metric_tags(m.tags), defaults)
            &&& read_fields(line) == seq![seq!['g'], operation_text(m.operation)]
            &&& read_gauge_operation(read_fields(line)[1]) == operation_meaning(m.operation)
        }),
{
    let head = name_and_tags(m.name@, defaults, metric_tags(m.tags));
    let op = operation_text(m.operation);
    let fields = seq![seq!['g'], op];
    lemma_letter_plain('g');
    assert(plain_field(op)) by {
        match m.operation {
            GaugeOperation::SetTo(v) => lemma_signed_decimal_plain(v as int),
            GaugeOperation::Remove => lemma_letter_plain('x'),
            GaugeOperation::Increment(v) => {
                lemma_signed_decimal_plain(v as int);
                let d = signed_decimal(v as int);
                assert forall|i: int| 0 <= i < op.len() implies op[i] != '\\' && op[i] != '|' by {
                    if i >= 2 {
                        assert(op[i] == d[i - 2]);
                    }
                }
            },
            GaugeOperation::Decrement(v) => {
                lemma_signed_decimal_plain(v as int);
                let d = signed_decimal(v as int);
                assert forall|i: int| 0 <= i < op.len() implies op[i] != '\\' && op[i] != '|' by {
                    if i >= 2 {
                        assert(op[i] == d[i - 2]);
                    }
                }
            },
        }
    }
    assert forall|i: int| 0 <= i < fields.len() implies plain_field(#[trigger] fields[i]) by {}
    lemma_line_reads_back(prefix, m.name@, defaults, metric_tags(m.tags), fields);
    law_gauge_operation_reads_back(m.operation);
    lemma_join_fields(escape_value(prefix) + head, fields);
    lemma_join_two(seq!['g'], op, '|');
    assert(escape_value(prefix) + m.encoded(defaults) =~= join(seq![escape_value(prefix) + head] + fields, '|'));
}

/// A timing's line reads back as its prefixed name, its tags over the defaults, the kind `t`, its
/// duration and its resolution; provided no tag name holds `|` or `;`.
pub proof fn law_timing_line(prefix: Seq<char>, m: Timing, defaults: TagSeq)
    requires
        plain_tag_names(tags_overlay(metric_tags(m.tags), defaults)),
    ensures
        ({
            let line = escape_value(prefix) + m.encoded(defaults);
            &&& read_name(line) == prefix + m.name@
            &&& read_tags(line) == tags_overlay(metric_tags(m.tags), defaults)
            &&& read_fields(line) == seq![seq!['t'], decimal(m.duration as nat), resolution_text(m.resolution)]
            &&& read_decimal(read_fields(line)[1]) == m.duration
        }),
{
    let head = name_and_tags(m.name@, defaults, metric_tags(m.tags));
    let res = resolution_text(m.resolution);
    let fields = seq![seq!['t'], decimal(m.duration as nat), res];
    lemma_letter_plain('t');
    lemma_decimal_plain(m.duration as nat);
    law_decimal_reads_back(m.duration as nat);
    assert(plain_field(res)) by {
        assert forall|i: int| 0 <= i < res.len() implies res[i] != '\\' && res[i] != '|' by {
            match m.resolution {
                TimingResolution::Seconds => {},
                TimingResolution::MilliSeconds => {},
                TimingResolution::MicroSeconds => {},
                TimingResolution::NanoSeconds => {},
            }
        }
    }
    assert forall|i: int| 0 <= i < fields.len() implies plain_field(#[trigger] fields[i]) by {}
    lemma_line_reads_back(prefix, m.name@, defaults, metric_tags(m.tags), fields);
    lemma_join_fields(escape_value(prefix) + head, fields);
    lemma_join_three(seq!['t'], decimal(m.duration as nat), res, '|');
    assert(escape_value(prefix) + m.encoded(defaults) =~= join(seq![escape_value(prefix) + head] + fields, '|'));
}


/// The number that a reader finds in a signed decimal field: a leading `-` makes it negative.
pub open spec fn read_signed(s: Seq<char>) -> int {
    if s.len() > 0 && s[0] == '-' {
        -(read_decimal(s.subrange(1, s.len() as int)) as int)
    } else {
        read_decimal(s) as int
    }
}

/// What a gauge operation asks of the server: the kind (`=` to set, `x` to remove, `+` to add,
/// `-` to subtract) and the amount.
pub open spec fn operation_meaning(op: GaugeOperation) -> (char, int) {
    match op {
        GaugeOperation::SetTo(v) => ('=', v as int),
        GaugeOperation::Remove => ('x', 0),
        GaugeOperation::Increment(v) => ('+', v as int),
        GaugeOperation::Decrement(v) => ('-', v as int),
    }
}

/// What a reader finds in the field after `|g|`: `x` removes; `+=` and `-=` before a number add
/// and subtract it; a number alone sets the gauge to it.
pub open spec fn read_gauge_operation(s: Seq<char>) -> (char, int) {
    if s =~= seq!['x'] {
        ('x', 0)
    } else if s.len() >= 2 && s[0] == '+' && s[1] == '=' {
        ('+', read_signed(s.subrange(2, s.len() as int)))
    } else if s.len() >= 2 && s[0] == '-' && s[1] == '=' {
        ('-', read_signed(s.subrange(2, s.len() as int)))
    } else {
        ('=', read_signed(s))
    }
}

/// A number in decimal starts with a digit: never with a sign, `=` or `x`.
pub proof fn lemma_decimal_starts_with_digit(n: nat)
    ensures
        decimal(n).len() >= 1,
        decimal(n)[0] != '-' && decimal(n)[0] != '+' && decimal(n)[0] != '=' && decimal(n)[0] != 'x',
    decreases n,
{
    if n >= 10 {
        lemma_decimal_starts_with_digit(n / 10);
        assert(decimal(n)[0] == decimal(n / 10)[0]);
    }
}

/// Signed numbers are written so that a reader finds them back.
pub proof fn law_signed_decimal_reads_back(v: int)
    ensures
        read_signed(signed_decimal(v)) == v,
{
    if v < 0 {
        let m = (-v) as nat;
        law_decimal_reads_back(m);
        let s = signed_decimal(v);
        assert(s.subrange(1, s.len() as int) =~= decimal(m));
    } else {
        law_decimal_reads_back(v as nat);
        lemma_decimal_starts_with_digit(v as nat);
    }
}

/// Every gauge operation is written so that a reader finds back its kind and its amount: a set
/// is never read as a removal or a step, and a step never as a set.
pub proof fn law_gauge_operation_reads_back(op: GaugeOperation)
    ensures
        read_gauge_operation(operation_text(op)) == operation_meaning(op),
{
    match op {
        GaugeOperation::SetTo(v) => {
            let s = signed_decimal(v as int);
            law_signed_decimal_reads_back(v as int);
            if v < 0 {
                lemma_decimal_starts_with_digit((-v) as nat);
                assert(s[1] == decimal((-v) as nat)[0]);
                assert(s.len() >= 2);
            } else {
                lemma_decimal_starts_with_digit(v as nat);
            }
            assert(!(s =~= seq!['x'])) by {
                if s =~= seq!['x'] {
                    assert(s[0] == 'x');
                }
            }
        },
        GaugeOperation::Remove => {},
        GaugeOperation::Increment(v) => {
            let s = operation_text(op);
            law_signed_decimal_reads_back(v as int);
            assert(s.subrange(2, s.len() as int) =~= signed_decimal(v as int));
            assert(!(s =~= seq!['x'])) by {
                if s =~= seq!['x'] {
                    assert(s[0] == 'x');
                }
            }
        },
        GaugeOperation::Decrement(v) => {
            let s = operation_text(op);
            law_signed_decimal_reads_back(v as int);
            assert(s.subrange(2, s.len() as int) =~= signed_decimal(v as int));
            assert(!(s =~= seq!['x'])) by {
                if s =~= seq!['x'] {
                    assert(s[0] == 'x');
                }
            }
        },
    }
}

/// A built client keeps the prefix it was given: what it writes before each line is the escaped
/// prefix (nothing when no prefix was given), which a reader finds back whole and free of
/// separators.
pub proof fn law_build_keeps_prefix(given: Option<String>, held: Option<String>)
    requires
        prefix_view(held) == escaped_prefix(given),
    ensures
        held is Some == given is Some,
        prefix_text(held) == escape_value(prefix_text(given)),
        unescape(prefix_text(held)) == prefix_text(given),
        !has_bare(prefix_text(held), '|') && !has_bare(prefix_text(held), ';'),
{
    law_value_escaping(prefix_text(given));
    if given is None {
        assert(escape_value(Seq::<char>::empty()) == Seq::<char>::empty());
    }
}

} // verus!
