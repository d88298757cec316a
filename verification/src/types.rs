//! Metric tags: an ordered list of `name=value` pairs in which no name occurs twice.
use vstd::prelude::*;

verus! {

/// The mathematical model of a tag list: `(name, value)` pairs in the order they are written.
pub type TagSeq = Seq<(Seq<char>, Seq<char>)>;

/// `s` has an entry named `k`.
pub open spec fn has_key(s: TagSeq, k: Seq<char>) -> bool {
    exists|i: int| 0 <= i < s.len() && #[trigger] s[i].0 == k
}

/// No name occurs twice in `s`.
pub open spec fn distinct_keys(s: TagSeq) -> bool {
    forall|i: int, j: int| 0 <= i < s.len() && 0 <= j < s.len() && i != j ==> #[trigger] s[i].0 != #[trigger] s[j].0
}

/// The tag list after setting `k` to `v`: an entry named `k` keeps its place and takes the new
/// value; otherwise the pair is appended.
pub open spec fn tags_insert(s: TagSeq, k: Seq<char>, v: Seq<char>) -> TagSeq {
    if has_key(s, k) {
        s.map_values(|p: (Seq<char>, Seq<char>)| if p.0 == k { (k, v) } else { p })
    } else {
        s.push((k, v))
    }
}

/// The tag list after setting every pair of `b`, in order, on `a`.
pub open spec fn tags_extend(a: TagSeq, b: TagSeq) -> TagSeq
    decreases b.len(),
{
    if b.len() == 0 {
        a
    } else {
        let rest = tags_extend(a, b.drop_last());
        tags_insert(rest, b.last().0, b.last().1)
    }
}

/// The pairs of `base` whose name does not occur in `top`, in the order of `base`.
pub open spec fn tags_missing(base: TagSeq, top: TagSeq) -> TagSeq
    decreases base.len(),
{
    if base.len() == 0 {
        Seq::empty()
    } else if has_key(top, base.last().0) {
        tags_missing(base.drop_last(), top)
    } else {
        tags_missing(base.drop_last(), top).push(base.last())
    }
}

/// The tags of `top`, followed by those of `base` that `top` does not override.
pub open spec fn tags_overlay(top: TagSeq, base: TagSeq) -> TagSeq {
    top + tags_missing(base, top)
}

/// The name-to-value map that a tag list stands for (a later pair wins over an earlier one).
pub open spec fn tags_map(s: TagSeq) -> Map<Seq<char>, Seq<char>>
    decreases s.len(),
{
    if s.len() == 0 {
        Map::empty()
    } else {
        tags_map(s.drop_last()).insert(s.last().0, s.last().1)
    }
}

/// Metric tags, kept in the order in which they were first set.
pub struct Tags {
    entries: Vec<(String, String)>,
}

impl View for Tags {
    type V = TagSeq;

    closed spec fn view(&self) -> TagSeq {
        self.entries@.map_values(|p: (String, String)| (p.0@, p.1@))
    }
}

impl Tags {
    #[verifier::type_invariant]
    closed spec fn names_distinct(self) -> bool {
        distinct_keys(self@)
    }

    /// Creates an empty tag list.
    pub fn new() -> (t: Tags)
        ensures
            t@ == Seq::<(Seq<char>, Seq<char>)>::empty(),
    {
        let t = Tags { entries: Vec::new() };
        assert(t@ =~= Seq::<(Seq<char>, Seq<char>)>::empty());
        t
    }

    /// The number of tags; no name occurs twice.
    pub fn len(&self) -> (n: usize)
        ensures
            n == self@.len(),
            distinct_keys(self@),
    {
        proof {
            use_type_invariant(self);
        }
        self.entries.len()
    }

    /// Whether there are no tags.
    pub fn is_empty(&self) -> (b: bool)
        ensures
            b == (self@.len() == 0),
    {
        self.entries.len() == 0
    }

    /// The name of the `i`-th tag.
    pub fn key(&self, i: usize) -> (k: &String)
        requires
            i < self@.len(),
        ensures
            k@ == self@[i as int].0,
    {
        &self.entries[i].0
    }

    /// The value of the `i`-th tag.
    pub fn value(&self, i: usize) -> (v: &String)
        requires
            i < self@.len(),
        ensures
            v@ == self@[i as int].1,
    {
        &self.entries[i].1
    }

    /// The position of the tag named `key`, if there is one.
    fn position(&self, key: &str) -> (r: Option<usize>)
        ensures
            r matches Some(i) ==> i < self@.len() && self@[i as int].0 == key@,
            r is None ==> !has_key(self@, key@),
    {
        let k = key.to_owned();
        let n = self.entries.len();
        let mut i: usize = 0;
        while i < n
            invariant
                n == self@.len(),
                k@ == key@,
                i <= n,
                forall|j: int| 0 <= j < i ==> #[trigger] self@[j].0 != key@,
            decreases n - i,
        {
            if self.entries[i].0 == k {
                return Some(i);
            }
            i = i + 1;
        }
        None
    }

    /// Whether a tag named `key` is present.
    pub fn contains_key(&self, key: &str) -> (b: bool)
        ensures
            b == has_key(self@, key@),
    {
        self.position(key).is_some()
    }

    /// The value of the tag named `key`, if there is one.
    pub fn get(&self, key: &str) -> (r: Option<&String>)
        ensures
            r is Some == has_key(self@, key@),
            r matches Some(v) ==> tags_map(self@).dom().contains(key@) && v@ == tags_map(self@)[key@],
    {
        proof {
            use_type_invariant(self);
        }
        match self.position(key) {
            Some(i) => {
                proof {
                    lemma_map_at(self@, i as int);
                }
                Some(&self.entries[i].1)
            },
            None => None,
        }
    }

    /// Sets the tag named `key` to `value`, and returns the value it had before, if any.
    pub fn insert(&mut self, key: String, value: String) -> (r: Option<String>)
        ensures
            final(self)@ == tags_insert(old(self)@, key@, value@),
            r is Some == has_key(old(self)@, key@),
            r matches Some(v) ==> v@ == tags_map(old(self)@)[key@],
    {
        proof {
            use_type_invariant(&*self);
        }
        let ghost s = self@;
        let ghost kv = key@;
        let ghost vv = value@;
        match self.position(key.as_str()) {
            Some(i) => {
                proof {
                    lemma_map_at(s, i as int);
                    lemma_insert_existing(s, i as int, key@, value@);
                }
                let previous = self.entries[i].1.clone();
                let mut entries = Vec::new();
                std::mem::swap(&mut entries, &mut self.entries);
                entries.set(i, (key, value));
                assert(entries@.map_values(|p: (String, String)| (p.0@, p.1@)) =~= s.update(i as int, (kv, vv)));
                self.entries = entries;
                assert(self@ =~= tags_insert(s, kv, vv));
                Some(previous)
            },
            None => {
                proof {
                    lemma_insert_preserves_distinct(s, key@, value@);
                }
                let mut entries = Vec::new();
                std::mem::swap(&mut entries, &mut self.entries);
                entries.push((key, value));
                assert(entries@.map_values(|p: (String, String)| (p.0@, p.1@)) =~= s.push((kv, vv)));
                self.entries = entries;
                assert(self@ =~= tags_insert(s, kv, vv));
                None
            },
        }
    }

    /// Sets every tag of `other` on `self`, in order.
    pub fn extend(&mut self, other: Tags)
        ensures
            final(self)@ == tags_extend(old(self)@, other@),
    {
        let ghost start = self@;
        let n = other.len();
        let mut i: usize = 0;
        while i < n
            invariant
                n == other@.len(),
                i <= n,
                self@ == tags_extend(start, other@.take(i as int)),
            decreases n - i,
        {
            assert(other@.take(i + 1).drop_last() =~= other@.take(i as int));
            let k = other.key(i).clone();
            let v = other.value(i).clone();
            self.insert(k, v);
            i = i + 1;
        }
        assert(other@.take(n as int) =~= other@);
    }
}

impl Default for Tags {
    fn default() -> (t: Tags)
        ensures
            t@ == Seq::<(Seq<char>, Seq<char>)>::empty(),
    {
        Tags::new()
    }
}

/// In a list without repeated names, the map holds the value of each listed pair.
pub proof fn lemma_map_at(s: TagSeq, i: int)
    requires
        distinct_keys(s),
        0 <= i < s.len(),
    ensures
        tags_map(s).dom().contains(s[i].0),
        tags_map(s)[s[i].0] == s[i].1,
    decreases s.len(),
{
    let t = s.drop_last();
    if i < s.len() - 1 {
        assert(t[i] == s[i]);
        assert(distinct_keys(t));
        lemma_map_at(t, i);
        assert(s[i].0 != s.last().0);
    }
}

/// The map of a list names exactly the names that occur in it.
pub proof fn lemma_map_dom(s: TagSeq, k: Seq<char>)
    ensures
        tags_map(s).dom().contains(k) == has_key(s, k),
    decreases s.len(),
{
    if s.len() > 0 {
        let t = s.drop_last();
        lemma_map_dom(t, k);
        if has_key(t, k) {
            let j = choose|j: int| 0 <= j < t.len() && #[trigger] t[j].0 == k;
            assert(s[j].0 == k);
        }
        if has_key(s, k) && s.last().0 != k {
            let j = choose|j: int| 0 <= j < s.len() && #[trigger] s[j].0 == k;
            assert(t[j].0 == k);
        }
        if s.last().0 == k {
            assert(s[s.len() - 1].0 == k);
        }
    }
}

proof fn lemma_insert_existing(s: TagSeq, i: int, k: Seq<char>, v: Seq<char>)
    requires
        distinct_keys(s),
        0 <= i < s.len(),
        s[i].0 == k,
    ensures
        has_key(s, k),
        tags_insert(s, k, v) == s.update(i, (k, v)),
        distinct_keys(s.update(i, (k, v))),
{
    assert(has_key(s, k));
    assert(tags_insert(s, k, v) =~= s.update(i, (k, v)));
}

proof fn lemma_insert_preserves_distinct(s: TagSeq, k: Seq<char>, v: Seq<char>)
    requires
        distinct_keys(s),
        !has_key(s, k),
    ensures
        distinct_keys(s.push((k, v))),
{
    let t = s.push((k, v));
    assert forall|i: int, j: int| 0 <= i < t.len() && 0 <= j < t.len() && i != j implies #[trigger] t[i].0 != #[trigger] t[j].0 by {
        if i == s.len() {
            assert(s[j].0 == t[j].0);
        } else if j == s.len() {
            assert(s[i].0 == t[i].0);
        }
    }
}


/// The map of a list without repeated names: it names exactly the listed names, each with its
/// listed value.
pub proof fn lemma_map_of_distinct(s: TagSeq)
    requires
        distinct_keys(s),
    ensures
        forall|k: Seq<char>| #[trigger] tags_map(s).dom().contains(k) == has_key(s, k),
        forall|i: int| 0 <= i < s.len() ==> #[trigger] tags_map(s)[s[i].0] == s[i].1,
{
    assert forall|k: Seq<char>| #[trigger] tags_map(s).dom().contains(k) == has_key(s, k) by {
        lemma_map_dom(s, k);
    }
    assert forall|i: int| 0 <= i < s.len() implies #[trigger] tags_map(s)[s[i].0] == s[i].1 by {
        lemma_map_at(s, i);
    }
}

/// Setting a tag: the names stay distinct, and the map gains (or changes) exactly that name.
pub proof fn lemma_insert(s: TagSeq, k: Seq<char>, v: Seq<char>)
    requires
        distinct_keys(s),
    ensures
        distinct_keys(tags_insert(s, k, v)),
        tags_map(tags_insert(s, k, v)) == tags_map(s).insert(k, v),
        tags_insert(s, k, v).len() == s.len() + (if has_key(s, k) { 0int } else { 1int }),
{
    let t = tags_insert(s, k, v);
    if has_key(s, k) {
        let i = choose|i: int| 0 <= i < s.len() && #[trigger] s[i].0 == k;
        lemma_insert_existing(s, i, k, v);
    } else {
        lemma_insert_preserves_distinct(s, k, v);
    }
    lemma_map_of_distinct(s);
    lemma_map_of_distinct(t);
    let m = tags_map(s).insert(k, v);
    assert forall|key: Seq<char>| #[trigger] tags_map(t).dom().contains(key) == m.dom().contains(key) by {
        if has_key(t, key) && key != k {
            let j = choose|j: int| 0 <= j < t.len() && #[trigger] t[j].0 == key;
            assert(s[j].0 == key);
        }
        if has_key(s, key) {
            let j = choose|j: int| 0 <= j < s.len() && #[trigger] s[j].0 == key;
            assert(t[j].0 == key);
        }
        if key == k {
            if has_key(s, k) {
                let j = choose|j: int| 0 <= j < s.len() && #[trigger] s[j].0 == key;
                assert(t[j].0 == key);
            } else {
                assert(t[s.len() as int].0 == key);
            }
        }
    }
    assert forall|key: Seq<char>| #[trigger] tags_map(t).dom().contains(key) implies tags_map(t)[key] == m[key] by {
        let j = choose|j: int| 0 <= j < t.len() && #[trigger] t[j].0 == key;
        assert(tags_map(t)[t[j].0] == t[j].1);
        if key != k {
            assert(j < s.len() && s[j] == t[j]);
            assert(tags_map(s)[s[j].0] == s[j].1);
        }
    }
    assert(tags_map(t) =~= m);
}

/// Setting the tags of `b` on `a`: the names stay distinct, and the result maps each name to its
/// value in `b` when `b` has it, else to its value in `a`.
pub proof fn lemma_extend(a: TagSeq, b: TagSeq)
    requires
        distinct_keys(a),
    ensures
        distinct_keys(tags_extend(a, b)),
        tags_map(tags_extend(a, b)) == tags_map(a).union_prefer_right(tags_map(b)),
    decreases b.len(),
{
    if b.len() == 0 {
        assert(tags_map(a).union_prefer_right(tags_map(b)) =~= tags_map(a));
    } else {
        let rest = tags_extend(a, b.drop_last());
        lemma_extend(a, b.drop_last());
        lemma_insert(rest, b.last().0, b.last().1);
        assert(tags_map(tags_extend(a, b)) =~= tags_map(a).union_prefer_right(tags_map(b)));
    }
}

/// What `tags_missing` keeps: the pairs of `base` whose name `top` lacks.
pub proof fn lemma_missing(base: TagSeq, top: TagSeq)
    ensures
        forall|k: Seq<char>| #[trigger] has_key(tags_missing(base, top), k) == (has_key(base, k) && !has_key(top, k)),
        forall|i: int| 0 <= i < tags_missing(base, top).len() ==> #[trigger] base.contains(tags_missing(base, top)[i]),
        distinct_keys(base) ==> distinct_keys(tags_missing(base, top)),
    decreases base.len(),
{
    let m = tags_missing(base, top);
    if base.len() > 0 {
        let b2 = base.drop_last();
        let m2 = tags_missing(b2, top);
        lemma_missing(b2, top);
        assert forall|k: Seq<char>| #[trigger] has_key(m, k) == (has_key(base, k) && !has_key(top, k)) by {
            if has_key(b2, k) {
                let j = choose|j: int| 0 <= j < b2.len() && #[trigger] b2[j].0 == k;
                assert(base[j].0 == k);
            }
            if has_key(base, k) && base.last().0 != k {
                let j = choose|j: int| 0 <= j < base.len() && #[trigger] base[j].0 == k;
                assert(b2[j].0 == k);
            }
            if has_key(m2, k) {
                let j = choose|j: int| 0 <= j < m2.len() && #[trigger] m2[j].0 == k;
                assert(m[j].0 == k);
            }
            if has_key(m, k) && !has_key(m2, k) {
                let j = choose|j: int| 0 <= j < m.len() && #[trigger] m[j].0 == k;
                assert(j == m2.len());
                assert(base[base.len() - 1].0 == k);
            }
            if base.last().0 == k {
                assert(base[base.len() - 1].0 == k);
                if !has_key(top, k) {
                    assert(m[m2.len() as int].0 == k);
                }
            }
        }
        assert forall|i: int| 0 <= i < m.len() implies #[trigger] base.contains(m[i]) by {
            if i < m2.len() {
                assert(m[i] == m2[i]);
                assert(b2.contains(m2[i]));
                let j = choose|j: int| 0 <= j < b2.len() && b2[j] == m2[i];
                assert(base[j] == m2[i]);
            } else {
                assert(base[base.len() - 1] == m[i]);
            }
        }
        if distinct_keys(base) {
            assert(distinct_keys(b2));
            assert forall|i: int, j: int| 0 <= i < m.len() && 0 <= j < m.len() && i != j implies #[trigger] m[i].0 != #[trigger] m[j].0 by {
                if i == m2.len() || j == m2.len() {
                    let other = if i == m2.len() { j } else { i };
                    assert(m[other] == m2[other]);
                    assert(has_key(m2, m2[other].0));
                    assert(has_key(b2, m2[other].0));
                    let jj = choose|jj: int| 0 <= jj < b2.len() && #[trigger] b2[jj].0 == m2[other].0;
                    assert(base[jj].0 == b2[jj].0);
                    assert(base[base.len() - 1].0 != base[jj].0);
                } else {
                    assert(m[i] == m2[i] && m[j] == m2[j]);
                }
            }
        }
    }
}

/// Overlaying `top` on `base`: no name occurs twice, and each name takes its value from `top`
/// when `top` has it, else from `base`; this is how a metric's own tags override default tags.
pub proof fn lemma_overlay(top: TagSeq, base: TagSeq)
    requires
        distinct_keys(top),
        distinct_keys(base),
    ensures
        distinct_keys(tags_overlay(top, base)),
        tags_map(tags_overlay(top, base)) == tags_map(base).union_prefer_right(tags_map(top)),
{
    let m = tags_missing(base, top);
    let o = tags_overlay(top, base);
    lemma_missing(base, top);
    assert forall|i: int, j: int| 0 <= i < o.len() && 0 <= j < o.len() && i != j implies #[trigger] o[i].0 != #[trigger] o[j].0 by {
        if i < top.len() && j < top.len() {
            assert(o[i] == top[i] && o[j] == top[j]);
        } else if i >= top.len() && j >= top.len() {
            assert(o[i] == m[i - top.len()] && o[j] == m[j - top.len()]);
        } else {
            let (a, b) = if i < top.len() { (i, j) } else { (j, i) };
            assert(o[a] == top[a]);
            assert(o[b] == m[b - top.len()]);
            assert(has_key(m, m[b - top.len()].0));
            assert(has_key(top, top[a].0));
        }
    }
    lemma_map_of_distinct(top);
    lemma_map_of_distinct(base);
    lemma_map_of_distinct(o);
    let want = tags_map(base).union_prefer_right(tags_map(top));
    assert forall|k: Seq<char>| #[trigger] tags_map(o).dom().contains(k) == want.dom().contains(k) by {
        if has_key(top, k) {
            let j = choose|j: int| 0 <= j < top.len() && #[trigger] top[j].0 == k;
            assert(o[j].0 == k);
        }
        if has_key(m, k) {
            let j = choose|j: int| 0 <= j < m.len() && #[trigger] m[j].0 == k;
            assert(o[top.len() + j].0 == k);
        }
        if has_key(o, k) {
            let j = choose|j: int| 0 <= j < o.len() && #[trigger] o[j].0 == k;
            if j < top.len() {
                assert(top[j].0 == k);
            } else {
                assert(m[j - top.len()].0 == k);
            }
        }
    }
    assert forall|k: Seq<char>| #[trigger] tags_map(o).dom().contains(k) implies tags_map(o)[k] == want[k] by {
        let j = choose|j: int| 0 <= j < o.len() && #[trigger] o[j].0 == k;
        assert(tags_map(o)[o[j].0] == o[j].1);
        if j < top.len() {
            assert(o[j] == top[j]);
            assert(tags_map(top)[top[j].0] == top[j].1);
        } else {
            let p = m[j - top.len()];
            assert(o[j] == p);
            assert(has_key(m, p.0));
            assert(base.contains(p));
            let jb = choose|jb: int| 0 <= jb < base.len() && base[jb] == p;
            assert(tags_map(base)[base[jb].0] == base[jb].1);
            assert(!has_key(top, k));
        }
    }
    assert(tags_map(o) =~= want);
}

} // verus!
