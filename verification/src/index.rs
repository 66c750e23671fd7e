use vstd::prelude::*;
use crate::post::{
    Post, PostView, posts_view, snapshot_of, lemma_prefix_refl, lemma_prefix_push,
    lemma_prefix_trans,
};

verus! {

/// The mathematical value of one secondary index: an association list from a
/// string key to the posts recorded under it, in insertion order. Keys are
/// unique; the sequence under a key is append-only.
pub type IndexView = Seq<(Seq<char>, Seq<PostView>)>;

/// The view of an index as stored: each key as a character sequence, each
/// value as the views of its posts.
pub open spec fn index_view(m: Seq<(String, Vec<Post>)>) -> IndexView {
    m.map_values(|e: (String, Vec<Post>)| (e.0@, posts_view(e.1@)))
}

pub open spec fn has_key(m: IndexView, k: Seq<char>) -> bool {
    exists|i: int| 0 <= i < m.len() && (#[trigger] m[i]).0 == k
}

pub open spec fn unique_keys(m: IndexView) -> bool {
    forall|i: int, j: int| 0 <= i < j < m.len() ==> (#[trigger] m[i]).0 != (#[trigger] m[j]).0
}

/// The posts recorded under `k`, where `k` has an entry at all.
pub open spec fn lookup(m: IndexView, k: Seq<char>) -> Option<Seq<PostView>>
    decreases m.len(),
{
    if m.len() == 0 {
        None
    } else if m[0].0 == k {
        Some(m[0].1)
    } else {
        lookup(m.subrange(1, m.len() as int), k)
    }
}

/// The posts recorded under a key, or no posts where the key is absent.
pub open spec fn entries_or_empty(o: Option<Seq<PostView>>) -> Seq<PostView> {
    match o {
        Some(v) => v,
        None => Seq::empty(),
    }
}

/// The index after recording `p` under `k`: appended to `k`'s entry where one
/// exists, else a new entry at the end.
pub open spec fn append_under_key(m: IndexView, k: Seq<char>, p: PostView) -> IndexView
    decreases m.len(),
{
    if m.len() == 0 {
        seq![(k, seq![p])]
    } else if m[0].0 == k {
        seq![(m[0].0, m[0].1.push(p))] + m.subrange(1, m.len() as int)
    } else {
        seq![m[0]] + append_under_key(m.subrange(1, m.len() as int), k, p)
    }
}

/// The index after recording `p` under every tag of `tags`, in order; a tag
/// that occurs twice records `p` twice.
pub open spec fn index_under_tags(m: IndexView, tags: Seq<Seq<char>>, p: PostView) -> IndexView
    decreases tags.len(),
{
    if tags.len() == 0 {
        m
    } else {
        index_under_tags(append_under_key(m, tags[0], p), tags.subrange(1, tags.len() as int), p)
    }
}

/// The position of the first entry whose key is `k` (meaningful only where
/// `has_key` holds).
pub open spec fn first_key_index(m: IndexView, k: Seq<char>) -> int
    decreases m.len(),
{
    if m.len() == 0 {
        0
    } else if m[0].0 == k {
        0
    } else {
        1 + first_key_index(m.subrange(1, m.len() as int), k)
    }
}

pub proof fn lemma_first_key_index(m: IndexView, k: Seq<char>)
    requires
        has_key(m, k),
    ensures
        0 <= first_key_index(m, k) < m.len(),
        m[first_key_index(m, k)].0 == k,
        forall|j: int| 0 <= j < first_key_index(m, k) ==> (#[trigger] m[j]).0 != k,
    decreases m.len(),
{
    if m.len() > 0 && m[0].0 != k {
        let tail = m.subrange(1, m.len() as int);
        assert(has_key(tail, k)) by {
            let i = choose|i: int| 0 <= i < m.len() && (#[trigger] m[i]).0 == k;
            assert(tail[i - 1].0 == k);
        }
        lemma_first_key_index(tail, k);
        assert(forall|j: int| 1 <= j < m.len() ==> m[j] == tail[j - 1]);
    }
}

pub proof fn lemma_lookup_some_iff_has_key(m: IndexView, k: Seq<char>)
    ensures
        lookup(m, k) is Some <==> has_key(m, k),
    decreases m.len(),
{
    if m.len() > 0 && m[0].0 != k {
        let tail = m.subrange(1, m.len() as int);
        lemma_lookup_some_iff_has_key(tail, k);
        if has_key(m, k) {
            let i = choose|i: int| 0 <= i < m.len() && (#[trigger] m[i]).0 == k;
            assert(tail[i - 1].0 == k);
        }
        if has_key(tail, k) {
            let i = choose|i: int| 0 <= i < tail.len() && (#[trigger] tail[i]).0 == k;
            assert(m[i + 1].0 == k);
        }
    }
}

/// A lookup returns the value of the first entry carrying the key.
pub proof fn lemma_lookup_first(m: IndexView, k: Seq<char>, i: int)
    requires
        0 <= i < m.len(),
        m[i].0 == k,
        forall|j: int| 0 <= j < i ==> (#[trigger] m[j]).0 != k,
    ensures
        lookup(m, k) == Some(m[i].1),
    decreases m.len(),
{
    if i > 0 {
        let tail = m.subrange(1, m.len() as int);
        lemma_lookup_first(tail, k, i - 1);
    }
}

/// `append_under_key` either extends the first entry carrying the key in
/// place, or pushes a new entry at the end.
pub proof fn lemma_append_shape(m: IndexView, k: Seq<char>, p: PostView)
    ensures
        !has_key(m, k) ==> append_under_key(m, k, p) == m.push((k, seq![p])),
        has_key(m, k) ==> append_under_key(m, k, p) == m.update(
            first_key_index(m, k),
            (k, m[first_key_index(m, k)].1.push(p)),
        ),
    decreases m.len(),
{
    if m.len() == 0 {
        assert(append_under_key(m, k, p) =~= m.push((k, seq![p])));
    } else if m[0].0 == k {
        assert(has_key(m, k));
        assert(append_under_key(m, k, p) =~= m.update(0, (k, m[0].1.push(p))));
    } else {
        let tail = m.subrange(1, m.len() as int);
        lemma_append_shape(tail, k, p);
        assert(has_key(m, k) <==> has_key(tail, k)) by {
            if has_key(m, k) {
                let i = choose|i: int| 0 <= i < m.len() && (#[trigger] m[i]).0 == k;
                assert(tail[i - 1].0 == k);
            }
            if has_key(tail, k) {
                let i = choose|i: int| 0 <= i < tail.len() && (#[trigger] tail[i]).0 == k;
                assert(m[i + 1].0 == k);
            }
        }
        if has_key(m, k) {
            let i = first_key_index(tail, k);
            lemma_first_key_index(tail, k);
            assert(append_under_key(m, k, p) =~= m.update(i + 1, (k, m[i + 1].1.push(p))));
        } else {
            assert(append_under_key(m, k, p) =~= m.push((k, seq![p])));
        }
    }
}

/// How a lookup reads after recording `p` under `k`: the key looked up gains
/// exactly `p` at the end of its entry, every other key reads as before.
pub proof fn lemma_append_lookup(m: IndexView, k: Seq<char>, p: PostView, t: Seq<char>)
    ensures
        t == k ==> lookup(append_under_key(m, k, p), t) == Some(
            entries_or_empty(lookup(m, k)).push(p),
        ),
        t != k ==> lookup(append_under_key(m, k, p), t) == lookup(m, t),
{
    let r = append_under_key(m, k, p);
    lemma_append_shape(m, k, p);
    lemma_lookup_some_iff_has_key(m, k);
    lemma_lookup_some_iff_has_key(m, t);
    if t == k {
        if has_key(m, k) {
            let i = first_key_index(m, k);
            lemma_first_key_index(m, k);
            lemma_lookup_first(m, k, i);
            lemma_lookup_first(r, k, i);
        } else {
            assert(forall|j: int| 0 <= j < m.len() ==> (#[trigger] r[j]).0 == m[j].0);
            lemma_lookup_first(r, k, m.len() as int);
            assert(seq![p] =~= entries_or_empty(lookup(m, k)).push(p));
        }
    } else {
        if has_key(m, k) {
            let ik = first_key_index(m, k);
            lemma_first_key_index(m, k);
            assert(r.len() == m.len());
            assert(forall|j: int|
                0 <= j < r.len() && j != ik ==> (#[trigger] r[j]) == m[j]);
            assert(r[ik].0 == k);
            if has_key(m, t) {
                let it = first_key_index(m, t);
                lemma_first_key_index(m, t);
                lemma_lookup_first(m, t, it);
                assert(it != ik);
                assert(r[it] == m[it]);
                lemma_lookup_first(r, t, it);
            } else {
                assert(!has_key(r, t)) by {
                    if has_key(r, t) {
                        let i = choose|i: int| 0 <= i < r.len() && (#[trigger] r[i]).0 == t;
                        assert(i != ik);
                        assert(m[i].0 == t);
                    }
                }
                lemma_lookup_some_iff_has_key(r, t);
            }
        } else {
            assert(r.len() == m.len() + 1);
            assert(forall|j: int| 0 <= j < m.len() ==> (#[trigger] r[j]) == m[j]);
            assert(r[m.len() as int].0 == k);
            if has_key(m, t) {
                let it = first_key_index(m, t);
                lemma_first_key_index(m, t);
                lemma_lookup_first(m, t, it);
                lemma_lookup_first(r, t, it);
            } else {
                assert(!has_key(r, t)) by {
                    if has_key(r, t) {
                        let i = choose|i: int| 0 <= i < r.len() && (#[trigger] r[i]).0 == t;
                        assert(i != m.len() as int);
                        assert(m[i].0 == t);
                    }
                }
                lemma_lookup_some_iff_has_key(r, t);
            }
        }
    }
}

/// Every post recorded in the index is a snapshot of a post that the primary
/// table holds under the same identifier.
pub open spec fn index_wf(m: IndexView, posts: Seq<PostView>) -> bool {
    forall|i: int, j: int|
        0 <= i < m.len() && 0 <= j < m[i].1.len() ==> {
            let snap = #[trigger] m[i].1[j];
            &&& 0 <= snap.id < posts.len()
            &&& snapshot_of(snap, posts[snap.id])
        }
}

/// Every entry of a by-tag index is non-empty, and every post recorded under
/// a tag carries that tag.
pub open spec fn tag_entries(m: IndexView) -> bool {
    &&& forall|i: int| 0 <= i < m.len() ==> (#[trigger] m[i]).1.len() > 0
    &&& forall|i: int, j: int|
        0 <= i < m.len() && 0 <= j < m[i].1.len() ==> (#[trigger] m[i].1[j]).tags.contains(m[i].0)
}

/// Recording one post under one key keeps the keys unique and keeps every
/// recorded post a snapshot of a stored one.
pub proof fn lemma_append_preserves_wf(
    m: IndexView,
    k: Seq<char>,
    p: PostView,
    posts: Seq<PostView>,
)
    requires
        unique_keys(m),
        index_wf(m, posts),
        0 <= p.id < posts.len(),
        snapshot_of(p, posts[p.id]),
    ensures
        unique_keys(append_under_key(m, k, p)),
        index_wf(append_under_key(m, k, p), posts),
{
    let r = append_under_key(m, k, p);
    lemma_append_shape(m, k, p);
    if has_key(m, k) {
        let ik = first_key_index(m, k);
        lemma_first_key_index(m, k);
        assert(forall|j: int| 0 <= j < r.len() && j != ik ==> (#[trigger] r[j]) == m[j]);
        assert(r[ik].0 == m[ik].0);
        assert(r[ik].1 == m[ik].1.push(p));
        assert(forall|j: int| 0 <= j < m[ik].1.len() ==> (#[trigger] r[ik].1[j]) == m[ik].1[j]);
        assert(r[ik].1[m[ik].1.len() as int] == p);
    } else {
        assert(forall|j: int| 0 <= j < m.len() ==> (#[trigger] r[j]) == m[j]);
        assert(r[m.len() as int] == (k, seq![p]));
        assert(r[m.len() as int].1[0] == p);
        assert(forall|j: int| 0 <= j < m.len() ==> (#[trigger] m[j]).0 != k);
    }
}

/// Recording a post under one of its own tags keeps every entry of a by-tag
/// index non-empty and keyed by a tag its posts carry.
pub proof fn lemma_append_preserves_tags(m: IndexView, k: Seq<char>, p: PostView)
    requires
        tag_entries(m),
        p.tags.contains(k),
    ensures
        tag_entries(append_under_key(m, k, p)),
{
    let r = append_under_key(m, k, p);
    lemma_append_shape(m, k, p);
    if has_key(m, k) {
        let ik = first_key_index(m, k);
        lemma_first_key_index(m, k);
        assert(forall|j: int| 0 <= j < r.len() && j != ik ==> (#[trigger] r[j]) == m[j]);
        assert(r[ik].0 == m[ik].0);
        assert(r[ik].1 == m[ik].1.push(p));
        assert(forall|j: int| 0 <= j < m[ik].1.len() ==> (#[trigger] r[ik].1[j]) == m[ik].1[j]);
        assert(r[ik].1[m[ik].1.len() as int] == p);
    } else {
        assert(forall|j: int| 0 <= j < m.len() ==> (#[trigger] r[j]) == m[j]);
        assert(r[m.len() as int] == (k, seq![p]));
        assert(r[m.len() as int].1[0] == p);
    }
}

/// Recording one post under every tag of a list preserves the index
/// invariants; the key set gains exactly the new tags; every entry already
/// recorded stays where it was; and the post is found under each tag of the
/// list afterwards.
pub proof fn lemma_index_tags_preserves(
    m: IndexView,
    ts: Seq<Seq<char>>,
    p: PostView,
    posts: Seq<PostView>,
)
    requires
        unique_keys(m),
        index_wf(m, posts),
        tag_entries(m),
        0 <= p.id < posts.len(),
        snapshot_of(p, posts[p.id]),
        forall|j: int| 0 <= j < ts.len() ==> p.tags.contains(#[trigger] ts[j]),
    ensures
        unique_keys(index_under_tags(m, ts, p)),
        index_wf(index_under_tags(m, ts, p), posts),
        tag_entries(index_under_tags(m, ts, p)),
        forall|t: Seq<char>|
            has_key(index_under_tags(m, ts, p), t) <==> (has_key(m, t) || ts.contains(t)),
        forall|t: Seq<char>|
            (#[trigger] entries_or_empty(lookup(m, t))).is_prefix_of(
                entries_or_empty(lookup(index_under_tags(m, ts, p), t)),
            ),
        forall|j: int|
            0 <= j < ts.len() ==> entries_or_empty(
                lookup(index_under_tags(m, ts, p), #[trigger] ts[j]),
            ).contains(p),
    decreases ts.len(),
{
    let r = index_under_tags(m, ts, p);
    if ts.len() == 0 {
        assert(forall|t: Seq<char>| !ts.contains(t));
        assert forall|t: Seq<char>|
            (#[trigger] entries_or_empty(lookup(m, t))).is_prefix_of(
                entries_or_empty(lookup(m, t)),
            ) by {
            lemma_prefix_refl(entries_or_empty(lookup(m, t)));
        }
    } else {
        let k0 = ts[0];
        let rest = ts.subrange(1, ts.len() as int);
        let m1 = append_under_key(m, k0, p);
        lemma_append_preserves_wf(m, k0, p, posts);
        lemma_append_preserves_tags(m, k0, p);
        lemma_index_tags_preserves(m1, rest, p, posts);
        assert(r == index_under_tags(m1, rest, p));
        // How one append step reads through lookup, for every key.
        assert forall|t: Seq<char>|
            (#[trigger] entries_or_empty(lookup(m, t))).is_prefix_of(
                entries_or_empty(lookup(m1, t)),
            ) by {
            lemma_append_lookup(m, k0, p, t);
            if t == k0 {
                lemma_prefix_push(
                    entries_or_empty(lookup(m, t)),
                    entries_or_empty(lookup(m, t)),
                    p,
                );
                lemma_prefix_refl(entries_or_empty(lookup(m, t)));
            } else {
                lemma_prefix_refl(entries_or_empty(lookup(m, t)));
            }
        }
        assert forall|t: Seq<char>|
            (#[trigger] entries_or_empty(lookup(m, t))).is_prefix_of(
                entries_or_empty(lookup(r, t)),
            ) by {
            lemma_prefix_trans(
                entries_or_empty(lookup(m, t)),
                entries_or_empty(lookup(m1, t)),
                entries_or_empty(lookup(r, t)),
            );
        }
        assert forall|t: Seq<char>| has_key(m1, t) <==> (has_key(m, t) || t == k0) by {
            lemma_append_lookup(m, k0, p, t);
            lemma_lookup_some_iff_has_key(m, t);
            lemma_lookup_some_iff_has_key(m1, t);
        }
        assert forall|t: Seq<char>| has_key(r, t) <==> (has_key(m, t) || ts.contains(t)) by {
            if ts.contains(t) {
                let j = choose|j: int| 0 <= j < ts.len() && ts[j] == t;
                if j > 0 {
                    assert(rest[j - 1] == t);
                    assert(rest.contains(t));
                }
            }
            if rest.contains(t) {
                let j = choose|j: int| 0 <= j < rest.len() && rest[j] == t;
                assert(ts[j + 1] == t);
                assert(ts.contains(t));
            }
            if t == k0 {
                assert(ts.contains(t)) by {
                    assert(ts[0] == t);
                }
            }
        }
        // The post stands under ts[0] in m1 and survives into r.
        assert forall|j: int|
            0 <= j < ts.len() implies entries_or_empty(
            lookup(r, #[trigger] ts[j]),
        ).contains(p) by {
            if j == 0 {
                lemma_append_lookup(m, k0, p, k0);
                let v1 = entries_or_empty(lookup(m1, k0));
                assert(v1 == entries_or_empty(lookup(m, k0)).push(p));
                assert(v1[v1.len() - 1] == p);
                assert(v1.contains(p));
                crate::post::lemma_prefix_contains(
                    v1,
                    entries_or_empty(lookup(r, k0)),
                    p,
                );
            } else {
                assert(rest[j - 1] == ts[j]);
            }
        }
    }
}

/// How often `t` occurs in a tag list.
pub open spec fn count_matches(ts: Seq<Seq<char>>, t: Seq<char>) -> nat
    decreases ts.len(),
{
    if ts.len() == 0 {
        0
    } else {
        (if ts[0] == t {
            1nat
        } else {
            0nat
        }) + count_matches(ts.subrange(1, ts.len() as int), t)
    }
}

pub proof fn lemma_count_matches_zero(ts: Seq<Seq<char>>, t: Seq<char>)
    ensures
        count_matches(ts, t) == 0 <==> !ts.contains(t),
    decreases ts.len(),
{
    if ts.len() > 0 {
        let rest = ts.subrange(1, ts.len() as int);
        lemma_count_matches_zero(rest, t);
        if ts.contains(t) && ts[0] != t {
            let i = choose|i: int| 0 <= i < ts.len() && ts[i] == t;
            assert(rest[i - 1] == t);
            assert(rest.contains(t));
        }
        if rest.contains(t) {
            let i = choose|i: int| 0 <= i < rest.len() && rest[i] == t;
            assert(ts[i + 1] == t);
            assert(ts.contains(t));
        }
    }
}

/// Recording a post under every tag of a list changes exactly the entries of
/// the listed tags, and each by as many copies of the post as the tag occurs
/// in the list, appended in place.
pub proof fn lemma_index_tags_lookup(
    m: IndexView,
    ts: Seq<Seq<char>>,
    p: PostView,
    t: Seq<char>,
)
    ensures
        count_matches(ts, t) == 0 ==> lookup(index_under_tags(m, ts, p), t) == lookup(m, t),
        count_matches(ts, t) > 0 ==> lookup(index_under_tags(m, ts, p), t) == Some(
            entries_or_empty(lookup(m, t)) + Seq::new(count_matches(ts, t), |i: int| p),
        ),
    decreases ts.len(),
{
    if ts.len() > 0 {
        let k0 = ts[0];
        let rest = ts.subrange(1, ts.len() as int);
        let m1 = append_under_key(m, k0, p);
        let r = index_under_tags(m1, rest, p);
        lemma_append_lookup(m, k0, p, t);
        lemma_index_tags_lookup(m1, rest, p, t);
        let c = count_matches(ts, t);
        let crest = count_matches(rest, t);
        if t == k0 {
            assert(c == crest + 1);
            let base = entries_or_empty(lookup(m, t));
            assert(entries_or_empty(lookup(m1, t)) == base.push(p));
            if crest == 0 {
                assert(lookup(r, t) == Some(base.push(p)));
                assert(base.push(p) =~= base + Seq::new(c, |i: int| p));
            } else {
                assert(lookup(r, t) == Some(base.push(p) + Seq::new(crest, |i: int| p)));
                assert(base.push(p) + Seq::new(crest, |i: int| p) =~= base + Seq::new(
                    c,
                    |i: int| p,
                ));
            }
        } else {
            assert(c == crest);
            assert(lookup(m1, t) == lookup(m, t));
        }
    }
}

/// Recording under the tags of a list and then under one more tag is
/// recording under the extended list.
pub proof fn lemma_index_tags_push(m: IndexView, ts: Seq<Seq<char>>, x: Seq<char>, p: PostView)
    ensures
        index_under_tags(m, ts.push(x), p) == append_under_key(index_under_tags(m, ts, p), x, p),
    decreases ts.len(),
{
    let e = ts.push(x);
    if ts.len() == 0 {
        assert(e[0] == x);
        assert(e.subrange(1, e.len() as int) =~= Seq::<Seq<char>>::empty());
        assert(index_under_tags(m, e, p) == index_under_tags(
            append_under_key(m, x, p),
            Seq::<Seq<char>>::empty(),
            p,
        ));
        assert(index_under_tags(append_under_key(m, x, p), Seq::<Seq<char>>::empty(), p)
            == append_under_key(m, x, p));
        assert(index_under_tags(m, ts, p) == m);
    } else {
        let m1 = append_under_key(m, ts[0], p);
        let sub = ts.subrange(1, ts.len() as int);
        assert(e[0] == ts[0]);
        assert(e.subrange(1, e.len() as int) =~= sub.push(x));
        assert(index_under_tags(m, e, p) == index_under_tags(m1, sub.push(x), p));
        lemma_index_tags_push(m1, sub, x, p);
        assert(index_under_tags(m, ts, p) == index_under_tags(m1, sub, p));
    }
}

/// The position of the entry carrying `key`, where one exists.
pub(crate) fn find_key_slot(m: &Vec<(String, Vec<Post>)>, key: &String) -> (r: Option<usize>)
    ensures
        r matches Some(i) ==> i < m@.len() && index_view(m@)[i as int].0 == key@ && (forall|j: int|
            0 <= j < i as int ==> index_view(m@)[j].0 != key@),
        r is None ==> !has_key(index_view(m@), key@),
{
    let mut i: usize = 0;
    while i < m.len()
        invariant
            i <= m@.len(),
            forall|j: int| 0 <= j < i as int ==> (#[trigger] m@[j]).0@ != key@,
        decreases m@.len() - i,
    {
        let e = &m[i];
        if e.0 == *key {
            return Some(i);
        }
        i += 1;
    }
    None
}

/// Records a copy of `post` under `key`, appending to the entry that carries
/// the key or opening a new one.
pub(crate) fn append_entry(m: &mut Vec<(String, Vec<Post>)>, key: &String, post: &Post)
    ensures
        index_view(final(m)@) == append_under_key(index_view(old(m)@), key@, post@),
{
    let ghost mv = index_view(m@);
    let slot = find_key_slot(m, key);
    match slot {
        Some(i) => {
            let entry = m.remove(i);
            let (entry_key, mut entry_posts) = entry;
            entry_posts.push(post.clone());
            m.insert(i, (entry_key, entry_posts));
            proof {
                lemma_append_shape(mv, key@, post@);
                assert(mv[i as int].0 == key@);
                assert(has_key(mv, key@));
                lemma_first_key_index(mv, key@);
                assert(first_key_index(mv, key@) == i as int);
                assert(posts_view(entry_posts@) =~= mv[i as int].1.push(post@));
                assert(index_view(m@) =~= mv.update(
                    i as int,
                    (key@, mv[i as int].1.push(post@)),
                ));
            }
        },
        None => {
            let mut entry_posts: Vec<Post> = Vec::new();
            entry_posts.push(post.clone());
            m.push((key.clone(), entry_posts));
            proof {
                lemma_append_shape(mv, key@, post@);
                assert(posts_view(entry_posts@) =~= seq![post@]);
                assert(index_view(m@) =~= mv.push((key@, seq![post@])));
            }
        },
    }
}

/// The posts recorded under `key`, as owned copies; nothing where the key has
/// never been recorded.
pub(crate) fn get_entry(m: &Vec<(String, Vec<Post>)>, key: &String) -> (r: Option<Vec<Post>>)
    ensures
        r matches Some(v) ==> lookup(index_view(m@), key@) == Some(posts_view(v@)),
        r is None ==> lookup(index_view(m@), key@) is None,
{
    match find_key_slot(m, key) {
        Some(i) => {
            let v = crate::post::clone_posts(&m[i].1);
            proof {
                lemma_lookup_first(index_view(m@), key@, i as int);
            }
            Some(v)
        },
        None => {
            proof {
                lemma_lookup_some_iff_has_key(index_view(m@), key@);
            }
            None
        },
    }
}

} // verus!
