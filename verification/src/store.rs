use vstd::prelude::*;
use crate::post::{
    Post, PostView, posts_view, strings_view, snapshot_of, lemma_prefix_refl, lemma_prefix_push,
};
use crate::tags::{split_commas, split_tags};
use crate::index::{
    IndexView, index_view, has_key, unique_keys, lookup, entries_or_empty, append_under_key,
    index_under_tags, first_key_index, index_wf, tag_entries, lemma_first_key_index,
    lemma_lookup_some_iff_has_key, lemma_lookup_first, lemma_append_lookup,
    lemma_append_preserves_wf, lemma_index_tags_preserves, lemma_index_tags_push, get_entry,
    count_matches, lemma_count_matches_zero, lemma_index_tags_lookup,
};

verus! {

/// The one failure of the store: a post identifier, tag, or user that no
/// record carries.
#[derive(Clone, Copy, Debug, PartialEq, Eq, Structural)]
pub enum StoreError {
    NotFound,
}

/// The mathematical value of the whole store: the primary table in creation
/// order (the post with identifier `i` stands at position `i`), the next
/// identifier to issue, and the two secondary indices.
#[verifier::ext_equal]
pub ghost struct StoreView {
    pub posts: Seq<PostView>,
    pub next_id: int,
    pub likes_by_user_id: IndexView,
    pub posts_by_tag: IndexView,
}

/// Every post appears under each of its tags: for each tag of each stored
/// post, the by-tag index holds an entry carrying a snapshot with that
/// post's identifier.
pub open spec fn tags_complete(posts: Seq<PostView>, m: IndexView) -> bool {
    forall|i: int, j: int|
        0 <= i < posts.len() && 0 <= j < posts[i].tags.len() ==> {
            let entry = entries_or_empty(lookup(m, #[trigger] posts[i].tags[j]));
            exists|x: int| 0 <= x < entry.len() && (#[trigger] entry[x]).id == i
        }
}

impl StoreView {
    /// The store's invariant: identifiers are dense and issued in order, the
    /// index keys are unique, every indexed post is a snapshot of a stored
    /// one, by-tag entries carry their key as a tag, and every stored post is
    /// reachable through each of its tags.
    pub open spec fn wf(self) -> bool {
        &&& self.next_id == self.posts.len()
        &&& forall|i: int| 0 <= i < self.posts.len() ==> (#[trigger] self.posts[i]).id == i
        &&& unique_keys(self.posts_by_tag)
        &&& unique_keys(self.likes_by_user_id)
        &&& index_wf(self.posts_by_tag, self.posts)
        &&& index_wf(self.likes_by_user_id, self.posts)
        &&& tag_entries(self.posts_by_tag)
        &&& tags_complete(self.posts, self.posts_by_tag)
    }
}

/// The post that a creation with these inputs builds: the next identifier,
/// the raw tag string split on commas, no likes yet, owned by the caller.
pub open spec fn spec_new_post(
    s: StoreView,
    title: Seq<char>,
    description: Seq<char>,
    raw_tags: Seq<char>,
    media: Seq<char>,
    caller: Seq<char>,
) -> PostView {
    PostView {
        id: s.posts.len() as int,
        title: title,
        description: description,
        tags: split_commas(raw_tags),
        media: media,
        users_who_liked: Seq::empty(),
        owner_id: caller,
    }
}

/// The store after a creation: the new post at the end of the primary table,
/// the counter advanced once, and a snapshot recorded under every tag.
pub open spec fn spec_add_post(
    s: StoreView,
    title: Seq<char>,
    description: Seq<char>,
    raw_tags: Seq<char>,
    media: Seq<char>,
    caller: Seq<char>,
) -> StoreView {
    let p = spec_new_post(s, title, description, raw_tags, media, caller);
    StoreView {
        posts: s.posts.push(p),
        next_id: s.next_id + 1,
        likes_by_user_id: s.likes_by_user_id,
        posts_by_tag: index_under_tags(s.posts_by_tag, p.tags, p),
    }
}

/// The post after one like by `caller`: the caller appended to the like
/// history, everything else unchanged.
pub open spec fn liked_post_view(p: PostView, caller: Seq<char>) -> PostView {
    PostView { users_who_liked: p.users_who_liked.push(caller), ..p }
}

/// The store after a like of the post with identifier `id` by `caller`: the
/// primary record replaced by its liked copy, and a snapshot of that copy
/// recorded under the caller; a store whose table lacks `id` is unchanged.
pub open spec fn spec_like_post(s: StoreView, id: int, caller: Seq<char>) -> StoreView {
    if 0 <= id < s.posts.len() {
        let updated = liked_post_view(s.posts[id], caller);
        StoreView {
            posts: s.posts.update(id, updated),
            next_id: s.next_id,
            likes_by_user_id: append_under_key(s.likes_by_user_id, caller, updated),
            posts_by_tag: s.posts_by_tag,
        }
    } else {
        s
    }
}

/// Creating a post preserves the store invariant: the primary table gains the
/// new post at its own identifier, and the by-tag index gains exactly the
/// snapshots that make the new post reachable through each of its tags.
pub proof fn lemma_add_post_preserves_wf(
    s: StoreView,
    title: Seq<char>,
    description: Seq<char>,
    raw_tags: Seq<char>,
    media: Seq<char>,
    caller: Seq<char>,
)
    requires
        s.wf(),
    ensures
        spec_add_post(s, title, description, raw_tags, media, caller).wf(),
{
    let p = spec_new_post(s, title, description, raw_tags, media, caller);
    let posts2 = s.posts.push(p);
    assert(posts2[p.id] == p);
    lemma_prefix_refl(p.users_who_liked);
    assert(snapshot_of(p, posts2[p.id]));
    assert(index_wf(s.posts_by_tag, posts2)) by {
        assert forall|i: int, j: int|
            0 <= i < s.posts_by_tag.len() && 0 <= j < s.posts_by_tag[i].1.len() implies {
            let snap = #[trigger] s.posts_by_tag[i].1[j];
            0 <= snap.id < posts2.len() && snapshot_of(snap, posts2[snap.id])
        } by {
            let snap = s.posts_by_tag[i].1[j];
            assert(0 <= snap.id < posts2.len() && snapshot_of(snap, posts2[snap.id])) by {
                assert(snapshot_of(snap, s.posts[snap.id]));
                assert(posts2[snap.id] == s.posts[snap.id]);
            }
        }
    }
    assert(index_wf(s.likes_by_user_id, posts2)) by {
        assert forall|i: int, j: int|
            0 <= i < s.likes_by_user_id.len() && 0 <= j < s.likes_by_user_id[i].1.len() implies {
            let snap = #[trigger] s.likes_by_user_id[i].1[j];
            0 <= snap.id < posts2.len() && snapshot_of(snap, posts2[snap.id])
        } by {
            let snap = s.likes_by_user_id[i].1[j];
            assert(0 <= snap.id < posts2.len() && snapshot_of(snap, posts2[snap.id])) by {
                assert(snapshot_of(snap, s.posts[snap.id]));
                assert(posts2[snap.id] == s.posts[snap.id]);
            }
        }
    }
    assert(forall|j: int| 0 <= j < p.tags.len() ==> p.tags.contains(#[trigger] p.tags[j]));
    lemma_index_tags_preserves(s.posts_by_tag, p.tags, p, posts2);
    let m2 = index_under_tags(s.posts_by_tag, p.tags, p);
    assert(tags_complete(posts2, m2)) by {
        assert forall|i: int, j: int|
            0 <= i < posts2.len() && 0 <= j < posts2[i].tags.len() implies {
            let entry = entries_or_empty(lookup(m2, #[trigger] posts2[i].tags[j]));
            exists|x: int| 0 <= x < entry.len() && (#[trigger] entry[x]).id == i
        } by {
            if i < s.posts.len() {
                assert(posts2[i] == s.posts[i]);
                let t = s.posts[i].tags[j];
                let entry0 = entries_or_empty(lookup(s.posts_by_tag, t));
                assert(exists|x: int| 0 <= x < entry0.len() && (#[trigger] entry0[x]).id == i);
                let x = choose|x: int| 0 <= x < entry0.len() && (#[trigger] entry0[x]).id == i;
                let entry2 = entries_or_empty(lookup(m2, t));
                assert(entry0.is_prefix_of(entry2));
                assert(entry2.subrange(0, entry0.len() as int)[x] == entry2[x]);
                assert(entry2[x].id == i);
            } else {
                assert(posts2[i] == p);
                let t = p.tags[j];
                let entry2 = entries_or_empty(lookup(m2, t));
                assert(entry2.contains(p));
                let x = choose|x: int| 0 <= x < entry2.len() && entry2[x] == p;
                assert(entry2[x].id == i);
            }
        }
    }
}

/// Liking a stored post preserves the store invariant: the liked copy
/// replaces the primary record, earlier snapshots of it stay prefixes of its
/// extended like history, and the caller's like history gains exactly that
/// copy while every other user's history reads as before.
pub proof fn lemma_like_preserves_wf(s: StoreView, id: int, caller: Seq<char>)
    requires
        s.wf(),
        0 <= id < s.posts.len(),
    ensures
        spec_like_post(s, id, caller).wf(),
        lookup(spec_like_post(s, id, caller).likes_by_user_id, caller) == Some(
            entries_or_empty(lookup(s.likes_by_user_id, caller)).push(
                liked_post_view(s.posts[id], caller),
            ),
        ),
        forall|u: Seq<char>|
            u != caller ==> lookup(spec_like_post(s, id, caller).likes_by_user_id, u) == lookup(
                s.likes_by_user_id,
                u,
            ),
{
    let updated = liked_post_view(s.posts[id], caller);
    let posts2 = s.posts.update(id, updated);
    let s2 = spec_like_post(s, id, caller);
    assert(index_wf(s.posts_by_tag, posts2)) by {
        assert forall|i: int, j: int|
            0 <= i < s.posts_by_tag.len() && 0 <= j < s.posts_by_tag[i].1.len() implies {
            let snap = #[trigger] s.posts_by_tag[i].1[j];
            0 <= snap.id < posts2.len() && snapshot_of(snap, posts2[snap.id])
        } by {
            let snap = s.posts_by_tag[i].1[j];
            assert(snapshot_of(snap, s.posts[snap.id]));
            if snap.id == id {
                lemma_prefix_push(
                    snap.users_who_liked,
                    s.posts[id].users_who_liked,
                    caller,
                );
            } else {
                assert(posts2[snap.id] == s.posts[snap.id]);
            }
        }
    }
    assert(index_wf(s.likes_by_user_id, posts2)) by {
        assert forall|i: int, j: int|
            0 <= i < s.likes_by_user_id.len() && 0 <= j < s.likes_by_user_id[i].1.len() implies {
            let snap = #[trigger] s.likes_by_user_id[i].1[j];
            0 <= snap.id < posts2.len() && snapshot_of(snap, posts2[snap.id])
        } by {
            let snap = s.likes_by_user_id[i].1[j];
            assert(snapshot_of(snap, s.posts[snap.id]));
            if snap.id == id {
                lemma_prefix_push(
                    snap.users_who_liked,
                    s.posts[id].users_who_liked,
                    caller,
                );
            } else {
                assert(posts2[snap.id] == s.posts[snap.id]);
            }
        }
    }
    lemma_prefix_refl(updated.users_who_liked);
    assert(snapshot_of(updated, posts2[id]));
    lemma_append_preserves_wf(s.likes_by_user_id, caller, updated, posts2);
    assert(tags_complete(posts2, s.posts_by_tag)) by {
        assert forall|i: int, j: int|
            0 <= i < posts2.len() && 0 <= j < posts2[i].tags.len() implies {
            let entry = entries_or_empty(lookup(s.posts_by_tag, #[trigger] posts2[i].tags[j]));
            exists|x: int| 0 <= x < entry.len() && (#[trigger] entry[x]).id == i
        } by {
            assert(posts2[i].tags == s.posts[i].tags);
            assert(posts2[i].tags[j] == s.posts[i].tags[j]);
            let entry = entries_or_empty(lookup(s.posts_by_tag, s.posts[i].tags[j]));
            assert(exists|x: int| 0 <= x < entry.len() && (#[trigger] entry[x]).id == i);
        }
    }
    lemma_append_lookup(s.likes_by_user_id, caller, updated, caller);
    assert forall|u: Seq<char>|
        u != caller implies lookup(s2.likes_by_user_id, u) == lookup(s.likes_by_user_id, u) by {
        lemma_append_lookup(s.likes_by_user_id, caller, updated, u);
    }
}

/// In a well-formed store, every stored post is found under each of its
/// tags: the by-tag index has an entry for the tag, and that entry carries a
/// snapshot of the post, taken at creation or earlier.
pub proof fn lemma_post_found_under_each_tag(s: StoreView, i: int, j: int)
    requires
        s.wf(),
        0 <= i < s.posts.len(),
        0 <= j < s.posts[i].tags.len(),
    ensures
        lookup(s.posts_by_tag, s.posts[i].tags[j]) is Some,
        exists|x: int|
            0 <= x < entries_or_empty(lookup(s.posts_by_tag, s.posts[i].tags[j])).len() && (
            #[trigger] entries_or_empty(lookup(s.posts_by_tag, s.posts[i].tags[j]))[x]).id
                == s.posts[i].id && snapshot_of(
                entries_or_empty(lookup(s.posts_by_tag, s.posts[i].tags[j]))[x],
                s.posts[i],
            ),
{
    let t = s.posts[i].tags[j];
    let entry = entries_or_empty(lookup(s.posts_by_tag, t));
    assert(exists|x: int| 0 <= x < entry.len() && (#[trigger] entry[x]).id == i);
    let x = choose|x: int| 0 <= x < entry.len() && (#[trigger] entry[x]).id == i;
    assert(entry.len() > 0);
    lemma_lookup_some_iff_has_key(s.posts_by_tag, t);
    assert(lookup(s.posts_by_tag, t) is Some) by {
        if lookup(s.posts_by_tag, t) is None {
            assert(entry.len() == 0);
        }
    }
    assert(has_key(s.posts_by_tag, t));
    let it = first_key_index(s.posts_by_tag, t);
    lemma_first_key_index(s.posts_by_tag, t);
    lemma_lookup_first(s.posts_by_tag, t, it);
    assert(entry == s.posts_by_tag[it].1);
    assert(snapshot_of(entry[x], s.posts[entry[x].id]));
    assert(entry[x].id == s.posts[i].id);
}

/// A tag that no stored post carries is not in the by-tag index: looking it
/// up fails rather than yielding an empty listing.
pub proof fn lemma_unused_tag_not_found(s: StoreView, t: Seq<char>)
    requires
        s.wf(),
        forall|i: int| 0 <= i < s.posts.len() ==> !(#[trigger] s.posts[i]).tags.contains(t),
    ensures
        lookup(s.posts_by_tag, t) is None,
{
    lemma_lookup_some_iff_has_key(s.posts_by_tag, t);
    if has_key(s.posts_by_tag, t) {
        let it = first_key_index(s.posts_by_tag, t);
        lemma_first_key_index(s.posts_by_tag, t);
        assert(s.posts_by_tag[it].1.len() > 0);
        let snap = s.posts_by_tag[it].1[0];
        assert(snap.tags.contains(t));
        assert(snapshot_of(snap, s.posts[snap.id]));
        assert(s.posts[snap.id].tags.contains(t));
        assert(false);
    }
}

/// Creation is strictly monotonic: of two posts created one after the other,
/// whatever their inputs, the second carries the strictly larger identifier,
/// so no identifier is ever reused.
pub proof fn lemma_creation_ids_strictly_increase(
    s: StoreView,
    title1: Seq<char>,
    description1: Seq<char>,
    raw_tags1: Seq<char>,
    media1: Seq<char>,
    caller1: Seq<char>,
    title2: Seq<char>,
    description2: Seq<char>,
    raw_tags2: Seq<char>,
    media2: Seq<char>,
    caller2: Seq<char>,
)
    ensures
        ({
            let p1 = spec_new_post(s, title1, description1, raw_tags1, media1, caller1);
            let s1 = spec_add_post(s, title1, description1, raw_tags1, media1, caller1);
            let p2 = spec_new_post(s1, title2, description2, raw_tags2, media2, caller2);
            p2.id == p1.id + 1 && p2.id > p1.id
        }),
{
}

/// One creation touches the by-tag index exactly as the new post's tag list
/// says: a tag outside the list reads as before, and the listing of a tag in
/// the list grows at its end by one snapshot of the new post per occurrence
/// of the tag — no more, so a single creation never duplicates an entry.
pub proof fn lemma_creation_indexes_once_per_tag(
    s: StoreView,
    title: Seq<char>,
    description: Seq<char>,
    raw_tags: Seq<char>,
    media: Seq<char>,
    caller: Seq<char>,
    t: Seq<char>,
)
    ensures
        ({
            let p = spec_new_post(s, title, description, raw_tags, media, caller);
            let s2 = spec_add_post(s, title, description, raw_tags, media, caller);
            &&& !p.tags.contains(t) ==> lookup(s2.posts_by_tag, t) == lookup(s.posts_by_tag, t)
            &&& p.tags.contains(t) ==> lookup(s2.posts_by_tag, t) == Some(
                entries_or_empty(lookup(s.posts_by_tag, t)) + Seq::new(
                    count_matches(p.tags, t),
                    |i: int| p,
                ),
            )
        }),
{
    let p = spec_new_post(s, title, description, raw_tags, media, caller);
    lemma_count_matches_zero(p.tags, t);
    lemma_index_tags_lookup(s.posts_by_tag, p.tags, p, t);
}

/// The identifier counter of a well-formed store strictly exceeds every
/// identifier it has issued.
pub proof fn lemma_next_id_exceeds_issued(s: StoreView, i: int)
    requires
        s.wf(),
        0 <= i < s.posts.len(),
    ensures
        s.posts[i].id < s.next_id,
{
}

/// The content-sharing store: the primary post table, its identifier
/// counter, and the two denormalized indices kept consistent with it.
pub struct SocialNetworking {
    posts: Vec<Post>,
    number_of_posts: u128,
    likes_by_user_id: Vec<(String, Vec<Post>)>,
    posts_by_tag: Vec<(String, Vec<Post>)>,
}

impl View for SocialNetworking {
    type V = StoreView;

    closed spec fn view(&self) -> StoreView {
        StoreView {
            posts: posts_view(self.posts@),
            next_id: self.number_of_posts as int,
            likes_by_user_id: index_view(self.likes_by_user_id@),
            posts_by_tag: index_view(self.posts_by_tag@),
        }
    }
}

impl Default for SocialNetworking {
    /// An empty store: no posts, no index entries, the counter at zero.
    fn default() -> (s: Self)
        ensures
            s.wf(),
            s@ == (StoreView {
                posts: Seq::<PostView>::empty(),
                next_id: 0,
                likes_by_user_id: Seq::<(Seq<char>, Seq<PostView>)>::empty(),
                posts_by_tag: Seq::<(Seq<char>, Seq<PostView>)>::empty(),
            }),
    {
        let s = SocialNetworking {
            posts: Vec::new(),
            number_of_posts: 0,
            likes_by_user_id: Vec::new(),
            posts_by_tag: Vec::new(),
        };
        proof {
            assert(s@ =~= (StoreView {
                posts: Seq::<PostView>::empty(),
                next_id: 0,
                likes_by_user_id: Seq::<(Seq<char>, Seq<PostView>)>::empty(),
                posts_by_tag: Seq::<(Seq<char>, Seq<PostView>)>::empty(),
            }));
        }
        s
    }
}

impl SocialNetworking {
    pub open spec fn wf(self) -> bool {
        self@.wf()
    }

    /// How many posts have been created; also the next identifier to issue.
    pub fn post_count(&self) -> (n: u128)
        ensures
            n as int == self@.next_id,
    {
        self.number_of_posts
    }

    /// Records a snapshot of `post` under each of its tags, in tag order; a
    /// tag that occurs twice in the list records the post twice.
    fn add_posts_by_tag(&mut self, post: &Post)
        ensures
            final(self)@.posts_by_tag == index_under_tags(
                old(self)@.posts_by_tag,
                post@.tags,
                post@,
            ),
            final(self)@.posts == old(self)@.posts,
            final(self)@.next_id == old(self)@.next_id,
            final(self)@.likes_by_user_id == old(self)@.likes_by_user_id,
    {
        let ghost m0 = old(self)@.posts_by_tag;
        let n = post.tags.len();
        let mut i: usize = 0;
        proof {
            assert(post@.tags.subrange(0, 0) =~= Seq::<Seq<char>>::empty());
        }
        while i < n
            invariant
                i <= n,
                n == post.tags@.len(),
                post@.tags.len() == n,
                index_view(self.posts_by_tag@) == index_under_tags(
                    m0,
                    post@.tags.subrange(0, i as int),
                    post@,
                ),
                self.posts@ == old(self).posts@,
                self.number_of_posts == old(self).number_of_posts,
                self.likes_by_user_id@ == old(self).likes_by_user_id@,
            decreases n - i,
        {
            let tag = &post.tags[i];
            crate::index::append_entry(&mut self.posts_by_tag, tag, post);
            proof {
                lemma_index_tags_push(m0, post@.tags.subrange(0, i as int), post@.tags[i as int], post@);
                assert(post@.tags.subrange(0, i as int).push(post@.tags[i as int])
                    =~= post@.tags.subrange(0, i as int + 1));
                assert(tag@ == post@.tags[i as int]);
            }
            i += 1;
        }
        proof {
            assert(post@.tags.subrange(0, n as int) =~= post@.tags);
        }
    }

    /// Creates a post owned by `caller`: assigns the next identifier, splits
    /// the raw tag string on commas (verbatim, empty pieces kept), stores the
    /// post, and records it under each of its tags.
    pub fn add_post(
        &mut self,
        title: String,
        description: String,
        tags: String,
        media: String,
        caller: String,
    ) -> (post: Post)
        requires
            old(self).wf(),
        ensures
            final(self).wf(),
            final(self)@ == spec_add_post(
                old(self)@,
                title@,
                description@,
                tags@,
                media@,
                caller@,
            ),
            post@ == spec_new_post(old(self)@, title@, description@, tags@, media@, caller@),
    {
        let tag_list = split_tags(tags.as_str());
        let post = Post {
            id: self.number_of_posts,
            title,
            description,
            tags: tag_list,
            media,
            users_who_liked: Vec::new(),
            owner_id: caller,
        };
        proof {
            assert(strings_view(Seq::<String>::empty()) =~= Seq::<Seq<char>>::empty());
            assert(post@ =~= spec_new_post(old(self)@, title@, description@, tags@, media@, caller@));
        }
        let n = self.posts.len();
        proof {
            assert(n as int == old(self)@.posts.len());
            assert(self.number_of_posts < u128::MAX);
        }
        self.number_of_posts = self.number_of_posts + 1;
        self.posts.push(post.clone());
        proof {
            assert(posts_view(self.posts@) =~= posts_view(old(self).posts@).push(post@));
        }
        self.add_posts_by_tag(&post);
        proof {
            lemma_add_post_preserves_wf(old(self)@, title@, description@, tags@, media@, caller@);
            assert(final(self)@ =~= spec_add_post(
                old(self)@,
                title@,
                description@,
                tags@,
                media@,
                caller@,
            ));
        }
        post
    }

    /// The stored post with the given identifier, as an owned copy.
    pub fn get_post(&self, post_id: u128) -> (r: Option<Post>)
        ensures
            r is Some <==> post_id < self@.posts.len(),
            r matches Some(p) ==> p@ == self@.posts[post_id as int],
    {
        let n = self.posts.len();
        if post_id < n as u128 {
            let p = &self.posts[post_id as usize];
            Some(p.clone())
        } else {
            None
        }
    }

    /// Every stored pair of identifier and post, in creation order.
    pub fn get_all_posts(&self) -> (r: Vec<(u128, Post)>)
        ensures
            r@.len() == self@.posts.len(),
            forall|i: int|
                0 <= i < r@.len() ==> (#[trigger] r@[i]).0 as int == i && r@[i].1@
                    == self@.posts[i],
    {
        let mut r: Vec<(u128, Post)> = Vec::new();
        let n = self.posts.len();
        let mut i: usize = 0;
        while i < n
            invariant
                i <= n,
                n == self.posts@.len(),
                r@.len() == i,
                forall|j: int|
                    0 <= j < i as int ==> (#[trigger] r@[j]).0 as int == j && r@[j].1@
                        == posts_view(self.posts@)[j],
            decreases n - i,
        {
            let p = &self.posts[i];
            r.push((i as u128, p.clone()));
            i += 1;
        }
        r
    }

    /// Records a snapshot of `post` in `sender_id`'s like history, opening
    /// the history if the user has never liked anything.
    pub fn add_post_to_my_liked(&mut self, sender_id: String, post: &Post)
        ensures
            final(self)@.likes_by_user_id == append_under_key(
                old(self)@.likes_by_user_id,
                sender_id@,
                post@,
            ),
            final(self)@.posts == old(self)@.posts,
            final(self)@.next_id == old(self)@.next_id,
            final(self)@.posts_by_tag == old(self)@.posts_by_tag,
    {
        crate::index::append_entry(&mut self.likes_by_user_id, &sender_id, post);
    }

    /// Likes the stored post with the given identifier on behalf of `caller`:
    /// appends the caller to the post's like history (repeat likes
    /// accumulate), writes the updated post back, and records a snapshot of
    /// it in the caller's like history. Fails with `NotFound`, changing
    /// nothing, where no post carries the identifier.
    pub fn like_a_post(&mut self, post_id: u128, caller: String) -> (result: Result<
        Post,
        StoreError,
    >)
        requires
            old(self).wf(),
        ensures
            final(self).wf(),
            result is Ok <==> post_id < old(self)@.posts.len(),
            result matches Ok(post) ==> final(self)@ == spec_like_post(
                old(self)@,
                post_id as int,
                caller@,
            ) && post@ == liked_post_view(old(self)@.posts[post_id as int], caller@),
            result is Err ==> final(self)@ == old(self)@ && result == Err::<Post, StoreError>(
                StoreError::NotFound,
            ),
    {
        let n = self.posts.len();
        if post_id >= n as u128 {
            return Err(StoreError::NotFound);
        }
        let idx = post_id as usize;
        let stored = &self.posts[idx];
        let mut updated = stored.clone();
        updated.users_who_liked.push(caller.clone());
        proof {
            assert(strings_view(old(self).posts@[idx as int].users_who_liked@.push(caller))
                =~= strings_view(old(self).posts@[idx as int].users_who_liked@).push(caller@));
            assert(updated@ =~= liked_post_view(old(self)@.posts[post_id as int], caller@));
        }
        let snapshot = updated.clone();
        self.posts[idx] = updated;
        proof {
            assert(posts_view(self.posts@) =~= posts_view(old(self).posts@).update(
                idx as int,
                snapshot@,
            ));
        }
        self.add_post_to_my_liked(caller, &snapshot);
        proof {
            lemma_like_preserves_wf(old(self)@, post_id as int, caller@);
            assert(final(self)@ =~= spec_like_post(old(self)@, post_id as int, caller@));
        }
        Ok(snapshot)
    }

    /// The posts that `caller` has liked, in like order, as owned snapshot
    /// copies. Fails with `NotFound` where the caller has never liked
    /// anything (an empty history and an unknown user are not
    /// distinguished).
    pub fn get_liked_posts(&self, caller: &String) -> (result: Result<Vec<Post>, StoreError>)
        ensures
            result is Ok <==> has_key(self@.likes_by_user_id, caller@),
            result matches Ok(v) ==> lookup(self@.likes_by_user_id, caller@) == Some(
                posts_view(v@),
            ),
            result matches Err(e) ==> e == StoreError::NotFound && lookup(
                self@.likes_by_user_id,
                caller@,
            ) is None,
    {
        proof {
            lemma_lookup_some_iff_has_key(self@.likes_by_user_id, caller@);
        }
        match get_entry(&self.likes_by_user_id, caller) {
            Some(v) => Ok(v),
            None => Err(StoreError::NotFound),
        }
    }

    /// The posts created with the given tag, in creation order, as owned
    /// snapshot copies taken at creation time. Fails with `NotFound` where no
    /// post was ever created with the tag.
    pub fn get_posts_by_tag(&self, tag: String) -> (result: Result<Vec<Post>, StoreError>)
        ensures
            result is Ok <==> has_key(self@.posts_by_tag, tag@),
            result matches Ok(v) ==> lookup(self@.posts_by_tag, tag@) == Some(posts_view(v@)),
            result matches Err(e) ==> e == StoreError::NotFound && lookup(
                self@.posts_by_tag,
                tag@,
            ) is None,
    {
        proof {
            lemma_lookup_some_iff_has_key(self@.posts_by_tag, tag@);
        }
        match get_entry(&self.posts_by_tag, &tag) {
            Some(v) => Ok(v),
            None => Err(StoreError::NotFound),
        }
    }
}

} // verus!
