use vstd::prelude::*;

verus! {

/// A published content item: the identity fields (`id`, `title`,
/// `description`, `tags`, `media`, `owner_id`) are fixed at creation, while
/// `users_who_liked` is an insertion-ordered, duplicate-preserving history of
/// the users who liked the post.
pub struct Post {
    pub id: u128,
    pub title: String,
    pub description: String,
    pub tags: Vec<String>,
    pub media: String,
    pub users_who_liked: Vec<String>,
    pub owner_id: String,
}

/// The mathematical value of a `Post`: each text field as a sequence of
/// characters, the tag list and the like history as sequences of those.
#[verifier::ext_equal]
pub ghost struct PostView {
    pub id: int,
    pub title: Seq<char>,
    pub description: Seq<char>,
    pub tags: Seq<Seq<char>>,
    pub media: Seq<char>,
    pub users_who_liked: Seq<Seq<char>>,
    pub owner_id: Seq<char>,
}

/// The views of a sequence of strings.
pub open spec fn strings_view(s: Seq<String>) -> Seq<Seq<char>> {
    s.map_values(|t: String| t@)
}

/// The views of a sequence of posts.
pub open spec fn posts_view(s: Seq<Post>) -> Seq<PostView> {
    s.map_values(|p: Post| p@)
}

impl View for Post {
    type V = PostView;

    open spec fn view(&self) -> PostView {
        PostView {
            id: self.id as int,
            title: self.title@,
            description: self.description@,
            tags: strings_view(self.tags@),
            media: self.media@,
            users_who_liked: strings_view(self.users_who_liked@),
            owner_id: self.owner_id@,
        }
    }
}

/// `snap` is a copy of `cur` taken at some earlier moment: the identity
/// fields agree, and the copied like history is a prefix of the current one
/// (likes are only ever appended).
pub open spec fn snapshot_of(snap: PostView, cur: PostView) -> bool {
    &&& snap.id == cur.id
    &&& snap.title == cur.title
    &&& snap.description == cur.description
    &&& snap.tags == cur.tags
    &&& snap.media == cur.media
    &&& snap.owner_id == cur.owner_id
    &&& snap.users_who_liked.is_prefix_of(cur.users_who_liked)
}

pub proof fn lemma_prefix_refl<T>(s: Seq<T>)
    ensures
        s.is_prefix_of(s),
{
    assert(s.subrange(0, s.len() as int) =~= s);
}

pub proof fn lemma_prefix_push<T>(a: Seq<T>, b: Seq<T>, x: T)
    requires
        a.is_prefix_of(b),
    ensures
        a.is_prefix_of(b.push(x)),
{
    assert(b.push(x).subrange(0, a.len() as int) =~= b.subrange(0, a.len() as int));
}

pub proof fn lemma_prefix_trans<T>(a: Seq<T>, b: Seq<T>, c: Seq<T>)
    requires
        a.is_prefix_of(b),
        b.is_prefix_of(c),
    ensures
        a.is_prefix_of(c),
{
    assert(c.subrange(0, a.len() as int) =~= c.subrange(0, b.len() as int).subrange(
        0,
        a.len() as int,
    ));
}

pub proof fn lemma_prefix_contains<T>(a: Seq<T>, b: Seq<T>, x: T)
    requires
        a.is_prefix_of(b),
        a.contains(x),
    ensures
        b.contains(x),
{
    let i = choose|i: int| 0 <= i < a.len() && a[i] == x;
    assert(b[i] == a[i]);
}

pub(crate) fn clone_strings(v: &Vec<String>) -> (r: Vec<String>)
    ensures
        r@ == v@,
{
    let mut r: Vec<String> = Vec::new();
    let mut i: usize = 0;
    while i < v.len()
        invariant
            i <= v.len(),
            r@ == v@.subrange(0, i as int),
        decreases v.len() - i,
    {
        let s = &v[i];
        r.push(s.clone());
        proof {
            assert(r@ =~= v@.subrange(0, i as int + 1));
        }
        i += 1;
    }
    proof {
        assert(v@.subrange(0, v@.len() as int) =~= v@);
    }
    r
}

impl Clone for Post {
    /// A deep copy with the same mathematical value.
    fn clone(&self) -> (res: Self)
        ensures
            res@ == self@,
    {
        let res = Post {
            id: self.id,
            title: self.title.clone(),
            description: self.description.clone(),
            tags: clone_strings(&self.tags),
            media: self.media.clone(),
            users_who_liked: clone_strings(&self.users_who_liked),
            owner_id: self.owner_id.clone(),
        };
        proof {
            assert(res@ =~= self@);
        }
        res
    }
}

pub(crate) fn clone_posts(v: &Vec<Post>) -> (r: Vec<Post>)
    ensures
        posts_view(r@) == posts_view(v@),
{
    let mut r: Vec<Post> = Vec::new();
    let mut i: usize = 0;
    while i < v.len()
        invariant
            i <= v.len(),
            r@.len() == i,
            forall|j: int| 0 <= j < i as int ==> (#[trigger] r@[j])@ == v@[j]@,
        decreases v.len() - i,
    {
        let p = &v[i];
        r.push(p.clone());
        i += 1;
    }
    proof {
        assert(posts_view(r@) =~= posts_view(v@));
    }
    r
}

} // verus!
