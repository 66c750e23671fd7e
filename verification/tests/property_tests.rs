use social_networking::{SocialNetworking, StoreError};

fn add(store: &mut SocialNetworking, title: &str, tags: &str, owner: &str) -> u128 {
    let post = store.add_post(
        title.to_string(),
        format!("{} description", title),
        tags.to_string(),
        "post".to_string(),
        owner.to_string(),
    );
    post.id
}

#[test]
fn created_post_is_listed_with_its_tags_and_owner() {
    let mut store = SocialNetworking::default();
    store.add_post(
        "t".to_string(),
        "d".to_string(),
        "a,b,c".to_string(),
        "m".to_string(),
        "alice".to_string(),
    );

    let all = store.get_all_posts();
    assert_eq!(all.len(), 1);
    let (id, post) = &all[0];
    assert_eq!(*id, 0);
    assert_eq!(post.tags, vec!["a", "b", "c"]);
    assert_eq!(post.owner_id, "alice".to_string());
    assert_eq!(post.title, "t".to_string());
    assert_eq!(post.users_who_liked.len(), 0);
}

#[test]
fn creation_ids_strictly_increase() {
    let mut store = SocialNetworking::default();
    let first = add(&mut store, "one", "x", "alice");
    let second = add(&mut store, "two", "y", "alice");
    assert_eq!(first, 0);
    assert_eq!(second, 1);
    assert!(second > first);
    assert_eq!(store.post_count(), 2);
}

#[test]
fn trailing_comma_keeps_empty_tag() {
    let mut store = SocialNetworking::default();
    add(&mut store, "one", "a,b,", "alice");

    let post = store.get_post(0).unwrap();
    assert_eq!(post.tags, vec!["a", "b", ""]);

    let under_empty = store.get_posts_by_tag("".to_string()).unwrap();
    assert_eq!(under_empty.len(), 1);
    assert_eq!(under_empty[0].title, "one".to_string());
}

#[test]
fn empty_tag_string_yields_one_empty_tag() {
    let mut store = SocialNetworking::default();
    add(&mut store, "one", "", "alice");
    let post = store.get_post(0).unwrap();
    assert_eq!(post.tags, vec![""]);
}

#[test]
fn duplicate_tag_records_post_twice() {
    let mut store = SocialNetworking::default();
    add(&mut store, "one", "x,x", "alice");
    let under_x = store.get_posts_by_tag("x".to_string()).unwrap();
    assert_eq!(under_x.len(), 2);
    assert_eq!(under_x[0].title, "one".to_string());
    assert_eq!(under_x[1].title, "one".to_string());
}

#[test]
fn tagged_post_appears_under_each_of_its_tags() {
    let mut store = SocialNetworking::default();
    add(&mut store, "one", "a,b", "alice");
    for tag in ["a", "b"] {
        let posts = store.get_posts_by_tag(tag.to_string()).unwrap();
        assert_eq!(posts.len(), 1);
        assert_eq!(posts[0].id, 0);
    }
}

#[test]
fn unused_tag_is_not_found() {
    let mut store = SocialNetworking::default();
    add(&mut store, "one", "a,b", "alice");
    let miss = store.get_posts_by_tag("zzz".to_string());
    assert!(matches!(miss, Err(StoreError::NotFound)));
}

#[test]
fn repeated_likes_by_same_user_accumulate() {
    let mut store = SocialNetworking::default();
    add(&mut store, "one", "a", "alice");

    store.like_a_post(0, "bob".to_string()).unwrap();
    store.like_a_post(0, "bob".to_string()).unwrap();

    let post = store.get_post(0).unwrap();
    assert_eq!(post.users_who_liked, vec!["bob", "bob"]);

    let likes = store.get_liked_posts(&"bob".to_string()).unwrap();
    assert_eq!(likes.len(), 2);
}

#[test]
fn like_of_unknown_id_fails_without_change() {
    let mut store = SocialNetworking::default();
    add(&mut store, "one", "a", "alice");

    let miss = store.like_a_post(7, "bob".to_string());
    assert!(matches!(miss, Err(StoreError::NotFound)));

    let post = store.get_post(0).unwrap();
    assert_eq!(post.users_who_liked.len(), 0);
    let likes = store.get_liked_posts(&"bob".to_string());
    assert!(matches!(likes, Err(StoreError::NotFound)));
}

#[test]
fn liked_posts_come_back_in_like_order() {
    let mut store = SocialNetworking::default();
    add(&mut store, "one", "a", "alice");
    add(&mut store, "two", "b", "alice");
    add(&mut store, "three", "c", "alice");

    store.like_a_post(0, "bob".to_string()).unwrap();
    store.like_a_post(2, "bob".to_string()).unwrap();
    store.like_a_post(1, "bob".to_string()).unwrap();

    let likes = store.get_liked_posts(&"bob".to_string()).unwrap();
    assert_eq!(likes.len(), 3);
    assert_eq!(likes[0].title, "one".to_string());
    assert_eq!(likes[1].title, "three".to_string());
    assert_eq!(likes[2].title, "two".to_string());
}

#[test]
fn user_without_likes_is_not_found() {
    let mut store = SocialNetworking::default();
    add(&mut store, "one", "a", "alice");
    let likes = store.get_liked_posts(&"nobody".to_string());
    assert!(matches!(likes, Err(StoreError::NotFound)));
}

#[test]
fn index_entries_are_snapshots_not_live_references() {
    let mut store = SocialNetworking::default();
    add(&mut store, "one", "a", "alice");

    store.like_a_post(0, "bob".to_string()).unwrap();

    // The by-tag entry was copied at creation time: the later like does not
    // appear in it, while the primary record carries it.
    let indexed = store.get_posts_by_tag("a".to_string()).unwrap();
    assert_eq!(indexed[0].users_who_liked.len(), 0);
    let primary = store.get_post(0).unwrap();
    assert_eq!(primary.users_who_liked.len(), 1);

    // The like-history entry was copied at like time: a second like does not
    // appear in the first entry.
    store.like_a_post(0, "bob".to_string()).unwrap();
    let likes = store.get_liked_posts(&"bob".to_string()).unwrap();
    assert_eq!(likes[0].users_who_liked, vec!["bob"]);
    assert_eq!(likes[1].users_who_liked, vec!["bob", "bob"]);
}

#[test]
fn liked_post_is_returned_with_the_new_like() {
    let mut store = SocialNetworking::default();
    add(&mut store, "one", "a", "alice");
    let returned = store.like_a_post(0, "bob".to_string()).unwrap();
    assert_eq!(returned.id, 0);
    assert_eq!(returned.title, "one".to_string());
    assert_eq!(returned.users_who_liked, vec!["bob"]);
}

#[test]
fn get_post_of_unknown_id_is_none() {
    let store = SocialNetworking::default();
    assert!(store.get_post(0).is_none());
}
