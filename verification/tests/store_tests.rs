use social_networking::SocialNetworking;

fn caller() -> String {
    "bob".to_string()
}

#[test]
fn add_post() {
    let mut contract = SocialNetworking::default();

    contract.add_post(
        "Test".to_string(),
        "Test Descritpion".to_string(),
        "tag1,tag2,tag3".to_string(),
        "post".to_string(),
        caller(),
    );

    let new_post = contract.get_post(0).expect("Issue getting post in test");

    assert_eq!(contract.post_count(), 1);
    assert_eq!(new_post.title, "Test".to_string());
    assert_eq!(new_post.tags, vec!["tag1", "tag2", "tag3"]);

    assert_eq!(
        contract
            .get_posts_by_tag("tag1".to_string())
            .expect("Error finding posts by tag in test")
            .get(0)
            .expect("Error getting first post in test")
            .title,
        "Test".to_string()
    )
}

#[test]
fn get_all_posts() {
    let mut contract = SocialNetworking::default();

    contract.add_post(
        "Test".to_string(),
        "Test Descritpion".to_string(),
        "tag1,tag2,tag3".to_string(),
        "post".to_string(),
        caller(),
    );
    contract.add_post(
        "Test2".to_string(),
        "Test Descritpion2".to_string(),
        "tag4,tag5,tag6".to_string(),
        "video".to_string(),
        caller(),
    );
    contract.add_post(
        "Test3".to_string(),
        "Test Descritpion3".to_string(),
        "tag1,tag5,tag7".to_string(),
        "pic".to_string(),
        caller(),
    );

    let all_posts = contract.get_all_posts();

    assert_eq!(all_posts.len(), 3);
    assert_eq!(
        all_posts
            .get(2)
            .expect("Trouble getting all posts in test")
            .1
            .title,
        "Test3"
    );
}

#[test]
fn like_a_post() {
    let mut contract = SocialNetworking::default();

    contract.add_post(
        "Test".to_string(),
        "Test Descritpion".to_string(),
        "tag1,tag2,tag3".to_string(),
        "post".to_string(),
        caller(),
    );

    contract
        .like_a_post(0, caller())
        .expect("Post not liked");

    let liked_post = contract.get_post(0).expect("Post not liked");

    assert_eq!(liked_post.users_who_liked.len(), 1);
    assert_eq!(
        liked_post
            .users_who_liked
            .get(0)
            .expect("Error finding uses who liked the post"),
        &caller()
    );
}

#[test]
fn get_liked_posts() {
    let mut contract = SocialNetworking::default();

    contract.add_post(
        "Test".to_string(),
        "Test Descritpion".to_string(),
        "tag1,tag2,tag3".to_string(),
        "post".to_string(),
        caller(),
    );
    contract.add_post(
        "Test2".to_string(),
        "Test Descritpion2".to_string(),
        "tag4,tag5,tag6".to_string(),
        "video".to_string(),
        caller(),
    );
    contract.add_post(
        "Test3".to_string(),
        "Test Descritpion3".to_string(),
        "tag1,tag5,tag7".to_string(),
        "pic".to_string(),
        caller(),
    );

    contract.like_a_post(0, caller()).expect("Post not liked");
    contract.like_a_post(1, caller()).expect("Post not liked");

    assert_eq!(
        contract
            .get_liked_posts(&caller())
            .expect("ERROR FINDING LIKED POSTS")
            .get(0)
            .expect("ERROR FINDING LIKED POSTS")
            .title,
        "Test".to_string()
    );
    assert_eq!(
        contract
            .get_liked_posts(&caller())
            .expect("ERROR FINDING LIKED POSTS")
            .len(),
        2
    );
}

#[test]
fn get_posts_by_tag() {
    let mut contract = SocialNetworking::default();

    contract.add_post(
        "Test".to_string(),
        "Test Descritpion".to_string(),
        "tag1,tag2,tag3".to_string(),
        "post".to_string(),
        caller(),
    );
    contract.add_post(
        "Test2".to_string(),
        "Test Descritpion2".to_string(),
        "tag4,tag5,tag6".to_string(),
        "video".to_string(),
        caller(),
    );
    contract.add_post(
        "Test3".to_string(),
        "Test Descritpion3".to_string(),
        "tag1,tag5,tag7".to_string(),
        "pic".to_string(),
        caller(),
    );

    let posts = contract.get_posts_by_tag("tag5".to_string()).unwrap();

    assert_eq!(posts.len(), 2);
    assert_eq!(posts.get(0).unwrap().title, "Test2".to_string());
    assert_eq!(posts.get(1).unwrap().title, "Test3".to_string());
}
