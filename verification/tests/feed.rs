use microblog::authentication::Backend;
use microblog::config::Config;
use microblog::feed::parse_chain;
use microblog::model::RawPost;
use microblog::store::Store;
use microblog::template::UserTemplate;
use microblog::store::StoreError;

fn store_with_users() -> Store {
    let mut store = Store::new();
    store.insert_user("alice", "a@x.com", "h1".to_string()).expect("insert succeeds");
    store.insert_user("bob", "b@x.com", "h2".to_string()).expect("insert succeeds");
    store
}

#[test]
fn parse_chain_accepts_valid_ids() {
    assert_eq!(parse_chain("12/7/3"), Some(vec![12, 7, 3]));
    assert_eq!(parse_chain("1"), Some(vec![1]));
    assert_eq!(parse_chain("9223372036854775807"), Some(vec![i64::MAX]));
}

#[test]
fn parse_chain_rejects_malformed_fragments() {
    assert_eq!(parse_chain("3//abc"), None, "an empty segment fails the whole chain");
    assert_eq!(parse_chain("abc"), None, "a non-numeric segment is rejected");
    assert_eq!(parse_chain("3/abc"), None);
    assert_eq!(parse_chain(""), None, "the empty string holds one empty segment");
    assert_eq!(parse_chain("/1"), None);
    assert_eq!(parse_chain("1/"), None);
    assert_eq!(parse_chain("0"), None, "ids are strictly positive");
    assert_eq!(parse_chain("1/0/2"), None);
    assert_eq!(parse_chain("-1"), None);
    assert_eq!(parse_chain("1; DROP TABLE posts"), None, "nothing but digits passes");
    assert_eq!(parse_chain("9223372036854775808"), None, "an overflowing id is rejected");
    assert_eq!(parse_chain("99999999999999999999999"), None);
}

#[test]
fn feed_of_loner_is_empty() {
    let mut store = store_with_users();
    store
        .insert_post(2, 1, "bob speaks".to_string(), None, None)
        .expect("insert succeeds");
    let backend = Backend::new(store);
    // alice follows nobody: nothing to show, whatever others posted
    assert_eq!(backend.get_dash_contents(1).len(), 0);
}

#[test]
fn feed_expands_chains_with_tags() {
    let mut store = store_with_users();
    // bob's first post has no chain; his second chains to the first
    let first = store
        .insert_post(2, 10, "first".to_string(), None, None)
        .expect("insert succeeds");
    assert_eq!(first, 1);
    let second = store
        .insert_post(2, 20, "second".to_string(), Some("a reply".to_string()), Some("1".to_string()))
        .expect("insert succeeds");
    assert_eq!(second, 2);
    let tag = store.insert_tag("rust");
    store.tag_post(second, tag).expect("both rows exist");
    store.insert_follow(1, 2).expect("both users exist");
    let backend = Backend::new(store);

    let dash = backend.get_dash_contents(1);
    assert_eq!(dash.len(), 2, "one thread per post of the single followee");

    // newest first: the chained post leads
    let thread = &dash[0];
    assert_eq!(thread.username, "bob");
    assert_eq!(thread.created, 20);
    assert_eq!(thread.contents.len(), 2, "the ancestor and the post itself");
    assert_eq!(thread.contents[0].id, 1);
    assert_eq!(thread.contents[0].body, "first");
    assert_eq!(thread.contents[1].id, 2);
    assert_eq!(thread.contents[1].body, "second");
    assert_eq!(thread.contents[1].summary.as_deref(), Some("a reply"));
    assert_eq!(thread.tags, vec!["rust".to_string()]);

    let plain = &dash[1];
    assert_eq!(plain.created, 10);
    assert_eq!(plain.contents.len(), 1);
    assert_eq!(plain.contents[0].id, 1);
    assert!(plain.tags.is_empty());
}

#[test]
fn malformed_chain_degrades_to_single_post() {
    let store = store_with_users();
    let raw = RawPost {
        id: 7,
        username: "bob".to_string(),
        thread: Some("3//abc".to_string()),
        created: 5,
        summary: None,
        body: "orphan".to_string(),
    };
    let thread = RawPost::into(&raw, &store);
    assert_eq!(thread.contents.len(), 1, "the malformed chain is ignored, not queried");
    assert_eq!(thread.contents[0].id, 7);
    assert_eq!(thread.contents[0].body, "orphan");
    assert_eq!(thread.username, "bob");
}

#[test]
fn unresolved_chain_degrades_to_single_post() {
    let mut store = store_with_users();
    store
        .insert_post(2, 1, "only post".to_string(), None, None)
        .expect("insert succeeds");
    let raw = RawPost {
        id: 1,
        username: "bob".to_string(),
        thread: Some("99".to_string()),
        created: 1,
        summary: None,
        body: "only post".to_string(),
    };
    let thread = RawPost::into(&raw, &store);
    assert_eq!(thread.contents.len(), 1, "a chain naming a missing post fails closed");
    assert_eq!(thread.contents[0].id, 1);
}

#[test]
fn recent_posts_are_limited_and_newest_first() {
    let mut store = store_with_users();
    for k in 1..=60u64 {
        store
            .insert_post(2, k, format!("post {}", k), None, None)
            .expect("insert succeeds");
    }
    let backend = Backend::new(store);
    let posts = backend.get_posts(2);
    assert_eq!(posts.len(), 50, "never more than the configured limit");
    assert_eq!(posts[0].created, 60, "the newest post leads");
    assert_eq!(posts[49].created, 11, "the ten oldest fell off");
    for k in 1..posts.len() {
        assert!(posts[k - 1].created >= posts[k].created, "ordered newest first");
    }
    assert!(backend.get_posts(1).is_empty(), "an author without posts has none");
    assert!(backend.get_posts(42).is_empty(), "an unknown author has none");
}

#[test]
fn posts_by_ids_tolerates_empty_and_singleton_sets() {
    let mut store = store_with_users();
    store.insert_post(2, 1, "one".to_string(), None, None).expect("insert succeeds");
    store.insert_post(1, 2, "two".to_string(), None, None).expect("insert succeeds");
    assert!(store.list_posts_by_ids(&vec![]).is_empty());
    let single = store.list_posts_by_ids(&vec![2]);
    assert_eq!(single.len(), 1);
    assert_eq!(single[0].body, "two");
    assert_eq!(single[0].username, "alice");
    let both = store.list_posts_by_ids(&vec![2, 1]);
    assert_eq!(both.len(), 2, "results come in table order, not request order");
    assert_eq!(both[0].id, 1);
    assert_eq!(both[1].id, 2);
}

#[test]
fn tags_come_back_in_association_order() {
    let mut store = store_with_users();
    let post = store.insert_post(2, 1, "tagged".to_string(), None, None).expect("insert succeeds");
    let t1 = store.insert_tag("rust");
    let t2 = store.insert_tag("verse");
    store.tag_post(post, t2).expect("rows exist");
    store.tag_post(post, t1).expect("rows exist");
    assert_eq!(store.list_tags_for_post(post), vec!["verse".to_string(), "rust".to_string()]);
    assert!(store.list_tags_for_post(99).is_empty());
    assert_eq!(store.tag_post(post, t1), Err(StoreError::Conflict));
    assert_eq!(store.tag_post(post, 9), Err(StoreError::NotFound));
    assert_eq!(store.tag_post(9, t1), Err(StoreError::NotFound));
}

#[test]
fn post_insert_requires_existing_author() {
    let mut store = store_with_users();
    assert_eq!(
        store.insert_post(9, 1, "ghost".to_string(), None, None),
        Err(StoreError::NotFound)
    );
    assert!(store.insert_post(1, 1, "real".to_string(), None, None).is_ok());
}

#[test]
fn following_is_visible() {
    let mut store = store_with_users();
    store.insert_follow(1, 2).expect("both users exist");
    let backend = Backend::new(store);
    let alice = backend.get_user_by_id(1).expect("alice exists");
    let bob = backend.get_user_by_id(2).expect("bob exists");
    assert!(alice.is_following("bob", &backend.store));
    assert!(!bob.is_following("alice", &backend.store));
    assert!(!alice.is_following("nobody", &backend.store));
    let display = alice.get_display(&backend.store).expect("alice has a row");
    assert_eq!(display.username, "alice");
}

#[test]
fn default_config_points_at_local_database() {
    let config = Config::default();
    assert_eq!(config.database_url, "sqlite:test.db");
}

#[test]
fn user_page_data_carries_profile_and_threads() {
    let mut store = store_with_users();
    store.insert_post(2, 1, "hello".to_string(), None, None).expect("insert succeeds");
    store.insert_follow(1, 2).expect("both users exist");
    let backend = Backend::new(store);
    let user = backend.get_user("bob").expect("bob exists");
    let posts = backend.get_posts(user.id);
    let threads: Vec<_> = posts.iter().map(|p| RawPost::into(p, &backend.store)).collect();
    let viewer = backend.get_user_by_id(1).expect("alice exists");
    let page = UserTemplate {
        logged_in: true,
        following: viewer.is_following("bob", &backend.store),
        user,
        posts: threads,
    };
    assert!(page.following);
    assert_eq!(page.user.username, "bob");
    assert_eq!(page.posts.len(), 1);
    assert_eq!(page.posts[0].contents[0].body, "hello");
}

#[test]
fn self_follow_is_permitted_and_feeds_own_posts() {
    let mut store = store_with_users();
    store.insert_post(1, 1, "note to self".to_string(), None, None).expect("insert succeeds");
    store.insert_follow(1, 1).expect("self-follow is a permitted edge");
    let backend = Backend::new(store);
    let dash = backend.get_dash_contents(1);
    assert_eq!(dash.len(), 1);
    assert_eq!(dash[0].contents[0].body, "note to self");
}
