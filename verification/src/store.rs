//! The relational store: users, posts, follow edges, tags and the post-tag
//! association, held in memory with the uniqueness and referential
//! invariants a relational schema would enforce. Row ids are positional
//! (row `i` has id `i + 1`), as an append-only table with an
//! auto-incremented key: no row in this core is ever deleted.

use vstd::prelude::*;

use crate::model::AuthUser;
use crate::model::AuthUserView;
use crate::model::Post;
use crate::model::RawPost;
use crate::model::DisplayUser;
use crate::model::DisplayUserView;
use crate::model::PostView;
use crate::model::RawPostView;
use crate::model::User;
use crate::model::UserView;

verus! {

/// A typed failure of a store operation: a uniqueness violation, or a
/// reference to a row that does not exist.
#[derive(Clone, Copy, Debug, PartialEq, Eq, Structural)]
pub enum StoreError {
    /// A uniqueness invariant would be violated.
    Conflict,
    /// A referenced row does not exist.
    NotFound,
}

/// A stored user row.
pub struct UserRow {
    pub id: i64,
    pub username: String,
    pub email: String,
    pub password: String,
    pub display_name: String,
    pub bio: String,
}

/// The mathematical value of a [`UserRow`].
pub ghost struct UserRowView {
    pub id: i64,
    pub username: Seq<char>,
    pub email: Seq<char>,
    pub password: Seq<char>,
    pub display_name: Seq<char>,
    pub bio: Seq<char>,
}

impl View for UserRow {
    type V = UserRowView;

    open spec fn view(&self) -> UserRowView {
        UserRowView {
            id: self.id,
            username: self.username@,
            email: self.email@,
            password: self.password@,
            display_name: self.display_name@,
            bio: self.bio@,
        }
    }
}

impl DeepView for UserRow {
    type V = UserRowView;

    open spec fn deep_view(&self) -> UserRowView {
        self.view()
    }
}

/// A stored post row. `thread` is the raw chain reference: a `/`-delimited
/// string of ancestor post ids, or nothing for a chain-free post.
pub struct PostRow {
    pub id: i64,
    pub user_id: i64,
    pub created: u64,
    pub body: String,
    pub summary: Option<String>,
    pub thread: Option<String>,
}

/// The mathematical value of a [`PostRow`].
pub ghost struct PostRowView {
    pub id: i64,
    pub user_id: i64,
    pub created: u64,
    pub body: Seq<char>,
    pub summary: Option<Seq<char>>,
    pub thread: Option<Seq<char>>,
}

impl View for PostRow {
    type V = PostRowView;

    open spec fn view(&self) -> PostRowView {
        PostRowView {
            id: self.id,
            user_id: self.user_id,
            created: self.created,
            body: self.body@,
            summary: self.summary.deep_view(),
            thread: self.thread.deep_view(),
        }
    }
}

impl DeepView for PostRow {
    type V = PostRowView;

    open spec fn deep_view(&self) -> PostRowView {
        self.view()
    }
}

/// A follow edge: `follower` sees `followee`'s posts in their feed. At most
/// one edge exists per ordered pair.
#[derive(Clone, Copy, Debug, PartialEq, Eq, Structural)]
pub struct FollowEdge {
    pub follower: i64,
    pub followee: i64,
    pub accepted: bool,
}

impl View for FollowEdge {
    type V = FollowEdge;

    open spec fn view(&self) -> FollowEdge {
        *self
    }
}

impl DeepView for FollowEdge {
    type V = FollowEdge;

    open spec fn deep_view(&self) -> FollowEdge {
        *self
    }
}

/// A stored tag row.
pub struct TagRow {
    pub id: i64,
    pub name: String,
}

/// The mathematical value of a [`TagRow`].
pub ghost struct TagRowView {
    pub id: i64,
    pub name: Seq<char>,
}

impl View for TagRow {
    type V = TagRowView;

    open spec fn view(&self) -> TagRowView {
        TagRowView { id: self.id, name: self.name@ }
    }
}

impl DeepView for TagRow {
    type V = TagRowView;

    open spec fn deep_view(&self) -> TagRowView {
        self.view()
    }
}

/// One row of the many-to-many association between posts and tags.
#[derive(Clone, Copy, Debug, PartialEq, Eq, Structural)]
pub struct PostTag {
    pub post_id: i64,
    pub tag_id: i64,
}

impl View for PostTag {
    type V = PostTag;

    open spec fn view(&self) -> PostTag {
        *self
    }
}

impl DeepView for PostTag {
    type V = PostTag;

    open spec fn deep_view(&self) -> PostTag {
        *self
    }
}

/// The full-row projection of a user row.
pub open spec fn user_of(r: UserRowView) -> UserView {
    UserView {
        id: r.id,
        username: r.username,
        email: r.email,
        password: r.password,
        bio: r.bio,
    }
}

/// The authentication projection of a user row.
pub open spec fn auth_user_of(r: UserRowView) -> AuthUserView {
    AuthUserView { id: r.id, username: r.username, email: r.email, password: r.password }
}

/// The public, displayable projection of a user row.
pub open spec fn display_user_of(r: UserRowView) -> DisplayUserView {
    DisplayUserView { id: r.id, username: r.username, display_name: r.display_name, bio: r.bio }
}

/// A post row joined with its author's username, chain reference included.
pub open spec fn raw_post_of(p: PostRowView, username: Seq<char>) -> RawPostView {
    RawPostView {
        id: p.id,
        username,
        thread: p.thread,
        created: p.created,
        summary: p.summary,
        body: p.body,
    }
}

/// A post row joined with its author's username, chain reference dropped.
pub open spec fn post_of(p: PostRowView, username: Seq<char>) -> PostView {
    PostView { id: p.id, username, created: p.created, summary: p.summary, body: p.body }
}

/// The mathematical value of the whole [`Store`].
pub ghost struct StoreView {
    pub users: Seq<UserRowView>,
    pub posts: Seq<PostRowView>,
    pub follows: Seq<FollowEdge>,
    pub tags: Seq<TagRowView>,
    pub post_tags: Seq<PostTag>,
}

impl StoreView {
    /// A user id resolves to a row.
    pub open spec fn valid_user_id(self, id: i64) -> bool {
        1 <= id <= self.users.len()
    }

    /// A post id resolves to a row.
    pub open spec fn valid_post_id(self, id: i64) -> bool {
        1 <= id <= self.posts.len()
    }

    /// A tag id resolves to a row.
    pub open spec fn valid_tag_id(self, id: i64) -> bool {
        1 <= id <= self.tags.len()
    }

    /// The row a valid user id resolves to.
    pub open spec fn user_row(self, id: i64) -> UserRowView
        recommends
            self.valid_user_id(id),
    {
        self.users[id - 1]
    }

    /// The row a valid post id resolves to.
    pub open spec fn post_row(self, id: i64) -> PostRowView
        recommends
            self.valid_post_id(id),
    {
        self.posts[id - 1]
    }

    /// The username of a valid user id.
    pub open spec fn username_of(self, id: i64) -> Seq<char>
        recommends
            self.valid_user_id(id),
    {
        self.user_row(id).username
    }

    /// Some user holds this username.
    pub open spec fn username_taken(self, name: Seq<char>) -> bool {
        exists|i: int| 0 <= i < self.users.len() && (#[trigger] self.users[i]).username == name
    }

    /// Some user holds this username or this email: registering the pair
    /// would violate a uniqueness invariant.
    pub open spec fn credential_conflict(self, name: Seq<char>, email: Seq<char>) -> bool {
        exists|i: int|
            0 <= i < self.users.len() && ((#[trigger] self.users[i]).username == name
                || self.users[i].email == email)
    }

    /// An edge from `follower` to `followee` exists.
    pub open spec fn follow_exists(self, follower: i64, followee: i64) -> bool {
        exists|i: int|
            0 <= i < self.follows.len() && (#[trigger] self.follows[i]).follower == follower
                && self.follows[i].followee == followee
    }

    /// An association row for this pair exists.
    pub open spec fn post_tag_exists(self, post_id: i64, tag_id: i64) -> bool {
        exists|i: int|
            0 <= i < self.post_tags.len() && (#[trigger] self.post_tags[i]).post_id == post_id
                && self.post_tags[i].tag_id == tag_id
    }

    /// A creation stamp the post table accepts: no stored post is newer.
    pub open spec fn accepts_created(self, created: u64) -> bool {
        forall|i: int| 0 <= i < self.posts.len() ==> (#[trigger] self.posts[i]).created <= created
    }

    /// User rows: positional ids, unique usernames, unique emails.
    pub open spec fn users_wf(self) -> bool {
        &&& forall|i: int| 0 <= i < self.users.len() ==> (#[trigger] self.users[i]).id == i + 1
        &&& forall|i: int, j: int|
            0 <= i < j < self.users.len() ==> #[trigger] self.users[i].username
                != #[trigger] self.users[j].username
        &&& forall|i: int, j: int|
            0 <= i < j < self.users.len() ==> #[trigger] self.users[i].email
                != #[trigger] self.users[j].email
    }

    /// Post rows: positional ids, an existing author, and a creation stamp
    /// that never decreases along the table (a monotonic-enough clock).
    pub open spec fn posts_wf(self) -> bool {
        &&& forall|i: int| 0 <= i < self.posts.len() ==> (#[trigger] self.posts[i]).id == i + 1
        &&& forall|i: int|
            0 <= i < self.posts.len() ==> self.valid_user_id((#[trigger] self.posts[i]).user_id)
        &&& forall|i: int, j: int|
            0 <= i <= j < self.posts.len() ==> #[trigger] self.posts[i].created
                <= #[trigger] self.posts[j].created
    }

    /// Follow edges: existing endpoints, at most one edge per ordered pair.
    pub open spec fn follows_wf(self) -> bool {
        &&& forall|i: int|
            0 <= i < self.follows.len() ==> self.valid_user_id(
                (#[trigger] self.follows[i]).follower,
            ) && self.valid_user_id(self.follows[i].followee)
        &&& forall|i: int, j: int|
            0 <= i < j < self.follows.len() ==> !((#[trigger] self.follows[i]).follower
                == (#[trigger] self.follows[j]).follower && self.follows[i].followee
                == self.follows[j].followee)
    }

    /// Tag rows: positional ids.
    pub open spec fn tags_wf(self) -> bool {
        forall|i: int| 0 <= i < self.tags.len() ==> (#[trigger] self.tags[i]).id == i + 1
    }

    /// Association rows: existing endpoints, at most one row per pair.
    pub open spec fn post_tags_wf(self) -> bool {
        &&& forall|i: int|
            0 <= i < self.post_tags.len() ==> self.valid_post_id(
                (#[trigger] self.post_tags[i]).post_id,
            ) && self.valid_tag_id(self.post_tags[i].tag_id)
        &&& forall|i: int, j: int|
            0 <= i < j < self.post_tags.len() ==> !((#[trigger] self.post_tags[i]).post_id
                == (#[trigger] self.post_tags[j]).post_id && self.post_tags[i].tag_id
                == self.post_tags[j].tag_id)
    }

    /// The store's schema invariants, together.
    pub open spec fn wf(self) -> bool {
        &&& self.users_wf()
        &&& self.posts_wf()
        &&& self.follows_wf()
        &&& self.tags_wf()
        &&& self.post_tags_wf()
    }

    /// The empty store.
    pub open spec fn empty() -> StoreView {
        StoreView {
            users: Seq::empty(),
            posts: Seq::empty(),
            follows: Seq::empty(),
            tags: Seq::empty(),
            post_tags: Seq::empty(),
        }
    }
}

/// How many posts a feed fetches per followee, newest first.
pub const RECENT_POST_LIMIT: usize = 50;

/// The followees of `follower`: the targets of its edges, in table order.
pub open spec fn spec_followees(follows: Seq<FollowEdge>, follower: i64) -> Seq<i64>
    decreases follows.len(),
{
    if follows.len() == 0 {
        Seq::empty()
    } else {
        let rest = spec_followees(follows.drop_last(), follower);
        if follows.last().follower == follower {
            rest.push(follows.last().followee)
        } else {
            rest
        }
    }
}

/// Up to `k` of the most recent posts by `author`, newest first: the
/// matching rows of `posts`, taken from the end of the table.
pub open spec fn spec_recent_from(posts: Seq<PostRowView>, author: i64, k: nat) -> Seq<PostRowView>
    decreases posts.len(),
{
    if posts.len() == 0 || k == 0 {
        Seq::empty()
    } else if posts.last().user_id == author {
        seq![posts.last()] + spec_recent_from(posts.drop_last(), author, (k - 1) as nat)
    } else {
        spec_recent_from(posts.drop_last(), author, k)
    }
}

/// The most recent posts of `author`, joined with the author's username,
/// chain references included.
pub open spec fn spec_recent_raw(s: StoreView, author: i64) -> Seq<RawPostView> {
    spec_recent_from(s.posts, author, RECENT_POST_LIMIT as nat).map_values(
        |p: PostRowView| raw_post_of(p, s.username_of(p.user_id)),
    )
}

/// The rows of `posts` whose id is among `ids`, joined with their authors'
/// usernames, in table order.
pub open spec fn spec_select_posts(s: StoreView, posts: Seq<PostRowView>, ids: Seq<i64>) -> Seq<
    PostView,
>
    decreases posts.len(),
{
    if posts.len() == 0 {
        Seq::empty()
    } else {
        let rest = spec_select_posts(s, posts.drop_last(), ids);
        if ids.contains(posts.last().id) {
            rest.push(post_of(posts.last(), s.username_of(posts.last().user_id)))
        } else {
            rest
        }
    }
}

/// The names of the tags attached to `post_id` through the given
/// association rows, in association order.
pub open spec fn spec_tags_from(s: StoreView, post_tags: Seq<PostTag>, post_id: i64) -> Seq<
    Seq<char>,
>
    decreases post_tags.len(),
{
    if post_tags.len() == 0 {
        Seq::empty()
    } else {
        let rest = spec_tags_from(s, post_tags.drop_last(), post_id);
        if post_tags.last().post_id == post_id {
            rest.push(s.tags[post_tags.last().tag_id - 1].name)
        } else {
            rest
        }
    }
}

/// The names of the tags attached to `post_id`, in association order.
pub open spec fn spec_tags_for(s: StoreView, post_id: i64) -> Seq<Seq<char>> {
    spec_tags_from(s, s.post_tags, post_id)
}

/// No row of `posts` is authored by `author`: nothing recent to return.
proof fn lemma_recent_from_absent_author(posts: Seq<PostRowView>, author: i64, k: nat)
    requires
        forall|i: int| 0 <= i < posts.len() ==> (#[trigger] posts[i]).user_id != author,
    ensures
        spec_recent_from(posts, author, k) == Seq::<PostRowView>::empty(),
    decreases posts.len(),
{
    if posts.len() > 0 && k > 0 {
        lemma_recent_from_absent_author(posts.drop_last(), author, k);
    }
}

/// Usernames are unique in a well-formed store: two rows holding the same
/// username are the same row.
pub proof fn lemma_username_unique(s: StoreView, i: int, j: int)
    requires
        s.users_wf(),
        0 <= i < s.users.len(),
        0 <= j < s.users.len(),
        s.users[i].username == s.users[j].username,
    ensures
        i == j,
{
    if i < j {
        assert(s.users[i].username != s.users[j].username);
    } else if j < i {
        assert(s.users[j].username != s.users[i].username);
    }
}

/// Membership of `x` in `ids`.
pub(crate) fn ids_contain(ids: &Vec<i64>, x: i64) -> (r: bool)
    ensures
        r == ids@.contains(x),
{
    let n = ids.len();
    let mut i: usize = 0;
    while i < n
        invariant
            i <= n,
            n == ids@.len(),
            forall|k: int| 0 <= k < i ==> ids@[k] != x,
        decreases n - i,
    {
        if ids[i] == x {
            return true;
        }
        i += 1;
    }
    false
}

/// The relational store itself.
pub struct Store {
    users: Vec<UserRow>,
    posts: Vec<PostRow>,
    follows: Vec<FollowEdge>,
    tags: Vec<TagRow>,
    post_tags: Vec<PostTag>,
}

impl View for Store {
    type V = StoreView;

    closed spec fn view(&self) -> StoreView {
        StoreView {
            users: self.users.deep_view(),
            posts: self.posts.deep_view(),
            follows: self.follows.deep_view(),
            tags: self.tags.deep_view(),
            post_tags: self.post_tags.deep_view(),
        }
    }
}

/// Character-wise string equality.
pub(crate) fn str_eq(a: &str, b: &str) -> (r: bool)
    ensures
        r == (a@ == b@),
{
    let alen = a.unicode_len();
    let blen = b.unicode_len();
    if alen != blen {
        return false;
    }
    let mut i: usize = 0;
    while i < alen
        invariant
            i <= alen,
            alen == a@.len(),
            blen == b@.len(),
            alen == blen,
            forall|k: int| 0 <= k < i ==> a@[k] == b@[k],
        decreases alen - i,
    {
        if a.get_char(i) != b.get_char(i) {
            return false;
        }
        i += 1;
    }
    proof {
        assert(a@ =~= b@);
    }
    true
}

impl Store {
    /// An empty store.
    pub fn new() -> (r: Store)
        ensures
            r@ == StoreView::empty(),
            r@.wf(),
    {
        let r = Store {
            users: Vec::new(),
            posts: Vec::new(),
            follows: Vec::new(),
            tags: Vec::new(),
            post_tags: Vec::new(),
        };
        proof {
            assert(r@.users =~= Seq::<UserRowView>::empty());
            assert(r@.posts =~= Seq::<PostRowView>::empty());
            assert(r@.follows =~= Seq::<FollowEdge>::empty());
            assert(r@.tags =~= Seq::<TagRowView>::empty());
            assert(r@.post_tags =~= Seq::<PostTag>::empty());
        }
        r
    }

    /// How many user rows the store holds.
    pub fn user_count(&self) -> (r: usize)
        ensures
            r == self@.users.len(),
    {
        self.users.len()
    }

    /// How many post rows the store holds.
    pub fn post_count(&self) -> (r: usize)
        ensures
            r == self@.posts.len(),
    {
        self.posts.len()
    }

    /// How many tag rows the store holds.
    pub fn tag_count(&self) -> (r: usize)
        ensures
            r == self@.tags.len(),
    {
        self.tags.len()
    }

    /// The authentication projection of the user holding `name`, if any.
    pub fn find_user_by_username(&self, name: &str) -> (r: Option<AuthUser>)
        ensures
            match r {
                Option::None => !self@.username_taken(name@),
                Option::Some(u) => exists|i: int|
                    0 <= i < self@.users.len() && (#[trigger] self@.users[i]).username == name@
                        && u@ == auth_user_of(self@.users[i]),
            },
    {
        let n = self.users.len();
        let mut i: usize = 0;
        while i < n
            invariant
                i <= n,
                n == self@.users.len(),
                forall|k: int| 0 <= k < i ==> (#[trigger] self@.users[k]).username != name@,
        decreases n - i,
        {
            let row = &self.users[i];
            if str_eq(row.username.as_str(), name) {
                proof {
                    assert(self@.users[i as int] == row@);
                }
                return Some(
                    AuthUser {
                        id: row.id,
                        username: row.username.clone(),
                        email: row.email.clone(),
                        password: row.password.clone(),
                    },
                );
            }
            i += 1;
        }
        None
    }

    /// The displayable projection of the user holding `name`, if any.
    pub fn find_display_user_by_username(&self, name: &str) -> (r: Option<DisplayUser>)
        ensures
            match r {
                Option::None => !self@.username_taken(name@),
                Option::Some(u) => exists|i: int|
                    0 <= i < self@.users.len() && (#[trigger] self@.users[i]).username == name@
                        && u@ == display_user_of(self@.users[i]),
            },
    {
        let n = self.users.len();
        let mut i: usize = 0;
        while i < n
            invariant
                i <= n,
                n == self@.users.len(),
                forall|k: int| 0 <= k < i ==> (#[trigger] self@.users[k]).username != name@,
        decreases n - i,
        {
            let row = &self.users[i];
            if str_eq(row.username.as_str(), name) {
                proof {
                    assert(self@.users[i as int] == row@);
                }
                return Some(
                    DisplayUser {
                        id: row.id,
                        username: row.username.clone(),
                        display_name: row.display_name.clone(),
                        bio: row.bio.clone(),
                    },
                );
            }
            i += 1;
        }
        None
    }

    /// The full row of the user holding `username` or `email`, if any: the
    /// advisory pre-check of registration.
    pub fn find_user_by_username_or_email(&self, username: &str, email: &str) -> (r: Option<User>)
        ensures
            match r {
                Option::None => !self@.credential_conflict(username@, email@),
                Option::Some(u) => exists|i: int|
                    0 <= i < self@.users.len() && ((#[trigger] self@.users[i]).username
                        == username@ || self@.users[i].email == email@) && u@ == user_of(
                        self@.users[i],
                    ),
            },
    {
        let n = self.users.len();
        let mut i: usize = 0;
        while i < n
            invariant
                i <= n,
                n == self@.users.len(),
                forall|k: int|
                    0 <= k < i ==> (#[trigger] self@.users[k]).username != username@
                        && self@.users[k].email != email@,
        decreases n - i,
        {
            let row = &self.users[i];
            if str_eq(row.username.as_str(), username) || str_eq(row.email.as_str(), email) {
                proof {
                    assert(self@.users[i as int] == row@);
                }
                return Some(
                    User {
                        id: row.id,
                        username: row.username.clone(),
                        email: row.email.clone(),
                        password: row.password.clone(),
                        bio: row.bio.clone(),
                    },
                );
            }
            i += 1;
        }
        None
    }

    /// The authentication projection of the user with this id, if any.
    pub fn find_user_by_id(&self, id: i64) -> (r: Option<AuthUser>)
        requires
            self@.wf(),
        ensures
            (r is Some) == self@.valid_user_id(id),
            r matches Option::Some(u) ==> u@ == auth_user_of(self@.user_row(id)),
    {
        proof {
            if self.users.len() > 0 {
                assert(self@.users[self@.users.len() - 1].id == self@.users.len() as int);
            }
        }
        if id >= 1 && id <= self.users.len() as i64 {
            let row = &self.users[(id - 1) as usize];
            Some(
                AuthUser {
                    id: row.id,
                    username: row.username.clone(),
                    email: row.email.clone(),
                    password: row.password.clone(),
                },
            )
        } else {
            None
        }
    }

    /// The displayable projection of the user with this id, if any.
    pub fn find_display_user_by_id(&self, id: i64) -> (r: Option<DisplayUser>)
        requires
            self@.wf(),
        ensures
            (r is Some) == self@.valid_user_id(id),
            r matches Option::Some(u) ==> u@ == display_user_of(self@.user_row(id)),
    {
        proof {
            if self.users.len() > 0 {
                assert(self@.users[self@.users.len() - 1].id == self@.users.len() as int);
            }
        }
        if id >= 1 && id <= self.users.len() as i64 {
            let row = &self.users[(id - 1) as usize];
            Some(
                DisplayUser {
                    id: row.id,
                    username: row.username.clone(),
                    display_name: row.display_name.clone(),
                    bio: row.bio.clone(),
                },
            )
        } else {
            None
        }
    }

    /// Inserts a user row, or surfaces the uniqueness violation as a typed
    /// conflict. The new account's display name and bio start empty.
    pub fn insert_user(&mut self, username: &str, email: &str, password_hash: String) -> (r:
        Result<i64, StoreError>)
        requires
            old(self)@.wf(),
            old(self)@.users.len() < i64::MAX,
        ensures
            final(self)@.wf(),
            match r {
                Result::Ok(id) => {
                    &&& !old(self)@.credential_conflict(username@, email@)
                    &&& id == old(self)@.users.len() + 1
                    &&& final(self)@ == (StoreView {
                        users: old(self)@.users.push(
                            UserRowView {
                                id,
                                username: username@,
                                email: email@,
                                password: password_hash@,
                                display_name: Seq::empty(),
                                bio: Seq::empty(),
                            },
                        ),
                        ..old(self)@
                    })
                },
                Result::Err(e) => {
                    &&& e == StoreError::Conflict
                    &&& old(self)@.credential_conflict(username@, email@)
                    &&& final(self)@ == old(self)@
                },
            },
    {
        if self.find_user_by_username_or_email(username, email).is_some() {
            return Err(StoreError::Conflict);
        }
        let id = (self.users.len() as i64) + 1;
        let row = UserRow {
            id,
            username: username.to_owned(),
            email: email.to_owned(),
            password: password_hash,
            display_name: String::new(),
            bio: String::new(),
        };
        self.users.push(row);
        proof {
            assert(self@.users =~= old(self)@.users.push(
                UserRowView {
                    id: id,
                    username: username@,
                    email: email@,
                    password: password_hash@,
                    display_name: Seq::empty(),
                    bio: Seq::empty(),
                },
            ));
            assert(self@.posts =~= old(self)@.posts);
            assert(self@.follows =~= old(self)@.follows);
            assert(self@.tags =~= old(self)@.tags);
            assert(self@.post_tags =~= old(self)@.post_tags);
        }
        Ok(id)
    }

    /// Whether an edge from `follower` to `followee` exists.
    pub fn has_follow(&self, follower: i64, followee: i64) -> (r: bool)
        ensures
            r == self@.follow_exists(follower, followee),
    {
        let n = self.follows.len();
        let mut i: usize = 0;
        while i < n
            invariant
                i <= n,
                n == self@.follows.len(),
                forall|k: int|
                    0 <= k < i ==> !((#[trigger] self@.follows[k]).follower == follower
                        && self@.follows[k].followee == followee),
            decreases n - i,
        {
            let e = &self.follows[i];
            if e.follower == follower && e.followee == followee {
                proof {
                    assert(self@.follows[i as int] == *e);
                }
                return true;
            }
            i += 1;
        }
        false
    }

    /// Inserts a follow edge from `follower` to `followee`, accepted; a
    /// missing endpoint or a duplicate edge is surfaced as a typed error.
    /// Following oneself is deliberately permitted: the data model only
    /// demands that the endpoints exist and the ordered pair be unique.
    pub fn insert_follow(&mut self, follower: i64, followee: i64) -> (r: Result<(), StoreError>)
        requires
            old(self)@.wf(),
        ensures
            final(self)@.wf(),
            match r {
                Result::Ok(()) => {
                    &&& old(self)@.valid_user_id(follower)
                    &&& old(self)@.valid_user_id(followee)
                    &&& !old(self)@.follow_exists(follower, followee)
                    &&& final(self)@ == (StoreView {
                        follows: old(self)@.follows.push(
                            FollowEdge { follower, followee, accepted: true },
                        ),
                        ..old(self)@
                    })
                },
                Result::Err(StoreError::NotFound) => {
                    &&& !(old(self)@.valid_user_id(follower) && old(self)@.valid_user_id(followee))
                    &&& final(self)@ == old(self)@
                },
                Result::Err(StoreError::Conflict) => {
                    &&& old(self)@.follow_exists(follower, followee)
                    &&& final(self)@ == old(self)@
                },
            },
    {
        proof {
            if self.users.len() > 0 {
                assert(self@.users[self@.users.len() - 1].id == self@.users.len() as int);
            }
        }
        let n = self.users.len() as i64;
        if !(1 <= follower && follower <= n && 1 <= followee && followee <= n) {
            return Err(StoreError::NotFound);
        }
        if self.has_follow(follower, followee) {
            return Err(StoreError::Conflict);
        }
        self.follows.push(FollowEdge { follower, followee, accepted: true });
        proof {
            assert(self@.follows =~= old(self)@.follows.push(
                FollowEdge { follower, followee, accepted: true },
            ));
            assert(self@.users =~= old(self)@.users);
            assert(self@.posts =~= old(self)@.posts);
            assert(self@.tags =~= old(self)@.tags);
            assert(self@.post_tags =~= old(self)@.post_tags);
        }
        Ok(())
    }

    /// The largest creation stamp the store holds; a new post's stamp is
    /// accepted exactly when it is not below this.
    pub fn latest_created(&self) -> (r: u64)
        requires
            self@.wf(),
        ensures
            forall|c: u64| self@.accepts_created(c) == (c >= r),
    {
        if self.posts.len() == 0 {
            0
        } else {
            let r = self.posts[self.posts.len() - 1].created;
            proof {
                assert(self@.posts[self@.posts.len() - 1] == self.posts@[self.posts@.len() - 1]@);
                assert forall|c: u64| self@.accepts_created(c) == (c >= r) by {
                    if c >= r {
                        assert forall|i: int|
                            0 <= i < self@.posts.len() implies (#[trigger] self@.posts[i]).created
                            <= c by {
                            assert(self@.posts[i].created <= self@.posts[self@.posts.len()
                                - 1].created);
                        }
                    } else {
                        assert(!self@.accepts_created(c));
                    }
                }
            }
            r
        }
    }

    /// Inserts a post row authored by `user_id`, or surfaces a missing
    /// author as a typed error. The creation stamp may not move backwards:
    /// the table is ordered by a monotonic-enough clock.
    pub fn insert_post(
        &mut self,
        user_id: i64,
        created: u64,
        body: String,
        summary: Option<String>,
        thread: Option<String>,
    ) -> (r: Result<i64, StoreError>)
        requires
            old(self)@.wf(),
            old(self)@.posts.len() < i64::MAX,
            old(self)@.accepts_created(created),
        ensures
            final(self)@.wf(),
            match r {
                Result::Ok(id) => {
                    &&& old(self)@.valid_user_id(user_id)
                    &&& id == old(self)@.posts.len() + 1
                    &&& final(self)@ == (StoreView {
                        posts: old(self)@.posts.push(
                            PostRowView {
                                id,
                                user_id,
                                created,
                                body: body@,
                                summary: summary.deep_view(),
                                thread: thread.deep_view(),
                            },
                        ),
                        ..old(self)@
                    })
                },
                Result::Err(e) => {
                    &&& e == StoreError::NotFound
                    &&& !old(self)@.valid_user_id(user_id)
                    &&& final(self)@ == old(self)@
                },
            },
    {
        proof {
            if self.users.len() > 0 {
                assert(self@.users[self@.users.len() - 1].id == self@.users.len() as int);
            }
        }
        if !(1 <= user_id && user_id <= self.users.len() as i64) {
            return Err(StoreError::NotFound);
        }
        let id = (self.posts.len() as i64) + 1;
        let ghost summary_view = summary.deep_view();
        let ghost thread_view = thread.deep_view();
        self.posts.push(PostRow { id, user_id, created, body, summary, thread });
        proof {
            assert(self@.posts =~= old(self)@.posts.push(
                PostRowView {
                    id: id,
                    user_id: user_id,
                    created: created,
                    body: body@,
                    summary: summary_view,
                    thread: thread_view,
                },
            ));
            assert(self@.users =~= old(self)@.users);
            assert(self@.follows =~= old(self)@.follows);
            assert(self@.tags =~= old(self)@.tags);
            assert(self@.post_tags =~= old(self)@.post_tags);
        }
        Ok(id)
    }

    /// Inserts a tag row and returns its id.
    pub fn insert_tag(&mut self, name: &str) -> (r: i64)
        requires
            old(self)@.wf(),
            old(self)@.tags.len() < i64::MAX,
        ensures
            final(self)@.wf(),
            r == old(self)@.tags.len() + 1,
            final(self)@ == (StoreView {
                tags: old(self)@.tags.push(TagRowView { id: r, name: name@ }),
                ..old(self)@
            }),
    {
        let id = (self.tags.len() as i64) + 1;
        self.tags.push(TagRow { id, name: name.to_owned() });
        proof {
            assert(self@.tags =~= old(self)@.tags.push(TagRowView { id: id, name: name@ }));
            assert(self@.users =~= old(self)@.users);
            assert(self@.posts =~= old(self)@.posts);
            assert(self@.follows =~= old(self)@.follows);
            assert(self@.post_tags =~= old(self)@.post_tags);
        }
        id
    }

    /// Associates a tag with a post; a missing row or a duplicate
    /// association is surfaced as a typed error.
    pub fn tag_post(&mut self, post_id: i64, tag_id: i64) -> (r: Result<(), StoreError>)
        requires
            old(self)@.wf(),
        ensures
            final(self)@.wf(),
            match r {
                Result::Ok(()) => {
                    &&& old(self)@.valid_post_id(post_id)
                    &&& old(self)@.valid_tag_id(tag_id)
                    &&& !old(self)@.post_tag_exists(post_id, tag_id)
                    &&& final(self)@ == (StoreView {
                        post_tags: old(self)@.post_tags.push(PostTag { post_id, tag_id }),
                        ..old(self)@
                    })
                },
                Result::Err(StoreError::NotFound) => {
                    &&& !(old(self)@.valid_post_id(post_id) && old(self)@.valid_tag_id(tag_id))
                    &&& final(self)@ == old(self)@
                },
                Result::Err(StoreError::Conflict) => {
                    &&& old(self)@.post_tag_exists(post_id, tag_id)
                    &&& final(self)@ == old(self)@
                },
            },
    {
        proof {
            if self.posts.len() > 0 {
                assert(self@.posts[self@.posts.len() - 1].id == self@.posts.len() as int);
            }
            if self.tags.len() > 0 {
                assert(self@.tags[self@.tags.len() - 1].id == self@.tags.len() as int);
            }
        }
        if !(1 <= post_id && post_id <= self.posts.len() as i64 && 1 <= tag_id && tag_id
            <= self.tags.len() as i64) {
            return Err(StoreError::NotFound);
        }
        let n = self.post_tags.len();
        let mut i: usize = 0;
        while i < n
            invariant
                *self == *old(self),
                old(self)@.wf(),
                old(self)@.valid_post_id(post_id),
                old(self)@.valid_tag_id(tag_id),
                i <= n,
                n == self@.post_tags.len(),
                forall|k: int|
                    0 <= k < i ==> !((#[trigger] self@.post_tags[k]).post_id == post_id
                        && self@.post_tags[k].tag_id == tag_id),
            decreases n - i,
        {
            let e = &self.post_tags[i];
            if e.post_id == post_id && e.tag_id == tag_id {
                proof {
                    assert(self@.post_tags[i as int] == *e);
                }
                return Err(StoreError::Conflict);
            }
            i += 1;
        }
        self.post_tags.push(PostTag { post_id, tag_id });
        proof {
            assert(self@.post_tags =~= old(self)@.post_tags.push(PostTag { post_id, tag_id }));
            assert(self@.users =~= old(self)@.users);
            assert(self@.posts =~= old(self)@.posts);
            assert(self@.follows =~= old(self)@.follows);
            assert(self@.tags =~= old(self)@.tags);
        }
        Ok(())
    }

    /// The ids of the users `follower` follows, in table order.
    pub fn list_followees(&self, follower: i64) -> (r: Vec<i64>)
        ensures
            r@ == spec_followees(self@.follows, follower),
    {
        let n = self.follows.len();
        let mut out: Vec<i64> = Vec::new();
        let mut i: usize = 0;
        proof {
            assert(self@.follows.take(0) =~= Seq::<FollowEdge>::empty());
        }
        while i < n
            invariant
                i <= n,
                n == self@.follows.len(),
                out@ == spec_followees(self@.follows.take(i as int), follower),
            decreases n - i,
        {
            let e = &self.follows[i];
            proof {
                assert(self@.follows[i as int] == *e);
                assert(self@.follows.take(i as int + 1).drop_last() =~= self@.follows.take(
                    i as int,
                ));
                assert(self@.follows.take(i as int + 1).last() == self@.follows[i as int]);
            }
            if e.follower == follower {
                out.push(e.followee);
            }
            i += 1;
        }
        proof {
            assert(self@.follows.take(n as int) =~= self@.follows);
        }
        out
    }

    /// Up to fifty of `author`'s most recent posts, newest first, each
    /// joined with the author's username, chain references included.
    pub fn list_recent_posts(&self, author: i64) -> (r: Vec<RawPost>)
        requires
            self@.wf(),
        ensures
            r.deep_view() == spec_recent_raw(self@, author),
            r@.len() <= RECENT_POST_LIMIT,
    {
        let username = match self.find_display_user_by_id(author) {
            Option::Some(u) => u.username,
            Option::None => {
                let out: Vec<RawPost> = Vec::new();
                proof {
                    assert forall|k: int|
                        0 <= k < self@.posts.len() implies (#[trigger] self@.posts[k]).user_id
                        != author by {
                        assert(self@.valid_user_id(self@.posts[k].user_id));
                    }
                    lemma_recent_from_absent_author(self@.posts, author, RECENT_POST_LIMIT as nat);
                    assert(out.deep_view() =~= spec_recent_raw(self@, author));
                }
                return out;
            },
        };
        let n = self.posts.len();
        let mut out: Vec<RawPost> = Vec::new();
        let ghost mut taken: Seq<PostRowView> = Seq::empty();
        let mut i: usize = n;
        proof {
            assert(self@.posts.take(n as int) =~= self@.posts);
            assert(taken + spec_recent_from(
                self@.posts.take(n as int),
                author,
                RECENT_POST_LIMIT as nat,
            ) =~= spec_recent_from(self@.posts, author, RECENT_POST_LIMIT as nat));
            assert(out.deep_view() =~= taken.map_values(
                |p: PostRowView| raw_post_of(p, username@),
            ));
        }
        while i > 0 && out.len() < RECENT_POST_LIMIT
            invariant
                self@.wf(),
                i <= n,
                n == self@.posts.len(),
                out@.len() == taken.len(),
                out@.len() <= RECENT_POST_LIMIT,
                self@.valid_user_id(author),
                username@ == self@.username_of(author),
                forall|k: int| 0 <= k < taken.len() ==> (#[trigger] taken[k]).user_id == author,
                spec_recent_from(self@.posts, author, RECENT_POST_LIMIT as nat) =~= taken
                    + spec_recent_from(
                    self@.posts.take(i as int),
                    author,
                    (RECENT_POST_LIMIT - out@.len()) as nat,
                ),
                out.deep_view() =~= taken.map_values(|p: PostRowView| raw_post_of(p, username@)),
            decreases i,
        {
            let row = &self.posts[i - 1];
            proof {
                assert(self@.posts[i as int - 1] == row@);
                assert(self@.posts.take(i as int).drop_last() =~= self@.posts.take(i as int - 1));
                assert(self@.posts.take(i as int).last() == self@.posts[i as int - 1]);
            }
            if row.user_id == author {
                let rp = RawPost {
                    id: row.id,
                    username: username.clone(),
                    thread: row.thread.clone(),
                    created: row.created,
                    summary: row.summary.clone(),
                    body: row.body.clone(),
                };
                proof {
                    assert(rp@ == raw_post_of(row@, username@));
                }
                let ghost prev_dv = out.deep_view();
                out.push(rp);
                proof {
                    let old_taken = taken;
                    taken = taken.push(row@);
                    assert(old_taken + (seq![row@] + spec_recent_from(
                        self@.posts.take(i as int - 1),
                        author,
                        (RECENT_POST_LIMIT - out@.len()) as nat,
                    )) =~= taken + spec_recent_from(
                        self@.posts.take(i as int - 1),
                        author,
                        (RECENT_POST_LIMIT - out@.len()) as nat,
                    ));
                    assert(out.deep_view() =~= prev_dv.push(rp@));
                    assert forall|k: int| 0 <= k < taken.len() implies out.deep_view()[k]
                        == raw_post_of(taken[k], username@) by {
                        if k < old_taken.len() {
                            assert(prev_dv[k] == old_taken.map_values(
                                |p: PostRowView| raw_post_of(p, username@),
                            )[k]);
                        }
                    }
                    assert(out.deep_view() =~= taken.map_values(
                        |p: PostRowView| raw_post_of(p, username@),
                    ));
                }
            }
            i -= 1;
        }
        proof {
            if i == 0 {
                assert(self@.posts.take(0) =~= Seq::<PostRowView>::empty());
            }
            assert(spec_recent_from(self@.posts, author, RECENT_POST_LIMIT as nat) =~= taken);
            assert forall|k: int|
                0 <= k < taken.len() implies #[trigger] raw_post_of(taken[k], username@)
                == raw_post_of(taken[k], self@.username_of(taken[k].user_id)) by {
                assert(taken[k].user_id == author);
            }
            assert(out.deep_view() =~= spec_recent_raw(self@, author));
        }
        out
    }

    /// The posts whose id is among `ids`, joined with their authors'
    /// usernames, in table order; tolerates an empty or singleton id set.
    pub fn list_posts_by_ids(&self, ids: &Vec<i64>) -> (r: Vec<Post>)
        requires
            self@.wf(),
        ensures
            r.deep_view() == spec_select_posts(self@, self@.posts, ids@),
    {
        let n = self.posts.len();
        let mut out: Vec<Post> = Vec::new();
        let mut i: usize = 0;
        proof {
            assert(self@.posts.take(0) =~= Seq::<PostRowView>::empty());
            assert(out.deep_view() =~= spec_select_posts(self@, self@.posts.take(0), ids@));
        }
        while i < n
            invariant
                self@.wf(),
                i <= n,
                n == self@.posts.len(),
                out.deep_view() =~= spec_select_posts(self@, self@.posts.take(i as int), ids@),
            decreases n - i,
        {
            let row = &self.posts[i];
            proof {
                assert(self@.posts[i as int] == row@);
                assert(self@.posts.take(i as int + 1).drop_last() =~= self@.posts.take(i as int));
                assert(self@.posts.take(i as int + 1).last() == self@.posts[i as int]);
                assert(self@.valid_user_id(self@.posts[i as int].user_id));
                if self.users.len() > 0 {
                    assert(self@.users[self@.users.len() - 1].id == self@.users.len() as int);
                }
            }
            if ids_contain(ids, row.id) {
                let author_row = &self.users[(row.user_id - 1) as usize];
                proof {
                    assert(self@.users[row.user_id - 1] == author_row@);
                }
                let p = Post {
                    id: row.id,
                    username: author_row.username.clone(),
                    created: row.created,
                    summary: row.summary.clone(),
                    body: row.body.clone(),
                };
                proof {
                    assert(p@ == post_of(row@, self@.username_of(row@.user_id)));
                }
                out.push(p);
                proof {
                    assert(out.deep_view() =~= spec_select_posts(
                        self@,
                        self@.posts.take(i as int + 1),
                        ids@,
                    ));
                }
            }
            i += 1;
        }
        proof {
            assert(self@.posts.take(n as int) =~= self@.posts);
        }
        out
    }

    /// The names of the tags attached to `post_id`, in association order.
    pub fn list_tags_for_post(&self, post_id: i64) -> (r: Vec<String>)
        requires
            self@.wf(),
        ensures
            r.deep_view() == spec_tags_for(self@, post_id),
    {
        let n = self.post_tags.len();
        let mut out: Vec<String> = Vec::new();
        let mut i: usize = 0;
        proof {
            assert(self@.post_tags.take(0) =~= Seq::<PostTag>::empty());
            assert(out.deep_view() =~= spec_tags_from(self@, self@.post_tags.take(0), post_id));
        }
        while i < n
            invariant
                self@.wf(),
                i <= n,
                n == self@.post_tags.len(),
                out.deep_view() =~= spec_tags_from(self@, self@.post_tags.take(i as int), post_id),
            decreases n - i,
        {
            let e = &self.post_tags[i];
            proof {
                assert(self@.post_tags[i as int] == *e);
                assert(self@.post_tags.take(i as int + 1).drop_last() =~= self@.post_tags.take(
                    i as int,
                ));
                assert(self@.post_tags.take(i as int + 1).last() == self@.post_tags[i as int]);
                assert(self@.valid_tag_id(self@.post_tags[i as int].tag_id));
                if self.tags.len() > 0 {
                    assert(self@.tags[self@.tags.len() - 1].id == self@.tags.len() as int);
                }
            }
            if e.post_id == post_id {
                let tag_row = &self.tags[(e.tag_id - 1) as usize];
                proof {
                    assert(self@.tags[e.tag_id - 1] == tag_row@);
                }
                out.push(tag_row.name.clone());
                proof {
                    assert(out.deep_view() =~= spec_tags_from(
                        self@,
                        self@.post_tags.take(i as int + 1),
                        post_id,
                    ));
                }
            }
            i += 1;
        }
        proof {
            assert(self@.post_tags.take(n as int) =~= self@.post_tags);
        }
        out
    }
}

impl AuthUser {
    /// The displayable projection of this account, if its row exists.
    pub fn get_display(&self, store: &Store) -> (r: Option<DisplayUser>)
        requires
            store@.wf(),
        ensures
            (r is Some) == store@.valid_user_id(self.id),
            r matches Option::Some(u) ==> u@ == display_user_of(store@.user_row(self.id)),
    {
        store.find_display_user_by_id(self.id)
    }

    /// Whether this account follows the user holding `name`.
    pub fn is_following(&self, name: &str, store: &Store) -> (r: bool)
        requires
            store@.wf(),
        ensures
            r == exists|j: int|
                0 <= j < store@.users.len() && (#[trigger] store@.users[j]).username == name@
                    && store@.follow_exists(self.id, store@.users[j].id),
    {
        match store.find_display_user_by_username(name) {
            Option::Some(u) => {
                let r = store.has_follow(self.id, u.id);
                proof {
                    let i = choose|i: int|
                        0 <= i < store@.users.len() && (#[trigger] store@.users[i]).username
                            == name@ && u@ == display_user_of(store@.users[i]);
                    if r {
                        assert(store@.users[i].id == u.id);
                    } else {
                        assert forall|j: int|
                            0 <= j < store@.users.len() && (#[trigger] store@.users[j]).username
                                == name@ implies !store@.follow_exists(
                            self.id,
                            store@.users[j].id,
                        ) by {
                            lemma_username_unique(store@, i, j);
                        }
                    }
                }
                r
            },
            Option::None => false,
        }
    }
}

} // verus!
