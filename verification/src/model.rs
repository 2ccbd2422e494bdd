//! Domain types: user projections, post rows and the assembled thread
//! aggregate, together with their mathematical views.

use vstd::prelude::*;

verus! {

/// A full user row: identity, unique username and email, the stored
/// password hash (never plaintext at rest) and a profile bio.
#[derive(Clone, Debug)]
pub struct User {
    pub id: i64,
    pub username: String,
    pub email: String,
    pub password: String,
    pub bio: String,
}

/// The mathematical value of a [`User`].
pub ghost struct UserView {
    pub id: i64,
    pub username: Seq<char>,
    pub email: Seq<char>,
    pub password: Seq<char>,
    pub bio: Seq<char>,
}

impl View for User {
    type V = UserView;

    open spec fn view(&self) -> UserView {
        UserView {
            id: self.id,
            username: self.username@,
            email: self.email@,
            password: self.password@,
            bio: self.bio@,
        }
    }
}

impl DeepView for User {
    type V = UserView;

    open spec fn deep_view(&self) -> UserView {
        self.view()
    }
}

/// The projection of a user that the session layer binds an identity to.
/// Its `password` field is the stored hash, used only for verification and
/// session invalidation; it is never displayed.
#[derive(Clone)]
pub struct AuthUser {
    pub id: i64,
    pub username: String,
    pub email: String,
    pub password: String,
}

/// The mathematical value of an [`AuthUser`].
pub ghost struct AuthUserView {
    pub id: i64,
    pub username: Seq<char>,
    pub email: Seq<char>,
    pub password: Seq<char>,
}

impl View for AuthUser {
    type V = AuthUserView;

    open spec fn view(&self) -> AuthUserView {
        AuthUserView {
            id: self.id,
            username: self.username@,
            email: self.email@,
            password: self.password@,
        }
    }
}

impl DeepView for AuthUser {
    type V = AuthUserView;

    open spec fn deep_view(&self) -> AuthUserView {
        self.view()
    }
}

/// The session auth hash of a user, as a sequence of characters: the stored
/// password hash itself. A session is bound to this value, so changing the
/// stored hash invalidates every session issued under the old one.
pub open spec fn spec_session_auth_hash(u: AuthUserView) -> Seq<char> {
    u.password
}

impl AuthUser {
    /// The identity the session layer persists.
    pub fn id(&self) -> (r: i64)
        ensures
            r == self.id,
    {
        self.id
    }

    /// The per-user value sessions are bound to, derived from the stored
    /// password hash: any change to the hash changes this value.
    pub fn session_auth_hash(&self) -> (r: &str)
        ensures
            r@ == spec_session_auth_hash(self@),
    {
        self.password.as_str()
    }
}

/// The public projection of a user, safe to display: no email, no hash.
#[derive(Clone, Debug)]
pub struct DisplayUser {
    pub id: i64,
    pub username: String,
    pub display_name: String,
    pub bio: String,
}

/// The mathematical value of a [`DisplayUser`].
pub ghost struct DisplayUserView {
    pub id: i64,
    pub username: Seq<char>,
    pub display_name: Seq<char>,
    pub bio: Seq<char>,
}

impl View for DisplayUser {
    type V = DisplayUserView;

    open spec fn view(&self) -> DisplayUserView {
        DisplayUserView {
            id: self.id,
            username: self.username@,
            display_name: self.display_name@,
            bio: self.bio@,
        }
    }
}

impl DeepView for DisplayUser {
    type V = DisplayUserView;

    open spec fn deep_view(&self) -> DisplayUserView {
        self.view()
    }
}

/// A post row joined with its author's username, before thread expansion:
/// `thread` is the raw chain reference, a delimited string of ancestor post
/// ids, exactly as stored.
#[derive(Debug)]
pub struct RawPost {
    pub id: i64,
    pub username: String,
    pub thread: Option<String>,
    pub created: u64,
    pub summary: Option<String>,
    pub body: String,
}

/// The mathematical value of a [`RawPost`].
pub ghost struct RawPostView {
    pub id: i64,
    pub username: Seq<char>,
    pub thread: Option<Seq<char>>,
    pub created: u64,
    pub summary: Option<Seq<char>>,
    pub body: Seq<char>,
}

impl View for RawPost {
    type V = RawPostView;

    open spec fn view(&self) -> RawPostView {
        RawPostView {
            id: self.id,
            username: self.username@,
            thread: self.thread.deep_view(),
            created: self.created,
            summary: self.summary.deep_view(),
            body: self.body@,
        }
    }
}

impl DeepView for RawPost {
    type V = RawPostView;

    open spec fn deep_view(&self) -> RawPostView {
        self.view()
    }
}

/// One displayable entry of a thread: a post joined with its author's
/// username, with the chain reference already consumed.
#[derive(Debug)]
pub struct Post {
    pub id: i64,
    pub username: String,
    pub created: u64,
    pub summary: Option<String>,
    pub body: String,
}

/// The mathematical value of a [`Post`].
pub ghost struct PostView {
    pub id: i64,
    pub username: Seq<char>,
    pub created: u64,
    pub summary: Option<Seq<char>>,
    pub body: Seq<char>,
}

impl View for Post {
    type V = PostView;

    open spec fn view(&self) -> PostView {
        PostView {
            id: self.id,
            username: self.username@,
            created: self.created,
            summary: self.summary.deep_view(),
            body: self.body@,
        }
    }
}

impl DeepView for Post {
    type V = PostView;

    open spec fn deep_view(&self) -> PostView {
        self.view()
    }
}

/// The entry a post itself contributes to its thread: the post with its
/// chain reference dropped.
pub open spec fn spec_own_entry(raw: RawPostView) -> PostView {
    PostView {
        id: raw.id,
        username: raw.username,
        created: raw.created,
        summary: raw.summary,
        body: raw.body,
    }
}

/// The assembled view of one post: the posts of its ancestor chain followed
/// by the post itself, with the tag names attached to the post. Built on
/// demand, never persisted.
#[derive(Debug)]
pub struct Thread {
    pub username: String,
    pub created: u64,
    pub contents: Vec<Post>,
    pub tags: Vec<String>,
}

/// The mathematical value of a [`Thread`].
pub ghost struct ThreadView {
    pub username: Seq<char>,
    pub created: u64,
    pub contents: Seq<PostView>,
    pub tags: Seq<Seq<char>>,
}

impl View for Thread {
    type V = ThreadView;

    open spec fn view(&self) -> ThreadView {
        ThreadView {
            username: self.username@,
            created: self.created,
            contents: self.contents.deep_view(),
            tags: self.tags.deep_view(),
        }
    }
}

impl DeepView for Thread {
    type V = ThreadView;

    open spec fn deep_view(&self) -> ThreadView {
        self.view()
    }
}

} // verus!
