//! The authentication backend: registration, credential authentication and
//! session binding, orchestrated against the store and the password hasher.
//! Lookup misses and password mismatches are folded into one `None` answer,
//! so a caller cannot tell which of username or password was wrong.

use vstd::prelude::*;

use crate::hashing::MAX_PASSWORD_LEN;
use crate::hashing::generate_password_hash;
use crate::hashing::password_verifies;
use crate::hashing::verify_password_hash;
use crate::model::AuthUser;
use crate::model::AuthUserView;
use crate::model::DisplayUser;
use crate::model::RawPost;
use crate::model::RawPostView;
use crate::model::Thread;
use crate::model::spec_session_auth_hash;
use crate::param::LoginCredentials;
use crate::param::RegisterCredentials;
use crate::store::RECENT_POST_LIMIT;
use crate::store::Store;
use crate::store::StoreView;
use crate::store::UserRowView;
use crate::store::auth_user_of;
use crate::store::display_user_of;
use crate::store::lemma_username_unique;
use crate::store::spec_recent_raw;
use crate::store::str_eq;
use crate::feed::spec_dash;
use crate::feed::spec_dash_from;
use crate::feed::spec_thread_of;
use crate::feed::spec_threads_for;

verus! {

/// The backend that the session layer authenticates against. It owns the
/// store and holds no per-request state.
pub struct Backend {
    pub store: Store,
}

/// Authentication succeeds exactly when some user holds the username and
/// the password verifies against that user's stored hash.
pub open spec fn spec_auth_success(s: StoreView, username: Seq<char>, password: Seq<char>) -> bool {
    exists|i: int|
        0 <= i < s.users.len() && (#[trigger] s.users[i]).username == username
            && password_verifies(password, s.users[i].password)
}

impl Backend {
    /// A backend over the given store.
    pub fn new(store: Store) -> (r: Self)
        ensures
            r.store == store,
    {
        Backend { store }
    }

    /// Registers a new account, or reports an existing one. `None` is
    /// returned exactly when the username or the email is already taken and
    /// nothing is created; otherwise one row is appended, storing a hash
    /// that the given password verifies against, and the new account's
    /// login credentials are returned so the caller can chain directly into
    /// authentication. The password length bound is the hasher's (see
    /// [`MAX_PASSWORD_LEN`]); the id bound is the id type's.
    pub fn register(&mut self, credentials: &RegisterCredentials) -> (r: Option<LoginCredentials>)
        requires
            old(self).store@.wf(),
            old(self).store@.users.len() < i64::MAX,
            credentials.password@.len() <= MAX_PASSWORD_LEN,
        ensures
            final(self).store@.wf(),
            (r is None) == old(self).store@.credential_conflict(
                credentials.username@,
                credentials.email@,
            ),
            r is None ==> final(self).store@ == old(self).store@,
            r matches Option::Some(lc) ==> ({
                let row = final(self).store@.users.last();
                &&& lc.username@ == credentials.username@
                &&& lc.password@ == credentials.password@
                &&& lc.next.deep_view() == credentials.next.deep_view()
                &&& final(self).store@ == (StoreView {
                    users: old(self).store@.users.push(row),
                    ..old(self).store@
                })
                &&& row.id == old(self).store@.users.len() + 1
                &&& row.username == credentials.username@
                &&& row.email == credentials.email@
                &&& password_verifies(credentials.password@, row.password)
                &&& row.display_name == Seq::<char>::empty()
                &&& row.bio == Seq::<char>::empty()
            }),
    {
        let existing = self.store.find_user_by_username_or_email(
            credentials.username.as_str(),
            credentials.email.as_str(),
        );
        match existing {
            Option::Some(_) => None,
            Option::None => {
                let password_hash = generate_password_hash(credentials.password.as_str());
                match self.store.insert_user(
                    credentials.username.as_str(),
                    credentials.email.as_str(),
                    password_hash,
                ) {
                    Result::Ok(_) => Some(LoginCredentials::from(credentials)),
                    Result::Err(_) => {
                        proof {
                            assert(false);
                        }
                        None
                    },
                }
            },
        }
    }

    /// Authenticates the credentials: the user comes back exactly when the
    /// username exists and the password verifies against its stored hash;
    /// otherwise `None`, whichever of the two checks failed.
    pub fn authenticate(&self, credentials: &LoginCredentials) -> (r: Option<AuthUser>)
        requires
            self.store@.wf(),
        ensures
            (r is Some) == spec_auth_success(
                self.store@,
                credentials.username@,
                credentials.password@,
            ),
            r matches Option::Some(u) ==> exists|i: int|
                0 <= i < self.store@.users.len() && (#[trigger] self.store@.users[i]).username
                    == credentials.username@ && password_verifies(
                    credentials.password@,
                    self.store@.users[i].password,
                ) && u@ == auth_user_of(self.store@.users[i]),
    {
        match self.store.find_user_by_username(credentials.username.as_str()) {
            Option::Some(user) => {
                let ok = verify_password_hash(
                    credentials.password.as_str(),
                    user.password.as_str(),
                );
                proof {
                    let i = choose|i: int|
                        0 <= i < self.store@.users.len() && (#[trigger] self.store@.users[i]).username
                            == credentials.username@ && user@ == auth_user_of(self.store@.users[i]);
                    if !ok {
                        assert forall|j: int|
                            0 <= j < self.store@.users.len() && (#[trigger] self.store@.users[j]).username
                                == credentials.username@ implies !password_verifies(
                            credentials.password@,
                            self.store@.users[j].password,
                        ) by {
                            lemma_username_unique(self.store@, i, j);
                        }
                    }
                }
                if ok {
                    Some(user)
                } else {
                    None
                }
            },
            Option::None => None,
        }
    }

    /// The displayable projection of the user holding `username`, if any.
    pub fn get_user(&self, username: &str) -> (r: Option<DisplayUser>)
        ensures
            match r {
                Option::None => !self.store@.username_taken(username@),
                Option::Some(u) => exists|i: int|
                    0 <= i < self.store@.users.len() && (#[trigger] self.store@.users[i]).username
                        == username@ && u@ == display_user_of(self.store@.users[i]),
            },
    {
        self.store.find_display_user_by_username(username)
    }

    /// The identity a persisted session id resolves to, if its row exists.
    pub fn get_user_by_id(&self, user_id: i64) -> (r: Option<AuthUser>)
        requires
            self.store@.wf(),
        ensures
            (r is Some) == self.store@.valid_user_id(user_id),
            r matches Option::Some(u) ==> u@ == auth_user_of(self.store@.user_row(user_id)),
    {
        self.store.find_user_by_id(user_id)
    }

    /// Up to fifty of `user_id`'s most recent posts, newest first.
    pub fn get_posts(&self, user_id: i64) -> (r: Vec<RawPost>)
        requires
            self.store@.wf(),
        ensures
            r.deep_view() == spec_recent_raw(self.store@, user_id),
            r@.len() <= RECENT_POST_LIMIT,
    {
        self.store.list_recent_posts(user_id)
    }

    /// The dashboard feed of `user_id`: for each followee, in edge order,
    /// that followee's recent posts, newest first, each expanded into its
    /// thread.
    #[verifier::loop_isolation(false)]
    pub fn get_dash_contents(&self, user_id: i64) -> (r: Vec<Thread>)
        requires
            self.store@.wf(),
        ensures
            r.deep_view() == spec_dash(self.store@, user_id),
    {
        let ghost s = self.store@;
        let mut result: Vec<Thread> = Vec::new();
        let follows = self.store.list_followees(user_id);
        let n = follows.len();
        let mut i: usize = 0;
        proof {
            assert(follows@.take(0) =~= Seq::<i64>::empty());
            assert(result.deep_view() =~= spec_dash_from(s, follows@.take(0)));
        }
        while i < n
            invariant
                i <= n,
                result.deep_view() == spec_dash_from(s, follows@.take(i as int)),
            decreases n - i,
        {
            let f = follows[i];
            let posts = self.store.list_recent_posts(f);
            let ghost all = posts.deep_view();
            let ghost base = result.deep_view();
            let m = posts.len();
            let mut j: usize = 0;
            while j < m
                invariant
                    j <= m,
                    m == posts@.len(),
                    result.deep_view().len() == base.len() + j,
                    forall|k: int| 0 <= k < base.len() ==> result.deep_view()[k] == base[k],
                    forall|k: int|
                        0 <= k < j ==> result.deep_view()[base.len() + k] == spec_thread_of(
                            s,
                            all[k],
                        ),
                decreases m - j,
            {
                let t = RawPost::into(&posts[j], &self.store);
                proof {
                    assert(posts.deep_view()[j as int] == posts@[j as int]@);
                    assert(t@ == spec_thread_of(s, all[j as int]));
                }
                let ghost prev_dv = result.deep_view();
                result.push(t);
                proof {
                    assert(result.deep_view() =~= prev_dv.push(t@));
                }
                j += 1;
            }
            proof {
                assert forall|k: int|
                    0 <= k < all.len() implies spec_threads_for(s, f)[k] == spec_thread_of(
                    s,
                    all[k],
                ) by {}
                assert(result.deep_view() =~= base + spec_threads_for(s, f));
                assert(follows@.take(i as int + 1).drop_last() =~= follows@.take(i as int));
                assert(follows@.take(i as int + 1).last() == follows@[i as int]);
                assert(result.deep_view() =~= spec_dash_from(s, follows@.take(i as int + 1)));
            }
            i += 1;
        }
        proof {
            assert(follows@.take(n as int) =~= follows@);
        }
        result
    }
}

/// Whether a session bound to `session_hash` is still valid for `user`:
/// exactly when the stored hash has not changed since the session was
/// issued. A session bound to a stale hash is rejected.
pub fn session_valid(user: &AuthUser, session_hash: &str) -> (r: bool)
    ensures
        r == (session_hash@ == spec_session_auth_hash(user@)),
{
    str_eq(session_hash, user.password.as_str())
}

/// Registration immediately followed by authentication with the same
/// credentials succeeds: in the store a successful registration leaves
/// behind, the new username resolves to the row just created, whose stored
/// hash the registered password verifies against.
pub proof fn lemma_register_then_authenticate(
    s: StoreView,
    row: UserRowView,
    password: Seq<char>,
)
    requires
        s.wf(),
        !s.credential_conflict(row.username, row.email),
        password_verifies(password, row.password),
    ensures
        ({
            let s2 = StoreView { users: s.users.push(row), ..s };
            &&& spec_auth_success(s2, row.username, password)
            &&& forall|i: int|
                0 <= i < s2.users.len() && (#[trigger] s2.users[i]).username == row.username
                    ==> s2.users[i] == row
        }),
{
    let s2 = StoreView { users: s.users.push(row), ..s };
    assert(s2.users[s.users.len() as int] == row);
    assert(spec_auth_success(s2, row.username, password));
    assert forall|i: int|
        0 <= i < s2.users.len() && (#[trigger] s2.users[i]).username == row.username implies s2.users[i]
        == row by {
        if i < s.users.len() {
            assert(s.users[i] == s2.users[i]);
            assert(s.credential_conflict(row.username, row.email));
        }
    }
}

/// Of two registrations claiming the same username, the second observes a
/// conflict: once the first has appended its row, the username is taken,
/// whatever email the second presents.
pub proof fn lemma_duplicate_register_conflicts(
    s: StoreView,
    row: UserRowView,
    email2: Seq<char>,
)
    ensures
        ({
            let s2 = StoreView { users: s.users.push(row), ..s };
            s2.credential_conflict(row.username, email2)
        }),
{
    let s2 = StoreView { users: s.users.push(row), ..s };
    assert(s2.users[s.users.len() as int] == row);
}

/// However two registrations claiming one username interleave, at most one
/// succeeds. The store serializes its writers, so an interleaving is one of
/// the two orders; a well-formed store never holds two rows with the
/// username, and once any row holds it, a registration presenting it
/// observes the conflict — whatever email it brings — and creates nothing,
/// by `register`'s contract.
pub proof fn lemma_at_most_one_registration_succeeds(s: StoreView, username: Seq<char>)
    requires
        s.wf(),
    ensures
        forall|i: int, j: int|
            0 <= i < s.users.len() && 0 <= j < s.users.len() && (#[trigger] s.users[i]).username
                == username && (#[trigger] s.users[j]).username == username ==> i == j,
        s.username_taken(username) ==> forall|email: Seq<char>| #[trigger] s.credential_conflict(
            username,
            email,
        ),
{
    assert forall|i: int, j: int|
        0 <= i < s.users.len() && 0 <= j < s.users.len() && (#[trigger] s.users[i]).username
            == username && (#[trigger] s.users[j]).username == username implies i == j by {
        lemma_username_unique(s, i, j);
    }
    if s.username_taken(username) {
        let w = choose|w: int|
            0 <= w < s.users.len() && (#[trigger] s.users[w]).username == username;
        assert forall|email: Seq<char>| #[trigger] s.credential_conflict(
            username,
            email,
        ) by {
            assert(s.users[w].username == username);
        }
    }
}

/// The session auth hash of a user changes exactly when the stored password
/// hash changes: sessions bound to it survive exactly the states in which
/// the hash is untouched.
pub proof fn lemma_session_hash_tracks_password(u1: AuthUserView, u2: AuthUserView)
    ensures
        (spec_session_auth_hash(u1) == spec_session_auth_hash(u2)) == (u1.password == u2.password),
{
}

} // verus!
