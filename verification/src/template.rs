//! The data handed to the presentation layer. Rendering is outside this
//! library; these carry exactly what a page shows, and never a password.

use vstd::prelude::*;

use crate::model::DisplayUser;
use crate::model::Thread;

verus! {

/// The landing page for a visitor without a session.
pub struct HomeTemplate;

/// A user's public page: their displayable profile and their recent posts,
/// expanded into threads, with what the viewer's session knows.
pub struct UserTemplate {
    pub logged_in: bool,
    pub following: bool,
    pub user: DisplayUser,
    pub posts: Vec<Thread>,
}

} // verus!
