//! The pure decisions of the login and registration flows: where to send
//! the client next. Session persistence and response rendering are the
//! embedding application's concern.

use vstd::prelude::*;

verus! {

/// Where a failed login attempt goes: back to the login form, keeping the
/// requested destination so a later success can still honour it.
pub fn login_retry_url(next: &Option<String>) -> (r: String)
    ensures
        match next {
            Option::Some(n) => r@ == "/login?next="@ + n@,
            Option::None => r@ == "/login"@,
        },
{
    match next {
        Option::Some(n) => {
            let mut url = "/login?next=".to_owned();
            url.append(n.as_str());
            url
        },
        Option::None => "/login".to_owned(),
    }
}

/// Where a failed registration goes: back to the registration form,
/// keeping the requested destination.
pub fn register_retry_url(next: &Option<String>) -> (r: String)
    ensures
        match next {
            Option::Some(n) => r@ == "/register?next="@ + n@,
            Option::None => r@ == "/register"@,
        },
{
    match next {
        Option::Some(n) => {
            let mut url = "/register?next=".to_owned();
            url.append(n.as_str());
            url
        },
        Option::None => "/register".to_owned(),
    }
}

/// Where a successful login goes: the destination the client asked for, or
/// the dashboard.
pub fn post_login_url(next: &Option<String>) -> (r: String)
    ensures
        match next {
            Option::Some(n) => r@ == n@,
            Option::None => r@ == "/dash"@,
        },
{
    match next {
        Option::Some(n) => n.clone(),
        Option::None => "/dash".to_owned(),
    }
}

} // verus!
