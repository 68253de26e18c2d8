//! The first version of an account: built from its parts or read from a
//! `login:password` line that is known to hold a colon.
use vstd::prelude::*;
use crate::text::split_once;

verus! {

/// A login and the password it uses.
#[derive(Debug)]
pub struct Account {
    pub login: String,
    pub password: String,
}

impl Account {
    pub fn new(login: &str, password: &str) -> (account: Self)
        ensures
            account.login@ == login@,
            account.password@ == password@,
    {
        Account { login: String::from_str(login), password: String::from_str(password) }
    }

    /// Reads `login:password`: the login is the text before the first colon, the
    /// password everything after it, further colons included.
    pub fn from_string(s: &str) -> (account: Self)
        requires
            s@.contains(':'),
        ensures
            !account.login@.contains(':'),
            account.login@ + seq![':'] + account.password@ == s@,
    {
        match split_once(s, ':') {
            Some((login, password)) => Account { login, password },
            None => {
                proof {
                    assert(false);
                }
                Account { login: String::new(), password: String::new() }
            },
        }
    }
}

} // verus!
