//! Accounts given as `login:password` and their grouping by shared password.
use vstd::prelude::*;
use crate::pwdchk::error::Error;
use crate::counting::{all_distinct, lemma_total_occurrences, occurrences, total_occurrences};
use crate::text::split_once;

verus! {

/// A login and the password it uses.
#[derive(Debug, Clone)]
pub struct Account {
    pub login: String,
    pub password: String,
}

/// The error that a `login:password` line is refused with, if any: no colon at all,
/// an empty login (the line starts with the colon) or an empty password (the first
/// colon is the last character).
pub open spec fn account_line_error(s: Seq<char>) -> Option<Error> {
    if !s.contains(':') {
        Some(Error::NoColon)
    } else if s[0] == ':' {
        Some(Error::EmptyLogin)
    } else if s.last() == ':' && !s.drop_last().contains(':') {
        Some(Error::EmptyPassword)
    } else {
        None
    }
}

/// Which lines are refused and why: a line `login:password` (its login free of colons)
/// is accepted exactly when the login and the password are both non-empty; an empty
/// login is reported before an empty password.
pub proof fn lemma_account_line_verdict(login: Seq<char>, password: Seq<char>)
    requires
        !login.contains(':'),
    ensures
        account_line_error(login + seq![':'] + password) == if login.len() == 0 {
            Some(Error::EmptyLogin)
        } else if password.len() == 0 {
            Some(Error::EmptyPassword)
        } else {
            None
        },
{
    let s = login + seq![':'] + password;
    assert(s[login.len() as int] == ':');
    assert(s.contains(':'));
    if login.len() > 0 {
        assert(s[0] == login[0]);
        if password.len() == 0 {
            assert(s.drop_last() =~= login);
        } else {
            assert(s.last() == password.last());
            assert(s.drop_last()[login.len() as int] == ':');
        }
    }
}

/// A line without a colon is refused for that reason.
pub proof fn lemma_account_line_without_colon(s: Seq<char>)
    requires
        !s.contains(':'),
    ensures
        account_line_error(s) == Some(Error::NoColon),
{
}

/// `login` and `password` are what `s` holds around its first colon.
pub open spec fn splits_at_first_colon(s: Seq<char>, login: Seq<char>, password: Seq<char>) -> bool {
    &&& !login.contains(':')
    &&& login + seq![':'] + password == s
}

/// The logins, in order, of the accounts that use `password`.
pub open spec fn logins_with_password(accounts: Seq<Account>, password: Seq<char>) -> Seq<Seq<char>>
    decreases accounts.len(),
{
    if accounts.len() == 0 {
        Seq::empty()
    } else {
        let rest = logins_with_password(accounts.drop_last(), password);
        if accounts.last().password@ == password {
            rest.push(accounts.last().login@)
        } else {
            rest
        }
    }
}

impl Account {
    pub fn new(login: &str, password: &str) -> (account: Self)
        ensures
            account.login@ == login@,
            account.password@ == password@,
    {
        Account { login: String::from_str(login), password: String::from_str(password) }
    }

    /// Reads `login:password`: the login is the text before the first colon, the
    /// password everything after it (further colons included).
    pub fn from_str(s: &str) -> (r: Result<Account, Error>)
        ensures
            match r {
                Ok(account) => splits_at_first_colon(s@, account.login@, account.password@),
                Err(e) => e == Error::NoColon && !s@.contains(':'),
            },
    {
        match split_once(s, ':') {
            Some((login, password)) => Ok(Account { login, password }),
            None => Err(Error::NoColon),
        }
    }

    /// As `from_str`, and the login and the password must both be non-empty.
    pub fn try_from(s: &str) -> (r: Result<Account, Error>)
        ensures
            match r {
                Ok(account) => {
                    &&& account_line_error(s@) is None
                    &&& splits_at_first_colon(s@, account.login@, account.password@)
                    &&& account.login@.len() > 0
                    &&& account.password@.len() > 0
                },
                Err(e) => account_line_error(s@) == Some(e),
            },
    {
        let account = match Account::from_str(s) {
            Ok(a) => a,
            Err(e) => {
                return Err(e);
            },
        };
        proof {
            let l = account.login@;
            let p = account.password@;
            assert(s@[l.len() as int] == ':');
            assert(s@.contains(':'));
            if l.len() > 0 {
                assert(s@[0] == l[0]);
            }
            if p.len() == 0 {
                assert(s@.drop_last() =~= l);
            } else {
                assert(s@.last() == p.last());
                assert(s@.drop_last()[l.len() as int] == ':');
            }
        }
        if account.login.unicode_len() == 0 {
            return Err(Error::EmptyLogin);
        } else if account.password.unicode_len() == 0 {
            return Err(Error::EmptyPassword);
        }
        Ok(account)
    }
}

impl std::str::FromStr for Account {
    type Err = Error;

    fn from_str(s: &str) -> (r: Result<Account, Error>)
        ensures
            match r {
                Ok(account) => splits_at_first_colon(s@, account.login@, account.password@),
                Err(e) => e == Error::NoColon && !s@.contains(':'),
            },
    {
        Account::from_str(s)
    }
}

/// What `Account::group` promises: one entry per distinct password, each listing in
/// order the logins of the accounts that use it.
pub open spec fn is_password_grouping(accounts: Seq<Account>, groups: Seq<(&str, Vec<&str>)>) -> bool {
    &&& forall|i: int, j: int|
        0 <= i < j < groups.len() ==> (#[trigger] groups[i]).0@ != (#[trigger] groups[j]).0@
    &&& forall|i: int|
        0 <= i < groups.len() ==> (#[trigger] groups[i]).1@.map_values(|l: &str| l@)
            == logins_with_password(accounts, groups[i].0@)
    &&& forall|i: int|
        0 <= i < groups.len() ==> (#[trigger] groups[i]).1@.len() > 0
    &&& forall|m: int|
        0 <= m < accounts.len() ==> exists|i: int|
            0 <= i < groups.len() && (#[trigger] groups[i]).0@ == (#[trigger] accounts[m]).password@
}

/// Writing an account as `login:password` and reading the line back gives the same
/// login and password, whenever the login holds no colon: the split at the first colon
/// is the only one a line admits.
pub proof fn lemma_account_text_roundtrip(
    login: Seq<char>,
    password: Seq<char>,
    read_login: Seq<char>,
    read_password: Seq<char>,
)
    requires
        !login.contains(':'),
        splits_at_first_colon(login + seq![':'] + password, read_login, read_password),
    ensures
        read_login == login,
        read_password == password,
{
    let s = login + seq![':'] + password;
    if read_login.len() < login.len() {
        assert(s[read_login.len() as int] == ':');
        assert(login[read_login.len() as int] == ':');
        assert(login.contains(':'));
    } else if read_login.len() > login.len() {
        assert(s[login.len() as int] == ':');
        assert(read_login[login.len() as int] == ':');
        assert(read_login.contains(':'));
    }
    assert(read_login =~= s.take(login.len() as int));
    assert(login =~= s.take(login.len() as int));
    assert(read_password =~= s.skip(login.len() as int + 1));
    assert(password =~= s.skip(login.len() as int + 1));
}

proof fn lemma_logins_absent(accounts: Seq<Account>, password: Seq<char>)
    requires
        forall|m: int| 0 <= m < accounts.len() ==> (#[trigger] accounts[m]).password@ != password,
    ensures
        logins_with_password(accounts, password) == Seq::<Seq<char>>::empty(),
    decreases accounts.len(),
{
    if accounts.len() > 0 {
        lemma_logins_absent(accounts.drop_last(), password);
    }
}

/// The number of logins listed over all groups.
pub open spec fn login_count(groups: Seq<(&str, Vec<&str>)>) -> nat
    decreases groups.len(),
{
    if groups.len() == 0 {
        0
    } else {
        login_count(groups.drop_last()) + groups.last().1@.len()
    }
}

/// The passwords of the accounts, in order.
pub open spec fn passwords_of(accounts: Seq<Account>) -> Seq<Seq<char>> {
    accounts.map_values(|a: Account| a.password@)
}

proof fn lemma_logins_count(accounts: Seq<Account>, password: Seq<char>)
    ensures
        logins_with_password(accounts, password).len() == occurrences(passwords_of(accounts), password),
    decreases accounts.len(),
{
    if accounts.len() > 0 {
        assert(passwords_of(accounts).drop_last() =~= passwords_of(accounts.drop_last()));
        lemma_logins_count(accounts.drop_last(), password);
    }
}

proof fn lemma_login_count_total(accounts: Seq<Account>, groups: Seq<(&str, Vec<&str>)>)
    requires
        forall|i: int|
            0 <= i < groups.len() ==> (#[trigger] groups[i]).1@.len() == occurrences(
                passwords_of(accounts),
                groups[i].0@,
            ),
    ensures
        login_count(groups) == total_occurrences(
            groups.map_values(|g: (&str, Vec<&str>)| g.0@),
            passwords_of(accounts),
        ),
    decreases groups.len(),
{
    if groups.len() > 0 {
        let front = groups.drop_last();
        assert(forall|i: int| 0 <= i < front.len() ==> #[trigger] front[i] == groups[i]);
        lemma_login_count_total(accounts, front);
        assert(groups.map_values(|g: (&str, Vec<&str>)| g.0@).drop_last() =~= front.map_values(
            |g: (&str, Vec<&str>)| g.0@,
        ));
        assert(groups.last() == groups[groups.len() - 1]);
    }
}

/// Grouping by password keeps every account: the groups together list exactly as many
/// logins as there are accounts, each account's login under its own password.
pub proof fn lemma_grouping_keeps_every_login(accounts: Seq<Account>, groups: Seq<(&str, Vec<&str>)>)
    requires
        is_password_grouping(accounts, groups),
    ensures
        login_count(groups) == accounts.len(),
{
    let keys = groups.map_values(|g: (&str, Vec<&str>)| g.0@);
    let pws = passwords_of(accounts);
    assert forall|i: int| 0 <= i < groups.len() implies (#[trigger] groups[i]).1@.len() == occurrences(
        pws,
        groups[i].0@,
    ) by {
        lemma_logins_count(accounts, groups[i].0@);
        assert(groups[i].1@.map_values(|l: &str| l@).len() == groups[i].1@.len());
    }
    lemma_login_count_total(accounts, groups);
    assert forall|m: int| 0 <= m < pws.len() implies keys.contains(#[trigger] pws[m]) by {
        let i = choose|i: int|
            0 <= i < groups.len() && (#[trigger] groups[i]).0@ == (#[trigger] accounts[m]).password@;
        assert(keys[i] == pws[m]);
    }
    assert(all_distinct(keys)) by {
        assert forall|i: int, j: int| 0 <= i < j < keys.len() implies keys[i] != keys[j] by {
            assert(groups[i].0@ != groups[j].0@);
        }
    }
    lemma_total_occurrences(keys, pws);
}

/// The logins of a group, by their text.
pub open spec fn group_logins(group: (&str, Vec<&str>)) -> Seq<Seq<char>> {
    group.1@.map_values(|l: &str| l@)
}

proof fn lemma_logins_come_from_accounts(accounts: Seq<Account>, password: Seq<char>)
    requires
        logins_with_password(accounts, password).len() > 0,
    ensures
        exists|m: int| 0 <= m < accounts.len() && (#[trigger] accounts[m]).password@ == password,
    decreases accounts.len(),
{
    let front = accounts.drop_last();
    if accounts.last().password@ == password {
        assert(accounts[accounts.len() - 1].password@ == password);
    } else {
        lemma_logins_come_from_accounts(front, password);
        let m = choose|m: int| 0 <= m < front.len() && (#[trigger] front[m]).password@ == password;
        assert(accounts[m] == front[m]);
    }
}

/// Adding one account to the end of the list extends the grouping by that account
/// alone: every group of the shorter list is still there, with the account's login
/// appended to the group of its password; any group of the longer list is either one
/// of those or the group of the new account's password, which, if that password was
/// new, lists the new login alone.
pub proof fn lemma_group_push(
    accounts: Seq<Account>,
    a: Account,
    groups: Seq<(&str, Vec<&str>)>,
    extended: Seq<(&str, Vec<&str>)>,
)
    requires
        is_password_grouping(accounts, groups),
        is_password_grouping(accounts.push(a), extended),
    ensures
        forall|j: int|
            0 <= j < groups.len() ==> exists|i: int|
                0 <= i < extended.len() && (#[trigger] extended[i]).0@ == (#[trigger] groups[j]).0@
                    && group_logins(extended[i]) == if groups[j].0@ == a.password@ {
                    group_logins(groups[j]).push(a.login@)
                } else {
                    group_logins(groups[j])
                },
        forall|i: int|
            0 <= i < extended.len() ==> (#[trigger] extended[i]).0@ == a.password@ || exists|j: int|
                0 <= j < groups.len() && (#[trigger] groups[j]).0@ == extended[i].0@,
        (forall|j: int| 0 <= j < groups.len() ==> (#[trigger] groups[j]).0@ != a.password@)
            ==> exists|i: int|
            0 <= i < extended.len() && (#[trigger] extended[i]).0@ == a.password@ && group_logins(
                extended[i],
            ) == seq![a.login@],
{
    let ys = accounts.push(a);
    assert(ys.drop_last() =~= accounts);
    assert(ys.last() == a);
    assert forall|m: int| 0 <= m < accounts.len() implies #[trigger] ys[m] == accounts[m] by {}
    assert forall|j: int| 0 <= j < groups.len() implies exists|i: int|
        0 <= i < extended.len() && (#[trigger] extended[i]).0@ == (#[trigger] groups[j]).0@
            && group_logins(extended[i]) == if groups[j].0@ == a.password@ {
            group_logins(groups[j]).push(a.login@)
        } else {
            group_logins(groups[j])
        } by {
        let k = groups[j].0@;
        assert(group_logins(groups[j]) == logins_with_password(accounts, k));
        assert(groups[j].1@.len() > 0);
        assert(group_logins(groups[j]).len() > 0);
        lemma_logins_come_from_accounts(accounts, k);
        let m = choose|m: int| 0 <= m < accounts.len() && (#[trigger] accounts[m]).password@ == k;
        assert(ys[m].password@ == k);
        let i = choose|i: int|
            0 <= i < extended.len() && (#[trigger] extended[i]).0@ == (#[trigger] ys[m]).password@;
        assert(group_logins(extended[i]) == logins_with_password(ys, k));
    }
    assert forall|i: int| 0 <= i < extended.len() implies (#[trigger] extended[i]).0@ == a.password@
        || exists|j: int| 0 <= j < groups.len() && (#[trigger] groups[j]).0@ == extended[i].0@ by {
        let k = extended[i].0@;
        assert(group_logins(extended[i]) == logins_with_password(ys, k));
        assert(extended[i].1@.len() > 0);
        assert(group_logins(extended[i]).len() > 0);
        lemma_logins_come_from_accounts(ys, k);
        let m = choose|m: int| 0 <= m < ys.len() && (#[trigger] ys[m]).password@ == k;
        if m < accounts.len() {
            assert(accounts[m].password@ == k);
            let j = choose|j: int|
                0 <= j < groups.len() && (#[trigger] groups[j]).0@ == (#[trigger] accounts[m]).password@;
        } else {
            assert(ys[m] == a);
        }
    }
    if forall|j: int| 0 <= j < groups.len() ==> (#[trigger] groups[j]).0@ != a.password@ {
        assert forall|m: int| 0 <= m < accounts.len() implies (#[trigger] accounts[m]).password@
            != a.password@ by {
            let j = choose|j: int|
                0 <= j < groups.len() && (#[trigger] groups[j]).0@ == (#[trigger] accounts[m]).password@;
        }
        lemma_logins_absent(accounts, a.password@);
        assert(ys[ys.len() - 1] == a);
        let i = choose|i: int|
            0 <= i < extended.len() && (#[trigger] extended[i]).0@ == (#[trigger] ys[ys.len()
                - 1]).password@;
        assert(group_logins(extended[i]) == logins_with_password(ys, a.password@));
        assert(logins_with_password(ys, a.password@) =~= seq![a.login@]);
    }
}

impl Account {
    /// Reads one account per line with `from_str`; fails with the first line that
    /// holds no colon.
    pub fn accounts_from_lines(lines: &Vec<String>) -> (r: Result<Vec<Account>, Error>)
        ensures
            match r {
                Ok(accounts) => {
                    &&& accounts@.len() == lines@.len()
                    &&& forall|i: int|
                        0 <= i < lines@.len() ==> splits_at_first_colon(
                            (#[trigger] lines@[i])@,
                            accounts@[i].login@,
                            accounts@[i].password@,
                        )
                },
                Err(e) => {
                    &&& e == Error::NoColon
                    &&& exists|i: int| 0 <= i < lines@.len() && !(#[trigger] lines@[i])@.contains(':')
                },
            },
    {
        let mut accounts: Vec<Account> = Vec::new();
        let mut i: usize = 0;
        while i < lines.len()
            invariant
                i <= lines@.len(),
                accounts@.len() == i,
                forall|k: int|
                    0 <= k < i ==> splits_at_first_colon(
                        (#[trigger] lines@[k])@,
                        accounts@[k].login@,
                        accounts@[k].password@,
                    ),
            decreases lines@.len() - i,
        {
            match Account::from_str(lines[i].as_str()) {
                Ok(account) => {
                    accounts.push(account);
                },
                Err(e) => {
                    assert(!lines@[i as int]@.contains(':'));
                    return Err(e);
                },
            }
            i = i + 1;
        }
        Ok(accounts)
    }

    /// Groups the logins by password.
    pub fn group<'a>(accounts: &'a [Account]) -> (groups: Vec<(&'a str, Vec<&'a str>)>)
        ensures
            is_password_grouping(accounts@, groups@),
    {
        let mut groups: Vec<(&'a str, Vec<&'a str>)> = Vec::new();
        let mut reps: Vec<usize> = Vec::new();
        let mut m: usize = 0;
        while m < accounts.len()
            invariant
                m <= accounts.len(),
                reps@.len() == groups@.len(),
                forall|i: int|
                    0 <= i < reps@.len() ==> #[trigger] reps@[i] < m && groups@[i].0@
                        == accounts@[reps@[i] as int].password@,
                is_password_grouping(accounts@.take(m as int), groups@),
            decreases accounts.len() - m,
        {
            let ghost prev = accounts@.take(m as int);
            let ghost next = accounts@.take(m + 1);
            assert(next.drop_last() =~= prev);
            let account = &accounts[m];
            let mut j: usize = 0;
            while j < reps.len()
                invariant
                    j <= reps@.len(),
                    reps@.len() == groups@.len(),
                    m < accounts.len(),
                    account == accounts@[m as int],
                    forall|i: int|
                        0 <= i < reps@.len() ==> #[trigger] reps@[i] < m && groups@[i].0@
                            == accounts@[reps@[i] as int].password@,
                    forall|i: int| 0 <= i < j ==> (#[trigger] groups@[i]).0@ != account.password@,
                ensures
                    j <= reps@.len(),
                    j < reps@.len() ==> groups@[j as int].0@ == account.password@,
                    forall|i: int| 0 <= i < j ==> (#[trigger] groups@[i]).0@ != account.password@,
                decreases reps@.len() - j,
            {
                if accounts[reps[j]].password == account.password {
                    break;
                }
                j = j + 1;
            }
            if j < reps.len() {
                let ghost old_groups = groups@;
                let login = account.login.as_str();
                groups[j].1.push(login);
                proof {
                    assert(groups@.len() == old_groups.len());
                    assert(groups@[j as int].0 == old_groups[j as int].0);
                    assert(groups@[j as int].1@ == old_groups[j as int].1@.push(login));
                    assert(forall|i: int| 0 <= i < groups@.len() && i != j ==> groups@[i] == old_groups[i]);
                    assert forall|i: int| 0 <= i < groups@.len() implies (#[trigger] groups@[i]).1@.map_values(
                        |l: &str| l@,
                    ) == logins_with_password(next, groups@[i].0@) by {
                        if i == j {
                            assert(groups@[i].1@.map_values(|l: &str| l@) =~= old_groups[i].1@.map_values(
                                |l: &str| l@,
                            ).push(account.login@));
                        } else {
                            assert(groups@[i] == old_groups[i]);
                        }
                    }
                    assert forall|k: int| 0 <= k < next.len() implies exists|i: int|
                        0 <= i < groups@.len() && (#[trigger] groups@[i]).0@ == (
                        #[trigger] next[k]).password@ by {
                        if k < m {
                            assert(next[k] == prev[k]);
                        } else {
                            assert(groups@[j as int].0@ == next[k].password@);
                        }
                    }
                }
            } else {
                let ghost old_groups = groups@;
                let mut logins: Vec<&'a str> = Vec::new();
                logins.push(account.login.as_str());
                groups.push((account.password.as_str(), logins));
                reps.push(m);
                proof {
                    assert forall|k: int| 0 <= k < prev.len() implies (#[trigger] prev[k]).password@
                        != account.password@ by {
                        let i = choose|i: int|
                            0 <= i < old_groups.len() && (#[trigger] old_groups[i]).0@ == prev[k].password@;
                    }
                    lemma_logins_absent(prev, account.password@);
                    assert forall|i: int| 0 <= i < groups@.len() implies (#[trigger] groups@[i]).1@.map_values(
                        |l: &str| l@,
                    ) == logins_with_password(next, groups@[i].0@) by {
                        if i == old_groups.len() {
                            assert(groups@[i].1@.map_values(|l: &str| l@) =~= seq![account.login@]);
                        } else {
                            assert(groups@[i] == old_groups[i]);
                        }
                    }
                    assert forall|k: int| 0 <= k < next.len() implies exists|i: int|
                        0 <= i < groups@.len() && (#[trigger] groups@[i]).0@ == (
                        #[trigger] next[k]).password@ by {
                        if k < m {
                            assert(next[k] == prev[k]);
                            let i = choose|i: int|
                                0 <= i < old_groups.len() && (#[trigger] old_groups[i]).0@ == prev[k].password@;
                            assert(groups@[i] == old_groups[i]);
                        } else {
                            assert(groups@[old_groups.len() as int].0@ == next[k].password@);
                        }
                    }
                }
            }
            m = m + 1;
        }
        assert(accounts@.take(accounts@.len() as int) =~= accounts@);
        groups
    }
}

} // verus!
