use rustlab::account::Account as SimpleAccount;
use rustlab::pwdchk::account::Account;
use rustlab::pwdchk::error::Error;

#[test]
fn test_empty_login() {
    let el_account = Account::try_from(":password");
    assert!(matches!(el_account, Err(Error::EmptyLogin)));
}

#[test]
fn test_empty_password() {
    let el_account = Account::try_from("login:");
    assert!(matches!(el_account, Err(Error::EmptyPassword)));
}

#[test]
fn test_empty_lp() {
    let el_account = Account::try_from(":");
    // With neither login nor password, the empty login is reported.
    assert!(matches!(el_account, Err(Error::EmptyLogin)));
}

#[test]
fn test_nosemicolon() {
    let el_account = Account::try_from("iapeubvpdzb");
    assert!(matches!(el_account, Err(Error::NoColon)));
}

#[test]
fn test_account_creation() {
    // Lines of the form `[^:]+:.+`: the login holds no colon, and joining login and
    // password with a colon gives the line back.
    let lines = ["a:b", "johndoe:super:complex:password", "x:::", "élan:mot de passe", "u:v:"];
    for s in lines.iter() {
        let account = Account::try_from(*s).unwrap();
        assert_eq!(account.login.contains(':'), false);
        let concat = format!("{}:{}", account.login, account.password);
        assert_eq!(concat, *s);
    }
}

#[test]
fn from_str_splits_at_first_colon() {
    let account = Account::from_str("johndoe:super:complex:password").unwrap();
    assert_eq!(account.login, "johndoe");
    assert_eq!(account.password, "super:complex:password");
    let empty = Account::from_str(":").unwrap();
    assert_eq!(empty.login, "");
    assert_eq!(empty.password, "");
    assert!(matches!(Account::from_str("nocolon"), Err(Error::NoColon)));
    assert!(matches!(Account::from_str(""), Err(Error::NoColon)));
}

#[test]
fn try_from_accepts_full_lines() {
    let account = Account::try_from("alice:secret").unwrap();
    assert_eq!(account.login, "alice");
    assert_eq!(account.password, "secret");
    assert!(matches!(Account::try_from(""), Err(Error::NoColon)));
    assert!(matches!(Account::try_from("bob::"), Ok(_)));
}

#[test]
fn new_keeps_both_parts() {
    let account = Account::new("johndoe", "super:complex:password");
    assert_eq!(account.login, "johndoe");
    assert_eq!(account.password, "super:complex:password");
}

#[test]
fn group_collects_logins_by_password() {
    let accounts = vec![
        Account::new("alice", "pw1"),
        Account::new("bob", "pw2"),
        Account::new("carol", "pw1"),
        Account::new("dave", "pw3"),
        Account::new("erin", "pw1"),
    ];
    let groups = Account::group(&accounts);
    assert_eq!(groups.len(), 3);
    let find = |pw: &str| groups.iter().find(|g| g.0 == pw).unwrap().1.clone();
    assert_eq!(find("pw1"), vec!["alice", "carol", "erin"]);
    assert_eq!(find("pw2"), vec!["bob"]);
    assert_eq!(find("pw3"), vec!["dave"]);
    assert!(Account::group(&[]).is_empty());
}

#[test]
fn simple_account_from_string() {
    let account = SimpleAccount::from_string("johndoe:super:complex:password");
    assert_eq!(account.login, "johndoe");
    assert_eq!(account.password, "super:complex:password");
    let account = SimpleAccount::new("johndoe", "super:complex:password");
    assert_eq!(account.login, "johndoe");
    assert_eq!(account.password, "super:complex:password");
}

#[test]
fn accounts_from_lines_reads_each_line() {
    let lines = vec!["a:1".to_string(), "b:2:3".to_string()];
    let accounts = Account::accounts_from_lines(&lines).unwrap();
    assert_eq!(accounts.len(), 2);
    assert_eq!(accounts[1].login, "b");
    assert_eq!(accounts[1].password, "2:3");
    let bad = vec!["a:1".to_string(), "nocolon".to_string()];
    assert!(matches!(Account::accounts_from_lines(&bad), Err(Error::NoColon)));
    assert!(Account::accounts_from_lines(&vec![]).unwrap().is_empty());
}

#[test]
fn grouping_keeps_every_login() {
    let accounts = vec![
        Account::new("a", "x"),
        Account::new("b", "y"),
        Account::new("c", "x"),
        Account::new("d", "z"),
        Account::new("e", "y"),
    ];
    let groups = Account::group(&accounts);
    let total: usize = groups.iter().map(|g| g.1.len()).sum();
    assert_eq!(total, accounts.len());
}

#[test]
fn parse_from_str_trait() {
    let account: Account = "login:pass".parse().unwrap();
    assert_eq!(account.login, "login");
    assert_eq!(account.password, "pass");
}

fn logins<'a>(groups: &[(&'a str, Vec<&'a str>)], pw: &str) -> Option<Vec<&'a str>> {
    groups.iter().find(|g| g.0 == pw).map(|g| g.1.clone())
}

#[test]
fn grouping_grows_by_the_new_account_only() {
    let xs = vec![Account::new("a", "x"), Account::new("b", "y"), Account::new("c", "x")];
    let mut ys = xs.clone();
    ys.push(Account::new("d", "x"));
    let mut zs = ys.clone();
    zs.push(Account::new("e", "z"));
    let before = Account::group(&xs);
    let after = Account::group(&ys);
    let last = Account::group(&zs);
    assert_eq!(before.len(), 2);
    assert_eq!(after.len(), 2);
    let mut x_after = logins(&before, "x").unwrap();
    x_after.push("d");
    assert_eq!(logins(&after, "x"), Some(x_after));
    assert_eq!(logins(&after, "y"), logins(&before, "y"));
    assert_eq!(last.len(), 3);
    assert_eq!(logins(&last, "z"), Some(vec!["e"]));
    assert_eq!(logins(&last, "x"), logins(&after, "x"));
}
