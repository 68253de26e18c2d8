use rustlab::pwdchk::account::Account;
use rustlab::pwdchk::error::Error;
use rustlab::pwdchk::hibp::{
    all_sha1, breach_report, count_for, parse_suffix_line, parse_suffixes, sha1, sha1_by_prefix,
    sort_by_count,
};

#[test]
fn sha1_splits_the_upper_hex_digest() {
    // SHA-1("password") = 5BAA61E4C9B93F3F0682250B6CF8331B7EE68FD8
    let (prefix, suffix) = sha1(&Account::new("john", "password"));
    assert_eq!(prefix, "5BAA6");
    assert_eq!(suffix, "1E4C9B93F3F0682250B6CF8331B7EE68FD8");
    // SHA-1("") = DA39A3EE5E6B4B0D3255BFEF95601890AFD80709
    let (prefix, suffix) = sha1(&Account::new("nobody", ""));
    assert_eq!(prefix, "DA39A");
    assert_eq!(suffix, "3EE5E6B4B0D3255BFEF95601890AFD80709");
}

#[test]
fn all_sha1_keeps_the_order() {
    let accounts = vec![Account::new("a", "password"), Account::new("b", "")];
    let hashes = all_sha1(&accounts);
    assert_eq!(hashes.len(), 2);
    assert_eq!(hashes[0].0, "5BAA6");
    assert_eq!(hashes[1].0, "DA39A");
    assert_eq!(hashes[1].2.login, "b");
}

#[test]
fn sha1_by_prefix_groups_equal_prefixes() {
    let accounts = vec![
        Account::new("a", "password"),
        Account::new("b", ""),
        Account::new("c", "password"),
    ];
    let groups = sha1_by_prefix(&accounts);
    assert_eq!(groups.len(), 2);
    let g = groups.iter().find(|g| g.0 == "5BAA6").unwrap();
    assert_eq!(g.1.len(), 2);
    assert_eq!(g.1[0].1.login, "a");
    assert_eq!(g.1[1].1.login, "c");
    assert_eq!(g.1[0].0, "1E4C9B93F3F0682250B6CF8331B7EE68FD8");
}

#[test]
fn parse_suffix_line_reads_suffix_and_count() {
    let (suffix, count) = parse_suffix_line("1E4C9B93F3F0682250B6CF8331B7EE68FD8:9659365").unwrap();
    assert_eq!(suffix, "1E4C9B93F3F0682250B6CF8331B7EE68FD8");
    assert_eq!(count, 9659365);
    assert_eq!(parse_suffix_line("AB:+7").unwrap().1, 7);
    assert_eq!(parse_suffix_line("AB:3:junk").unwrap().1, 3);
    assert_eq!(parse_suffix_line("AB:18446744073709551615").unwrap().1, u64::MAX);
    assert!(matches!(parse_suffix_line("AB:18446744073709551616"), Err(Error::ParseIntError)));
    assert!(matches!(parse_suffix_line("AB:"), Err(Error::ParseIntError)));
    assert!(matches!(parse_suffix_line("AB:+"), Err(Error::ParseIntError)));
    assert!(matches!(parse_suffix_line("AB:-1"), Err(Error::ParseIntError)));
    assert!(matches!(parse_suffix_line("AB: 1"), Err(Error::ParseIntError)));
}

#[test]
fn parse_suffixes_stops_at_a_bad_count() {
    let good = vec!["AA:1".to_string(), "BB:22".to_string()];
    let entries = parse_suffixes(&good).unwrap();
    assert_eq!(entries, vec![("AA".to_string(), 1), ("BB".to_string(), 22)]);
    let bad = vec!["AA:1".to_string(), "BB:x".to_string()];
    assert!(matches!(parse_suffixes(&bad), Err(Error::ParseIntError)));
    // a bad count decides before a later line without a colon is reached
    let bad_then_colonless = vec!["AA:x".to_string(), "no colon".to_string()];
    assert!(matches!(parse_suffixes(&bad_then_colonless), Err(Error::ParseIntError)));
}

#[test]
fn count_for_takes_the_last_entry_or_zero() {
    let page = vec![("AA".to_string(), 1), ("BB".to_string(), 2), ("AA".to_string(), 3)];
    assert_eq!(count_for(&page, &"AA".to_string()), 3);
    assert_eq!(count_for(&page, &"BB".to_string()), 2);
    assert_eq!(count_for(&page, &"CC".to_string()), 0);
}

#[test]
fn breach_report_is_sorted_and_complete() {
    let accounts = vec![
        Account::new("a", "password"),
        Account::new("b", ""),
        Account::new("c", "password"),
        Account::new("d", "hunter2"),
    ];
    let groups = sha1_by_prefix(&accounts);
    let pages: Vec<Vec<(String, u64)>> = groups
        .iter()
        .map(|g| {
            if g.0 == "5BAA6" {
                vec![("1E4C9B93F3F0682250B6CF8331B7EE68FD8".to_string(), 42)]
            } else if g.0 == "DA39A" {
                vec![("3EE5E6B4B0D3255BFEF95601890AFD80709".to_string(), 7)]
            } else {
                vec![]
            }
        })
        .collect();
    let report = breach_report(&groups, &pages);
    assert_eq!(report.len(), 4);
    let counts: Vec<u64> = report.iter().map(|r| r.1).collect();
    assert_eq!(counts, vec![0, 7, 42, 42]);
    assert_eq!(report[0].0.login, "d");
    assert_eq!(report[1].0.login, "b");
}

#[test]
fn sort_by_count_orders_rows() {
    let a = Account::new("a", "x");
    let b = Account::new("b", "y");
    let c = Account::new("c", "z");
    let sorted = sort_by_count(vec![(&a, 5), (&b, 1), (&c, 3)]);
    let logins: Vec<&str> = sorted.iter().map(|r| r.0.login.as_str()).collect();
    assert_eq!(logins, vec!["b", "c", "a"]);
}

#[test]
fn prefix_and_suffix_rejoin_to_the_hash() {
    let (prefix, suffix) = sha1(&Account::new("x", "hunter2"));
    let full = format!("{}{}", prefix, suffix);
    assert_eq!(full.len(), 40);
    // SHA-1("hunter2") = F3BBBD66A63D4BF1747940578EC3D0103530E21D
    assert_eq!(full, "F3BBBD66A63D4BF1747940578EC3D0103530E21D");
}
