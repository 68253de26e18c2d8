use rustlab::pwdchk::error::Error;
use rustlab::pwdchk::scanner::net::{
    expand_host_list, expand_net, host_port_pairs, parse_ports, tcp_ping_result, ConnectOutcome,
};
use rustlab::pwdchk::scanner::IdentificationResult;

#[test]
fn expand_net_lists_usable_hosts() {
    assert_eq!(expand_net("10.0.0.0/30"), vec!["10.0.0.1", "10.0.0.2"]);
    assert_eq!(expand_net("10.0.0.0/31"), vec!["10.0.0.0", "10.0.0.1"]);
    assert_eq!(expand_net("192.168.1.77/32"), vec!["192.168.1.77"]);
    // host bits of the address are ignored
    assert_eq!(expand_net("172.16.0.5/30"), vec!["172.16.0.5", "172.16.0.6"]);
    assert_eq!(expand_net("10.1.2.0/24").len(), 254);
    assert_eq!(expand_net("10.1.2.0/24")[253], "10.1.2.254");
}

#[test]
fn expand_net_keeps_plain_hosts() {
    assert_eq!(expand_net("example.com"), vec!["example.com"]);
    assert_eq!(expand_net("10.0.0.1"), vec!["10.0.0.1"]);
    assert_eq!(expand_net("10.0.0.0/33"), vec!["10.0.0.0/33"]);
}

#[test]
fn host_port_pairs_is_the_product() {
    let pairs = host_port_pairs(&["a", "b"], &[22, 80, 443]);
    assert_eq!(
        pairs,
        vec![("a", 22), ("a", 80), ("a", 443), ("b", 22), ("b", 80), ("b", 443)]
    );
    assert!(host_port_pairs(&["a"], &[]).is_empty());
    assert!(host_port_pairs(&[], &[1]).is_empty());
}

#[test]
fn tcp_ping_result_classifies_attempts() {
    assert!(matches!(tcp_ping_result(ConnectOutcome::TimedOut), Err(Error::Timeout)));
    assert!(matches!(
        tcp_ping_result(ConnectOutcome::Refused),
        Ok(IdentificationResult::ConnectionRefused)
    ));
    assert!(matches!(
        tcp_ping_result(ConnectOutcome::Connected(None)),
        Ok(IdentificationResult::NoWelcomeLine)
    ));
    match tcp_ping_result(ConnectOutcome::Connected(Some("SSH-2.0-OpenSSH".to_string()))) {
        Ok(IdentificationResult::WelcomeLine(s)) => assert_eq!(s, "SSH-2.0-OpenSSH"),
        _ => panic!("expected a welcome line"),
    }
}

#[test]
fn parse_ports_reads_each_entry() {
    assert_eq!(parse_ports("22,80,443").unwrap(), vec![22, 80, 443]);
    assert_eq!(parse_ports("8080").unwrap(), vec![8080]);
    assert!(matches!(parse_ports("22,http"), Err(Error::ParseIntError)));
    assert!(matches!(parse_ports("70000"), Err(Error::ParseIntError)));
    assert!(matches!(parse_ports("22,"), Err(Error::ParseIntError)));
}

#[test]
fn expand_host_list_expands_each_entry() {
    assert_eq!(
        expand_host_list("localhost,10.0.0.0/30,example.org"),
        vec!["localhost", "10.0.0.1", "10.0.0.2", "example.org"]
    );
}

#[test]
fn expand_net_reads_exactly_the_cidr_grammar() {
    // up to three digits per octet, leading zeros allowed
    assert_eq!(expand_net("010.000.0.0/30"), vec!["10.0.0.1", "10.0.0.2"]);
    // prefix of one or two digits below 33
    assert_eq!(expand_net("1.2.3.4/032"), vec!["1.2.3.4/032"]);
    assert_eq!(expand_net("1.2.3.4/32"), vec!["1.2.3.4"]);
    // octets below 256, four of them, nothing around
    assert_eq!(expand_net("256.0.0.0/8"), vec!["256.0.0.0/8"]);
    assert_eq!(expand_net("0001.2.3.4/32"), vec!["0001.2.3.4/32"]);
    assert_eq!(expand_net("1.2.3/8"), vec!["1.2.3/8"]);
    assert_eq!(expand_net("1.2.3.4.5/8"), vec!["1.2.3.4.5/8"]);
    assert_eq!(expand_net("1.2.3.4/ 8"), vec!["1.2.3.4/ 8"]);
    assert_eq!(expand_net(" 1.2.3.4/32"), vec![" 1.2.3.4/32"]);
    assert_eq!(expand_net("1.2.3.4/32/1"), vec!["1.2.3.4/32/1"]);
    assert_eq!(expand_net("1..3.4/32"), vec!["1..3.4/32"]);
}
