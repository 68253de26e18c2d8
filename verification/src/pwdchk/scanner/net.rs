//! The scanner's planning and decisions. Resolving names, connecting and reading
//! greetings is I/O and happens in the program; it reports here what it saw.
use vstd::prelude::*;
use ipnet::Ipv4Net;
use vstd::arithmetic::power2::pow2;
use crate::pwdchk::error::Error;
use crate::pwdchk::scanner::IdentificationResult;
use crate::text::{
    after_first, before_first, digits_value, ipv4_text, is_decimal_digit, lemma_ipv4_text_fields,
    parse_u16, parsed_u16, parsed_u64, push_ipv4, split_list, split_pieces,
};

verus! {

/// `target` paired with each port, in order.
pub open spec fn port_pairs<'a>(target: &'a str, ports: Seq<u16>) -> Seq<(&'a str, u16)> {
    ports.map_values(|p: u16| (target, p))
}

/// Every target paired with every port, targets in order and, for each target, the
/// ports in order.
pub fn host_port_pairs<'a>(targets: &[&'a str], ports: &[u16]) -> (pairs: Vec<(&'a str, u16)>)
    ensures
        pairs@ == targets@.flat_map(|t: &'a str| port_pairs(t, ports@)),
        pairs@.len() == targets@.len() * ports@.len(),
{
    let ghost f = |t: &'a str| port_pairs(t, ports@);
    let mut pairs: Vec<(&'a str, u16)> = Vec::new();
    let mut i: usize = 0;
    assert(targets@.take(0).flat_map(f) =~= Seq::<(&'a str, u16)>::empty()) by {
        assert(targets@.take(0).map_values(f) =~= Seq::<Seq<(&'a str, u16)>>::empty());
    }
    while i < targets.len()
        invariant
            f == (|t: &'a str| port_pairs(t, ports@)),
            i <= targets@.len(),
            pairs@ == targets@.take(i as int).flat_map(f),
            pairs@.len() == i * ports@.len(),
        decreases targets@.len() - i,
    {
        let target = targets[i];
        let ghost base = pairs@;
        let mut j: usize = 0;
        while j < ports.len()
            invariant
                j <= ports@.len(),
                pairs@ == base + port_pairs(target, ports@).take(j as int),
            decreases ports@.len() - j,
        {
            pairs.push((target, ports[j]));
            assert(port_pairs(target, ports@).take(j + 1) =~= port_pairs(target, ports@).take(
                j as int,
            ).push((target, ports@[j as int])));
            j = j + 1;
        }
        proof {
            assert(port_pairs(target, ports@).take(ports@.len() as int) =~= port_pairs(
                target,
                ports@,
            ));
            assert(f(target) == port_pairs(target, ports@));
            targets@.lemma_flat_map_take_append(f, i as int);
            assert(pairs@.len() == base.len() + ports@.len());
            assert(pairs@.len() == (i + 1) * ports@.len()) by (nonlinear_arith)
                requires
                    pairs@.len() == base.len() + ports@.len(),
                    base.len() == i * ports@.len(),
            ;
        }
        i = i + 1;
    }
    assert(targets@.take(targets@.len() as int) =~= targets@);
    pairs
}

/// Pair `j` of target `i` sits at position `i * ports.len() + j` of the product, and
/// the product has one pair per target and port.
pub proof fn lemma_pair_at<'a>(targets: Seq<&'a str>, ports: Seq<u16>, i: int, j: int)
    requires
        0 <= i < targets.len(),
        0 <= j < ports.len(),
    ensures
        targets.flat_map(|t: &'a str| port_pairs(t, ports)).len() == targets.len() * ports.len(),
        targets.flat_map(|t: &'a str| port_pairs(t, ports))[i * ports.len() + j] == (
            targets[i],
            ports[j],
        ),
    decreases targets.len(),
{
    let f = |t: &'a str| port_pairs(t, ports);
    let front = targets.drop_last();
    let last = targets.last();
    front.lemma_flat_map_push(f, last);
    assert(front.push(last) =~= targets);
    if i < targets.len() - 1 {
        lemma_pair_at(front, ports, i, j);
        assert(i * ports.len() + j < front.len() * ports.len()) by (nonlinear_arith)
            requires
                0 <= i < front.len(),
                0 <= j < ports.len(),
        ;
    } else {
        if front.len() > 0 {
            lemma_pair_at(front, ports, 0, j);
        } else {
            assert(front.flat_map(f) =~= Seq::<(&'a str, u16)>::empty()) by {
                assert(front.map_values(f) =~= Seq::<Seq<(&'a str, u16)>>::empty());
            }
        }
        assert(i * ports.len() == front.len() * ports.len());
    }
    assert(targets.len() * ports.len() == front.len() * ports.len() + ports.len()) by (nonlinear_arith)
        requires
            targets.len() == front.len() + 1,
    ;
}

/// How an attempt to reach a host and port ended, as the program's I/O saw it.
pub enum ConnectOutcome {
    /// No connection within the time allowed.
    TimedOut,
    /// The connection was refused.
    Refused,
    /// Connected; the first line the service sent within the time allowed, if any.
    Connected(Option<String>),
}

/// The scanner's verdict on one attempt: a time-out is an error, a refusal is a closed
/// port, and an open port is identified by its greeting when one came.
pub fn tcp_ping_result(outcome: ConnectOutcome) -> (r: Result<IdentificationResult, Error>)
    ensures
        match outcome {
            ConnectOutcome::TimedOut => r == Err::<IdentificationResult, Error>(Error::Timeout),
            ConnectOutcome::Refused => r matches Ok(IdentificationResult::ConnectionRefused),
            ConnectOutcome::Connected(Some(line)) => r matches Ok(
                IdentificationResult::WelcomeLine(s),
            ) && s@ == line@,
            ConnectOutcome::Connected(None) => r matches Ok(IdentificationResult::NoWelcomeLine),
        },
{
    match outcome {
        ConnectOutcome::TimedOut => Err(Error::Timeout),
        ConnectOutcome::Refused => Ok(IdentificationResult::ConnectionRefused),
        ConnectOutcome::Connected(Some(line)) => Ok(IdentificationResult::WelcomeLine(line)),
        ConnectOutcome::Connected(None) => Ok(IdentificationResult::NoWelcomeLine),
    }
}

/// A decimal field as `ipnet` reads one: one to `max_digits` decimal digits whose
/// value is below `bound`.
pub open spec fn is_number_field(t: Seq<char>, max_digits: nat, bound: nat) -> bool {
    &&& 0 < t.len() <= max_digits
    &&& forall|i: int| 0 <= i < t.len() ==> is_decimal_digit(#[trigger] t[i])
    &&& digits_value(t) < bound
}

/// The address (as a number) and prefix length that `text` denotes in CIDR notation:
/// four dotted octets of one to three digits each below 256, a slash, and a prefix
/// length of one or two digits below 33, with nothing before or after.
pub open spec fn ipv4_net_parse(text: Seq<char>) -> Option<(u32, u8)> {
    let addr = before_first(text, '/');
    let len = after_first(text, '/');
    let octets = split_pieces(addr, '.');
    if text.contains('/') && octets.len() == 4 && is_number_field(octets[0], 3, 256)
        && is_number_field(octets[1], 3, 256) && is_number_field(octets[2], 3, 256)
        && is_number_field(octets[3], 3, 256) && is_number_field(len, 2, 33) {
        Some(
            (
                (digits_value(octets[0]) * 0x100_0000 + digits_value(octets[1]) * 0x1_0000
                    + digits_value(octets[2]) * 0x100 + digits_value(octets[3])) as u32,
                digits_value(len) as u8,
            ),
        )
    } else {
        None
    }
}

/// Calls `str::parse::<Ipv4Net>`, that is `<Ipv4Net as FromStr>::from_str` of the
/// `ipnet` crate, and hands back the address as a number and the prefix length.
/// Claimed, as its parser's source shows: it accepts exactly the CIDR texts above
/// (each field a maximal run of digits, at most three per octet and two for the
/// prefix, values below 256 and 33, the whole text consumed), keeps the address as
/// written, and so gives a prefix length of at most 32.
#[verifier::external_body]
fn parse_ipv4_net(text: &str) -> (net: Option<(u32, u8)>)
    ensures
        net == ipv4_net_parse(text@),
        net matches Some((_, len)) ==> len <= 32,
{
    match text.parse::<Ipv4Net>() {
        Ok(n) => Some((u32::from(n.addr()), n.prefix_len())),
        Err(_) => None,
    }
}

/// The number of addresses in a network with this prefix length.
pub open spec fn net_size(prefix_len: u8) -> int {
    pow2((32 - prefix_len) as nat) as int
}

/// The network address: `addr` with its host bits cleared.
pub open spec fn net_start(addr: u32, prefix_len: u8) -> int {
    addr as int - (addr as int) % net_size(prefix_len)
}

/// The first usable host: the network address itself only for prefixes 31 and 32.
pub open spec fn first_host(addr: u32, prefix_len: u8) -> int {
    if prefix_len < 31 {
        net_start(addr, prefix_len) + 1
    } else {
        net_start(addr, prefix_len)
    }
}

/// The last usable host: the broadcast address itself only for prefixes 31 and 32.
pub open spec fn last_host(addr: u32, prefix_len: u8) -> int {
    if prefix_len < 31 {
        net_start(addr, prefix_len) + net_size(prefix_len) - 2
    } else {
        net_start(addr, prefix_len) + net_size(prefix_len) - 1
    }
}

/// The usable host addresses of the network, in increasing order.
pub open spec fn host_range(addr: u32, prefix_len: u8) -> Seq<u32> {
    Seq::new(
        (last_host(addr, prefix_len) - first_host(addr, prefix_len) + 1) as nat,
        |i: int| (first_host(addr, prefix_len) + i) as u32,
    )
}

/// A network with a prefix shorter than 31 has two addresses fewer usable hosts than
/// addresses; with a prefix of 31 or 32 every address is a host.
pub proof fn lemma_host_count(addr: u32, prefix_len: u8)
    requires
        prefix_len <= 32,
    ensures
        host_range(addr, prefix_len).len() == if prefix_len < 31 {
            net_size(prefix_len) - 2
        } else {
            net_size(prefix_len)
        },
{
    let e = (32 - prefix_len) as nat;
    vstd::arithmetic::power2::lemma2_to64();
    if prefix_len < 31 {
        if e > 2 {
            vstd::arithmetic::power2::lemma_pow2_strictly_increases(2, e);
        }
        assert(net_size(prefix_len) >= 4);
    } else {
        vstd::arithmetic::power2::lemma_pow2_pos(e);
    }
}

/// Calls `Ipv4Net::new` and `Ipv4Net::hosts` of the `ipnet` crate and collects the
/// addresses as numbers. Claimed, as its documentation and source give it: the hosts
/// run from the network address to the broadcast address, both excluded when the prefix
/// is shorter than 31.
#[verifier::external_body]
fn ipv4_hosts(addr: u32, prefix_len: u8) -> (hosts: Vec<u32>)
    requires
        prefix_len <= 32,
    ensures
        hosts@ == host_range(addr, prefix_len),
{
    Ipv4Net::new(addr.into(), prefix_len).unwrap().hosts().map(u32::from).collect()
}

/// Reads a comma-separated list of ports; fails if one of them is not a `u16`.
pub fn parse_ports(list: &str) -> (r: Result<Vec<u16>, Error>)
    ensures
        match r {
            Ok(ports) => {
                &&& ports@.len() == split_pieces(list@, ',').len()
                &&& forall|i: int|
                    0 <= i < ports@.len() ==> parsed_u16(#[trigger] split_pieces(list@, ',')[i])
                        == Some(ports@[i])
            },
            Err(e) => {
                &&& e == Error::ParseIntError
                &&& exists|i: int|
                    0 <= i < split_pieces(list@, ',').len() && parsed_u16(
                        #[trigger] split_pieces(list@, ',')[i],
                    ) is None
            },
        },
{
    let pieces = split_list(list, ',');
    let ghost views = pieces@.map_values(|p: String| p@);
    let mut ports: Vec<u16> = Vec::new();
    let mut i: usize = 0;
    while i < pieces.len()
        invariant
            views == pieces@.map_values(|p: String| p@),
            views == split_pieces(list@, ','),
            i <= pieces@.len(),
            ports@.len() == i,
            forall|k: int| 0 <= k < i ==> parsed_u16(#[trigger] views[k]) == Some(ports@[k]),
        decreases pieces@.len() - i,
    {
        assert(views[i as int] == pieces@[i as int]@);
        match parse_u16(pieces[i].as_str()) {
            Some(port) => {
                ports.push(port);
            },
            None => {
                return Err(Error::ParseIntError);
            },
        }
        i = i + 1;
    }
    Ok(ports)
}

/// What `expand_net` gives for `host`: the usable hosts of the network when `host`
/// reads as an IPv4 network, else `host` itself.
pub open spec fn expanded_hosts(host: Seq<char>) -> Seq<Seq<char>> {
    match ipv4_net_parse(host) {
        Some((addr, len)) => host_range(addr, len).map_values(|h: u32| ipv4_text(h)),
        None => seq![host],
    }
}

/// Each host text that `expand_net` gives for a network reads back, field by field,
/// as the bytes of the corresponding usable address, most significant first.
pub proof fn lemma_expanded_hosts_read_back(host: Seq<char>, addr: u32, len: u8, i: int)
    requires
        ipv4_net_parse(host) == Some((addr, len)),
        0 <= i < host_range(addr, len).len(),
    ensures
        expanded_hosts(host).len() == host_range(addr, len).len(),
        split_pieces(expanded_hosts(host)[i], '.').len() == 4,
        parsed_u64(split_pieces(expanded_hosts(host)[i], '.')[0]) == Some(
            ((host_range(addr, len)[i] >> 24u32) & 0xff) as u64,
        ),
        parsed_u64(split_pieces(expanded_hosts(host)[i], '.')[1]) == Some(
            ((host_range(addr, len)[i] >> 16u32) & 0xff) as u64,
        ),
        parsed_u64(split_pieces(expanded_hosts(host)[i], '.')[2]) == Some(
            ((host_range(addr, len)[i] >> 8u32) & 0xff) as u64,
        ),
        parsed_u64(split_pieces(expanded_hosts(host)[i], '.')[3]) == Some(
            (host_range(addr, len)[i] & 0xff) as u64,
        ),
{
    lemma_ipv4_text_fields(host_range(addr, len)[i]);
}

/// The hosts that `host` stands for: each usable address of a CIDR network, in dotted
/// form, or the host name unchanged.
pub fn expand_net(host: &str) -> (hosts: Vec<String>)
    ensures
        hosts@.map_values(|h: String| h@) == expanded_hosts(host@),
{
    match parse_ipv4_net(host) {
        Some((addr, len)) => {
            let addrs = ipv4_hosts(addr, len);
            let ghost spec_hosts = host_range(addr, len).map_values(|h: u32| ipv4_text(h));
            let mut hosts: Vec<String> = Vec::new();
            let mut i: usize = 0;
            while i < addrs.len()
                invariant
                    i <= addrs@.len(),
                    addrs@ == host_range(addr, len),
                    spec_hosts == host_range(addr, len).map_values(|h: u32| ipv4_text(h)),
                    hosts@.len() == i,
                    hosts@.map_values(|h: String| h@) == spec_hosts.take(i as int),
                decreases addrs@.len() - i,
            {
                let mut text = String::new();
                push_ipv4(&mut text, addrs[i]);
                let ghost old_hosts = hosts@;
                hosts.push(text);
                assert(forall|k: int| 0 <= k < i ==> hosts@[k] == old_hosts[k]);
                assert(old_hosts.map_values(|h: String| h@).len() == i);
                assert(hosts@.map_values(|h: String| h@) =~= spec_hosts.take(i + 1));
                i = i + 1;
            }
            assert(spec_hosts.take(addrs@.len() as int) =~= spec_hosts);
            hosts
        },
        None => {
            let mut hosts: Vec<String> = Vec::new();
            hosts.push(String::from_str(host));
            assert(hosts@.map_values(|h: String| h@) =~= seq![host@]);
            hosts
        },
    }
}

/// The hosts that a comma-separated list stands for: each entry expanded by
/// `expand_net`, in order.
pub fn expand_host_list(list: &str) -> (hosts: Vec<String>)
    ensures
        hosts@.map_values(|h: String| h@) == split_pieces(list@, ',').flat_map(
            |h: Seq<char>| expanded_hosts(h),
        ),
{
    let pieces = split_list(list, ',');
    let ghost views = pieces@.map_values(|p: String| p@);
    let ghost f = |h: Seq<char>| expanded_hosts(h);
    let mut hosts: Vec<String> = Vec::new();
    let mut i: usize = 0;
    assert(views.take(0).flat_map(f) =~= Seq::<Seq<char>>::empty()) by {
        assert(views.take(0).map_values(f) =~= Seq::<Seq<Seq<char>>>::empty());
    }
    while i < pieces.len()
        invariant
            f == (|h: Seq<char>| expanded_hosts(h)),
            views == pieces@.map_values(|p: String| p@),
            i <= pieces@.len(),
            hosts@.map_values(|h: String| h@) == views.take(i as int).flat_map(f),
        decreases pieces@.len() - i,
    {
        let ghost old_hosts = hosts@;
        let mut more = expand_net(pieces[i].as_str());
        let ghost more_view = more@;
        hosts.append(&mut more);
        proof {
            assert(hosts@ == old_hosts + more_view);
            assert(hosts@.map_values(|h: String| h@) =~= old_hosts.map_values(|h: String| h@)
                + more_view.map_values(|h: String| h@));
            views.lemma_flat_map_take_append(f, i as int);
            assert(views[i as int] == pieces@[i as int]@);
        }
        i = i + 1;
    }
    assert(views.take(views.len() as int) =~= views);
    hosts
}

} // verus!
