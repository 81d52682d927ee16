//! Addresses: what to listen on, and for whom the console is.

use crate::text::{chars_of, number_up_to, part_of, pieces_of, string_of, trim};
use vstd::prelude::*;

verus! {

/// An address of the internet protocol: its 32 or 128 bits, as a number whose most significant
/// byte comes first on the wire.
#[derive(Clone, Copy, Debug, PartialEq, Eq, Structural)]
pub enum IpAddr {
    V4(u32),
    V6(u128),
}

/// An address and a port.
#[derive(Clone, Copy, Debug, PartialEq, Eq, Structural)]
pub struct SocketAddr {
    pub ip: IpAddr,
    pub port: u16,
}

/// 127.0.0.1
pub const IPV4_LOCALHOST: u32 = 0x7f00_0001;

/// A text that was to name the address to bind, and names none.
#[derive(Debug)]
pub struct InvalidBindAddress {
    pub value: String,
}

/// An octet in decimal: one to three digits, with no zero in front of another digit.
pub open spec fn octet(s: Seq<char>) -> Option<nat> {
    match crate::text::number(s, 10) {
        Some(n) => if 1 <= s.len() <= 3 && (s[0] != '0' || s.len() == 1) && n <= 255 {
            Some(n)
        } else {
            None
        },
        None => None,
    }
}

/// Four octets with dots between them.
pub open spec fn ipv4_literal(s: Seq<char>) -> Option<nat> {
    let parts = crate::text::pieces(s, '.');
    if parts.len() == 4 {
        match (octet(parts[0]), octet(parts[1]), octet(parts[2]), octet(parts[3])) {
            (Some(a), Some(b), Some(c), Some(d)) => Some(
                a * 0x100_0000 + b * 0x1_0000 + c * 0x100 + d,
            ),
            _ => None,
        }
    } else {
        None
    }
}

/// A group of an IPv6 address: one to four hexadecimal digits.
pub open spec fn group(s: Seq<char>) -> Option<nat> {
    if 1 <= s.len() <= 4 {
        crate::text::number(s, 16)
    } else {
        None
    }
}

/// Groups, where every part is one.
pub open spec fn groups(parts: Seq<Seq<char>>) -> Option<Seq<nat>>
    decreases parts.len(),
{
    if parts.len() == 0 {
        Some(seq![])
    } else {
        match (groups(parts.drop_last()), group(parts.last())) {
            (Some(front), Some(g)) => Some(front.push(g)),
            _ => None,
        }
    }
}

/// Groups with colons between them. An IPv4 literal may stand for the last two.
pub open spec fn group_list(s: Seq<char>, may_end_in_ipv4: bool) -> Option<Seq<nat>> {
    let parts = crate::text::pieces(s, ':');
    match ipv4_literal(parts.last()) {
        Some(v4) if may_end_in_ipv4 => match groups(parts.drop_last()) {
            Some(front) => Some(front.push(v4 / 0x1_0000).push(v4 % 0x1_0000)),
            None => None,
        },
        _ => groups(parts),
    }
}

/// As `group_list`, where there may be no groups at all.
pub open spec fn group_list_or_none(s: Seq<char>, may_end_in_ipv4: bool) -> Option<Seq<nat>> {
    if s.len() == 0 {
        Some(seq![])
    } else {
        group_list(s, may_end_in_ipv4)
    }
}

/// How many characters stand before the first two colons in a row: all of them where there are
/// none.
pub open spec fn before_double_colon(s: Seq<char>) -> nat
    decreases s.len(),
{
    if s.len() == 0 || s.len() >= 2 && s[0] == ':' && s[1] == ':' {
        0
    } else {
        1 + before_double_colon(s.drop_first())
    }
}

/// The eight groups that an IPv6 literal spells. Two colons in a row, once at most, stand for one
/// or more groups of zero.
pub open spec fn ipv6_groups(s: Seq<char>) -> Option<Seq<nat>> {
    let n = before_double_colon(s) as int;
    if n >= s.len() {
        match group_list(s, true) {
            Some(all) if all.len() == 8 => Some(all),
            _ => None,
        }
    } else {
        match (group_list_or_none(s.take(n), false), group_list_or_none(s.skip(n + 2), true)) {
            (Some(head), Some(tail)) if head.len() + tail.len() <= 7 => Some(
                head + Seq::new((8 - head.len() - tail.len()) as nat, |i: int| 0nat) + tail,
            ),
            _ => None,
        }
    }
}

/// The number whose digits, in base 2^16, are the groups.
pub open spec fn groups_value(groups: Seq<nat>) -> nat
    decreases groups.len(),
{
    if groups.len() == 0 {
        0
    } else {
        groups_value(groups.drop_last()) * 0x1_0000 + groups.last()
    }
}

/// The address that a literal spells.
pub open spec fn ip_literal(s: Seq<char>) -> Option<IpAddr> {
    match ipv4_literal(s) {
        Some(v4) => Some(IpAddr::V4(v4 as u32)),
        None => match ipv6_groups(s) {
            Some(groups) => Some(IpAddr::V6(groups_value(groups) as u128)),
            None => None,
        },
    }
}

fn octet_of(chars: &[char]) -> (value: Option<u32>)
    ensures
        match value {
            Some(v) => octet(chars@) == Some(v as nat) && v <= 255,
            None => octet(chars@) is None,
        },
{
    if chars.len() == 0 || chars.len() > 3 || (chars[0] == '0' && chars.len() != 1) {
        return None;
    }
    match number_up_to(chars, 10, 255) {
        Some(v) => Some(v as u32),
        None => None,
    }
}

fn ipv4_of(chars: &[char]) -> (value: Option<u32>)
    ensures
        match value {
            Some(v) => ipv4_literal(chars@) == Some(v as nat),
            None => ipv4_literal(chars@) is None,
        },
{
    let parts = pieces_of(chars, '.');
    let ghost spec_parts = crate::text::pieces(chars@, '.');
    assert(spec_parts.len() == parts@.len());
    if parts.len() != 4 {
        return None;
    }
    assert(parts@[0]@ == spec_parts[0] && parts@[1]@ == spec_parts[1] && parts@[2]@ == spec_parts[2]
        && parts@[3]@ == spec_parts[3]);
    match (octet_of(&parts[0]), octet_of(&parts[1]), octet_of(&parts[2]), octet_of(&parts[3])) {
        (Some(a), Some(b), Some(c), Some(d)) => Some(
            a * 0x100_0000 + b * 0x1_0000 + c * 0x100 + d,
        ),
        _ => None,
    }
}

fn group_of(chars: &[char]) -> (value: Option<u16>)
    ensures
        match value {
            Some(v) => group(chars@) == Some(v as nat),
            None => group(chars@) is None,
        },
{
    if chars.len() == 0 || chars.len() > 4 {
        return None;
    }
    proof {
        lemma_digits_bound(chars@);
    }
    match number_up_to(chars, 16, 0xffff) {
        Some(v) => Some(v as u16),
        None => None,
    }
}

proof fn lemma_digits_bound(s: Seq<char>)
    requires
        s.len() <= 4,
    ensures
        match crate::text::number(s, 16) {
            Some(n) => {
                &&& s.len() == 0 ==> n == 0
                &&& s.len() == 1 ==> n < 0x10
                &&& s.len() == 2 ==> n < 0x100
                &&& s.len() == 3 ==> n < 0x1000
                &&& s.len() == 4 ==> n < 0x1_0000
            },
            None => true,
        },
    decreases s.len(),
{
    if s.len() > 0 {
        lemma_digits_bound(s.drop_last());
    }
}

/// The views of groups.
pub open spec fn group_values(list: Seq<u16>) -> Seq<nat> {
    list.map_values(|g: u16| g as nat)
}

fn groups_of(parts: &Vec<Vec<char>>, count: usize) -> (list: Option<Vec<u16>>)
    requires
        count <= parts@.len(),
    ensures
        match list {
            Some(l) => groups(crate::text::char_lists(parts@).take(count as int)) == Some(
                group_values(l@),
            ),
            None => groups(crate::text::char_lists(parts@).take(count as int)) is None,
        },
{
    let ghost all = crate::text::char_lists(parts@);
    let mut list: Vec<u16> = Vec::new();
    assert(group_values(list@) =~= seq![]);
    for i in 0..count
        invariant
            count <= parts@.len(),
            all == crate::text::char_lists(parts@),
            groups(all.take(i as int)) == Some(group_values(list@)),
    {
        assert(all.take(i + 1).drop_last() =~= all.take(i as int));
        assert(all.take(i + 1).last() == parts@[i as int]@);
        match group_of(&parts[i]) {
            Some(g) => {
                let ghost front = list@;
                list.push(g);
                assert(group_values(list@) =~= group_values(front).push(g as nat));
            },
            None => {
                proof {
                    lemma_groups_prefix(all.take(count as int), i + 1);
                    assert(all.take(count as int).take(i + 1) =~= all.take(i + 1));
                }
                return None;
            },
        }
    }
    Some(list)
}

proof fn lemma_groups_prefix(parts: Seq<Seq<char>>, n: int)
    requires
        0 <= n <= parts.len(),
        groups(parts.take(n)) is None,
    ensures
        groups(parts) is None,
    decreases parts.len(),
{
    if n < parts.len() {
        assert(parts.drop_last().take(n) =~= parts.take(n));
        lemma_groups_prefix(parts.drop_last(), n);
    } else {
        assert(parts.take(n) =~= parts);
    }
}

fn group_list_of(chars: &[char], may_end_in_ipv4: bool) -> (list: Option<Vec<u16>>)
    ensures
        match list {
            Some(l) => group_list(chars@, may_end_in_ipv4) == Some(group_values(l@)),
            None => group_list(chars@, may_end_in_ipv4) is None,
        },
{
    let parts = pieces_of(chars, ':');
    let ghost all = crate::text::char_lists(parts@);
    assert(all.len() == parts@.len());
    proof {
        crate::text::lemma_some_piece(chars@, ':');
    }
    let last: usize = parts.len() - 1;
    assert(all.last() == parts@[last as int]@);
    assert(all.take(last as int) =~= all.drop_last());
    assert(all.take(parts@.len() as int) =~= all);
    if may_end_in_ipv4 {
        match ipv4_of(&parts[last]) {
            Some(v4) => {
                return match groups_of(&parts, last) {
                    Some(front) => {
                        let mut list = front;
                        let ghost before = list@;
                        list.push((v4 / 0x1_0000) as u16);
                        list.push((v4 % 0x1_0000) as u16);
                        assert(group_values(list@) =~= group_values(before).push(
                            v4 as nat / 0x1_0000,
                        ).push(v4 as nat % 0x1_0000));
                        Some(list)
                    },
                    None => None,
                };
            },
            None => {},
        }
    }
    groups_of(&parts, parts.len())
}

fn group_list_or_none_of(chars: &[char], may_end_in_ipv4: bool) -> (list: Option<Vec<u16>>)
    ensures
        match list {
            Some(l) => group_list_or_none(chars@, may_end_in_ipv4) == Some(group_values(l@)),
            None => group_list_or_none(chars@, may_end_in_ipv4) is None,
        },
{
    if chars.len() == 0 {
        let list: Vec<u16> = Vec::new();
        assert(group_values(list@) =~= seq![]);
        return Some(list);
    }
    group_list_of(chars, may_end_in_ipv4)
}

fn find_double_colon(chars: &[char]) -> (at: usize)
    ensures
        at == before_double_colon(chars@),
        at < chars@.len() ==> at + 2 <= chars@.len(),
        at <= chars@.len(),
{
    let mut at: usize = 0;
    assert(chars@.skip(0) =~= chars@);
    while at < chars.len() && !(chars.len() - at >= 2 && chars[at] == ':' && chars[at + 1] == ':')
        invariant
            at <= chars@.len(),
            before_double_colon(chars@) == at + before_double_colon(chars@.skip(at as int)),
        decreases chars@.len() - at,
    {
        assert(chars@.skip(at as int).drop_first() =~= chars@.skip(at + 1));
        at = at + 1;
    }
    at
}

fn ipv6_groups_of(chars: &[char]) -> (list: Option<Vec<u16>>)
    ensures
        match list {
            Some(l) => ipv6_groups(chars@) == Some(group_values(l@)) && l@.len() == 8,
            None => ipv6_groups(chars@) is None,
        },
{
    let at = find_double_colon(chars);
    if at == chars.len() {
        return match group_list_of(chars, true) {
            Some(all) => if all.len() == 8 {
                Some(all)
            } else {
                None
            },
            None => None,
        };
    }
    let head_chars = part_of(chars, 0, at);
    let tail_chars = part_of(chars, at + 2, chars.len());
    assert(head_chars@ =~= chars@.take(at as int));
    assert(tail_chars@ =~= chars@.skip(at + 2));
    match (group_list_or_none_of(&head_chars, false), group_list_or_none_of(&tail_chars, true)) {
        (Some(head), Some(tail)) => {
            if head.len() > 7 || tail.len() > 7 - head.len() {
                return None;
            }
            let mut list: Vec<u16> = Vec::new();
            for i in 0..head.len()
                invariant
                    list@ == head@.take(i as int),
            {
                list.push(head[i]);
            }
            let zeros: usize = 8 - head.len() - tail.len();
            for i in 0..zeros
                invariant
                    list@ == head@ + Seq::new(i as nat, |j: int| 0u16),
            {
                list.push(0);
            }
            for i in 0..tail.len()
                invariant
                    list@ == head@ + Seq::new(zeros as nat, |j: int| 0u16) + tail@.take(i as int),
            {
                list.push(tail[i]);
            }
            assert(group_values(list@) =~= group_values(head@) + Seq::new(
                zeros as nat,
                |i: int| 0nat,
            ) + group_values(tail@));
            Some(list)
        },
        _ => None,
    }
}

fn value_of_groups(list: &Vec<u16>) -> (value: u128)
    requires
        list@.len() == 8,
    ensures
        value == groups_value(group_values(list@)),
{
    let ghost all = group_values(list@);
    proof {
        reveal_with_fuel(groups_value, 9);
        assert(all.take(1).drop_last() =~= all.take(0));
        assert(all.take(2).drop_last() =~= all.take(1));
        assert(all.take(3).drop_last() =~= all.take(2));
        assert(all.take(4).drop_last() =~= all.take(3));
        assert(all.take(5).drop_last() =~= all.take(4));
        assert(all.take(6).drop_last() =~= all.take(5));
        assert(all.take(7).drop_last() =~= all.take(6));
        assert(all.take(8).drop_last() =~= all.take(7));
        assert(all.take(8) =~= all);
    }
    let v1: u128 = list[0] as u128;
    let v2: u128 = v1 * 0x1_0000 + list[1] as u128;
    let v3: u128 = v2 * 0x1_0000 + list[2] as u128;
    let v4: u128 = v3 * 0x1_0000 + list[3] as u128;
    let v5: u128 = v4 * 0x1_0000 + list[4] as u128;
    let v6: u128 = v5 * 0x1_0000 + list[5] as u128;
    let v7: u128 = v6 * 0x1_0000 + list[6] as u128;
    v7 * 0x1_0000 + list[7] as u128
}

/// The address that a literal spells, in the notation of IPv4 or of IPv6.
pub fn parse_ip_literal(chars: &[char]) -> (address: Option<IpAddr>)
    ensures
        address == ip_literal(chars@),
{
    match ipv4_of(chars) {
        Some(v4) => Some(IpAddr::V4(v4)),
        None => match ipv6_groups_of(chars) {
            Some(list) => Some(IpAddr::V6(value_of_groups(&list))),
            None => None,
        },
    }
}

/// The address to bind that a setting names. White space around it does not count; an empty
/// setting names none.
pub fn parse_bind_address(value: &str) -> (address: Result<Option<IpAddr>, InvalidBindAddress>)
    ensures
        match address {
            Ok(None) => crate::text::trimmed(value@).len() == 0,
            Ok(Some(ip)) => crate::text::trimmed(value@).len() > 0 && ip_literal(
                crate::text::trimmed(value@),
            ) == Some(ip),
            Err(e) => {
                &&& crate::text::trimmed(value@).len() > 0
                &&& ip_literal(crate::text::trimmed(value@)) is None
                &&& e.value@ == crate::text::trimmed(value@)
            },
        },
{
    let text = trim(value);
    let chars = chars_of(text.as_str());
    if chars.len() == 0 {
        return Ok(None);
    }
    match parse_ip_literal(&chars) {
        Some(ip) => Ok(Some(ip)),
        None => Err(InvalidBindAddress { value: text }),
    }
}

impl InvalidBindAddress {
    /// What to tell the user.
    pub fn message(&self) -> (text: String)
        ensures
            text@ == "Invalid bind address: "@ + self.value@,
    {
        let mut text = "Invalid bind address: ".to_owned();
        push_text(&mut text, self.value.as_str());
        text
    }
}

fn push_text(text: &mut String, more: &str)
    ensures
        final(text)@ == old(text)@ + more@,
{
    let chars = chars_of(more);
    let ghost before = text@;
    for i in 0..chars.len()
        invariant
            chars@ == more@,
            text@ == before + more@.take(i as int),
    {
        text.push(chars[i]);
        assert(text@ =~= before + more@.take(i + 1));
    }
    assert(more@.take(more@.len() as int) =~= more@);
}

/// What to listen on: one address, or any address of the machine.
#[derive(Clone, Copy, Debug, PartialEq, Eq, Structural)]
pub enum ListenOn {
    Address(SocketAddr),
    AnyAddress(u16),
}

/// What to listen on for connections: the address that was set, or any.
pub fn tcp_listen_target(bind_addr: Option<IpAddr>, port: u16) -> (target: ListenOn)
    ensures
        target == (match bind_addr {
            Some(ip) => ListenOn::Address(SocketAddr { ip, port }),
            None => ListenOn::AnyAddress(port),
        }),
{
    match bind_addr {
        Some(ip) => ListenOn::Address(SocketAddr { ip, port }),
        None => ListenOn::AnyAddress(port),
    }
}

/// A listener on this address accepts connections to 127.0.0.1.
pub open spec fn covers_ipv4_localhost(ip: IpAddr) -> bool {
    ||| ip == IpAddr::V4(0)
    ||| ip == IpAddr::V6(0)
    ||| ip == IpAddr::V4(IPV4_LOCALHOST)
}

/// Where the console has a listener of its own.
pub open spec fn console(bind_addr: Option<IpAddr>, port: u16) -> Option<SocketAddr> {
    match bind_addr {
        Some(ip) => if covers_ipv4_localhost(ip) {
            None
        } else {
            Some(SocketAddr { ip: IpAddr::V4(IPV4_LOCALHOST), port })
        },
        None => None,
    }
}

/// Where the console needs a listener of its own. It is reached at 127.0.0.1, so it needs none
/// where the listener for connections covers that address.
pub fn console_addr(bind_addr: Option<IpAddr>, port: u16) -> (addr: Option<SocketAddr>)
    ensures
        addr == console(bind_addr, port),
{
    match bind_addr {
        Some(ip) => {
            if ip == IpAddr::V4(0) || ip == IpAddr::V6(0) || ip == IpAddr::V4(IPV4_LOCALHOST) {
                return None;
            }
            Some(SocketAddr { ip: IpAddr::V4(IPV4_LOCALHOST), port })
        },
        None => None,
    }
}

/// The console is always reached at 127.0.0.1: either the listener for connections is on any
/// address or covers it, or the console has a listener there. That listener is never on the
/// address that was set.
pub proof fn law_console_is_at_localhost(bind_addr: Option<IpAddr>, port: u16)
    ensures
        match console(bind_addr, port) {
            Some(addr) => addr.ip == IpAddr::V4(IPV4_LOCALHOST) && addr.port == port && bind_addr
                != Some(addr.ip),
            None => bind_addr matches Some(ip) ==> covers_ipv4_localhost(ip),
        },
{
}

/// The console has no listener of its own exactly where no address to bind was set, or it is
/// 0.0.0.0, `::` or 127.0.0.1. For every other address it has one, at 127.0.0.1 and the port.
pub proof fn law_console_has_a_listener(ip: IpAddr, port: u16)
    ensures
        console(None, port) is None,
        console(Some(ip), port) is None <==> ip == IpAddr::V4(0) || ip == IpAddr::V6(0) || ip
            == IpAddr::V4(0x7f00_0001),
        ip != IpAddr::V4(0) && ip != IpAddr::V6(0) && ip != IpAddr::V4(0x7f00_0001) ==> console(
            Some(ip),
            port,
        ) == Some(SocketAddr { ip: IpAddr::V4(0x7f00_0001), port }),
{
}

/// The text under which a server's name is looked up: with a port, for which zero stands where the
/// name has none.
pub open spec fn lookup_text(host: Seq<char>) -> Seq<char> {
    if host.contains(':') {
        host
    } else {
        host + ":0"@
    }
}

/// The text under which to look up a server's name.
pub fn server_lookup_text(host: &str) -> (text: String)
    ensures
        text@ == lookup_text(host@),
{
    let chars = chars_of(host);
    let mut text = host.to_owned();
    for i in 0..chars.len()
        invariant
            chars@ == host@,
            text@ == host@,
            forall|j: int| 0 <= j < i ==> host@[j] != ':',
    {
        if chars[i] == ':' {
            assert(host@.contains(host@[i as int]));
            return text;
        }
    }
    push_text(&mut text, ":0");
    text
}

/// The address of a server: the first that its name was resolved to.
pub fn first_address(addresses: &Vec<SocketAddr>) -> (address: Option<SocketAddr>)
    ensures
        address == (if addresses@.len() > 0 {
            Some(addresses@[0])
        } else {
            None
        }),
{
    if addresses.len() > 0 {
        Some(addresses[0])
    } else {
        None
    }
}

/// The names in a list of servers: what stands between the commas, where anything does.
pub open spec fn named_servers(s: Seq<char>) -> Seq<Seq<char>> {
    crate::text::pieces(s, ',').filter(|piece: Seq<char>| piece.len() > 0)
}

/// Those of the names for which `valid` holds `true`.
pub open spec fn kept(names: Seq<Seq<char>>, valid: Seq<bool>) -> Seq<Seq<char>>
    decreases names.len(),
{
    if names.len() == 0 {
        seq![]
    } else {
        let front = kept(names.drop_last(), valid.drop_last());
        if valid.last() {
            front.push(names.last())
        } else {
            front
        }
    }
}

/// The names in a list of servers.
pub fn server_names(s: &str) -> (names: Vec<String>)
    ensures
        crate::text::strings(names@) == named_servers(s@),
{
    let chars = chars_of(s);
    let parts = pieces_of(&chars, ',');
    let ghost all = crate::text::char_lists(parts@);
    let ghost keep = |piece: Seq<char>| piece.len() > 0;
    let mut names: Vec<String> = Vec::new();
    reveal(Seq::filter);
    assert(crate::text::strings(names@) =~= all.take(0).filter(keep));
    for i in 0..parts.len()
        invariant
            all == crate::text::char_lists(parts@),
            keep == (|piece: Seq<char>| piece.len() > 0),
            crate::text::strings(names@) == all.take(i as int).filter(keep),
    {
        reveal(Seq::filter);
        assert(all.take(i + 1).drop_last() =~= all.take(i as int));
        assert(all.take(i + 1).last() == parts@[i as int]@);
        if parts[i].len() > 0 {
            let ghost before = crate::text::strings(names@);
            let name = string_of(&parts[i]);
            names.push(name);
            assert(crate::text::strings(names@) =~= before.push(parts@[i as int]@));
        }
    }
    assert(all.take(all.len() as int) =~= all);
    names
}

/// The servers in a list whose names could be resolved. `valid` says so for each of the names that
/// `server_names` finds in the list.
pub fn get_servers(s: &str, valid: &Vec<bool>) -> (servers: Vec<String>)
    requires
        valid@.len() == named_servers(s@).len(),
    ensures
        crate::text::strings(servers@) == kept(named_servers(s@), valid@),
{
    let names = server_names(s);
    let ghost all = crate::text::strings(names@);
    let mut servers: Vec<String> = Vec::new();
    assert(crate::text::strings(servers@) =~= seq![]);
    for i in 0..names.len()
        invariant
            all == crate::text::strings(names@),
            valid@.len() == names@.len(),
            crate::text::strings(servers@) == kept(all.take(i as int), valid@.take(i as int)),
    {
        assert(all.take(i + 1).drop_last() =~= all.take(i as int));
        assert(valid@.take(i + 1).drop_last() =~= valid@.take(i as int));
        assert(all.take(i + 1).last() == names@[i as int]@);
        if valid[i] {
            let ghost before = crate::text::strings(servers@);
            servers.push(names[i].clone());
            assert(crate::text::strings(servers@) =~= before.push(names@[i as int]@));
        }
    }
    assert(all.take(all.len() as int) =~= all);
    assert(valid@.take(valid@.len() as int) =~= valid@);
    servers
}

/// A server's name is looked up as it is where it holds a colon; else with `:0` behind it.
pub proof fn law_lookup_text(host: Seq<char>)
    ensures
        (exists|i: int| 0 <= i < host.len() && #[trigger] host[i] == ':') ==> lookup_text(host)
            == host,
        (forall|i: int| 0 <= i < host.len() ==> #[trigger] host[i] != ':') ==> lookup_text(host)
            == host.push(':').push('0'),
{
    reveal_strlit(":0");
    if exists|i: int| 0 <= i < host.len() && #[trigger] host[i] == ':' {
        let i = choose|i: int| 0 <= i < host.len() && #[trigger] host[i] == ':';
        assert(host.contains(host[i]));
    }
    assert(host + ":0"@ =~= host.push(':').push('0'));
}

proof fn lemma_filter_in_turn(a: Seq<Seq<char>>, b: Seq<Seq<char>>)
    ensures
        (a + b).filter(|piece: Seq<char>| piece.len() > 0) == a.filter(
            |piece: Seq<char>| piece.len() > 0,
        ) + b.filter(|piece: Seq<char>| piece.len() > 0),
    decreases b.len(),
{
    reveal(Seq::filter);
    let keep = |piece: Seq<char>| piece.len() > 0;
    if b.len() == 0 {
        assert(a + b =~= a);
        assert(a.filter(keep) + b.filter(keep) =~= a.filter(keep));
    } else {
        assert((a + b).drop_last() =~= a + b.drop_last());
        lemma_filter_in_turn(a, b.drop_last());
        assert((a + b).filter(keep) =~= a.filter(keep) + b.filter(keep));
    }
}

/// The pieces of two texts with a separator between them are those of one and then of the other.
proof fn lemma_pieces_in_turn(a: Seq<char>, b: Seq<char>, separator: char)
    ensures
        crate::text::pieces(a.push(separator) + b, separator) == crate::text::pieces(a, separator)
            + crate::text::pieces(b, separator),
    decreases a.len(),
{
    let whole = a.push(separator) + b;
    let n = crate::text::before(a, separator) as int;
    crate::text::lemma_before_is_first(a, separator);
    assert(forall|j: int| 0 <= j < n ==> whole[j] == a[j]);
    assert(whole[n] == separator) by {
        if n < a.len() {
            assert(whole[n] == a[n]);
        }
    }
    crate::text::lemma_before(whole, separator, n as nat);
    if n >= a.len() {
        assert(whole.take(n) =~= a);
        assert(whole.skip(n + 1) =~= b);
    } else {
        let rest = a.skip(n + 1);
        lemma_pieces_in_turn(rest, b, separator);
        assert(whole.take(n) =~= a.take(n));
        assert(whole.skip(n + 1) =~= rest.push(separator) + b);
        assert(crate::text::pieces(whole, separator) =~= crate::text::pieces(a, separator)
            + crate::text::pieces(b, separator));
    }
}

/// A list of servers names those of its parts: a text without a comma names itself, unless it is
/// empty; two lists with a comma between them name the servers of one and then of the other.
pub proof fn law_servers_in_a_list(a: Seq<char>, b: Seq<char>)
    ensures
        named_servers(a.push(',') + b) == named_servers(a) + named_servers(b),
        (forall|i: int| 0 <= i < a.len() ==> #[trigger] a[i] != ',') ==> named_servers(a) == (
        if a.len() == 0 {
            seq![]
        } else {
            seq![a]
        }),
{
    lemma_pieces_in_turn(a, b, ',');
    lemma_filter_in_turn(crate::text::pieces(a, ','), crate::text::pieces(b, ','));
    if forall|i: int| 0 <= i < a.len() ==> #[trigger] a[i] != ',' {
        crate::text::lemma_before(a, ',', a.len());
        let keep = |piece: Seq<char>| piece.len() > 0;
        let one = seq![a];
        assert(crate::text::pieces(a, ',') =~= one);
        assert(one.drop_last() =~= seq![]);
        reveal(Seq::filter);
        reveal_with_fuel(Seq::filter, 2);
        assert(one.filter(keep) =~= if a.len() == 0 {
            seq![]
        } else {
            one
        });
    }
}

/// The servers that are kept are those whose names could be resolved, in their order: of one name
/// by itself, and of two lists those of one and then of the other.
pub proof fn law_kept_servers(
    name: Seq<char>,
    a: Seq<Seq<char>>,
    valid_a: Seq<bool>,
    b: Seq<Seq<char>>,
    valid_b: Seq<bool>,
)
    requires
        a.len() == valid_a.len(),
        b.len() == valid_b.len(),
    ensures
        kept(seq![name], seq![true]) == seq![name],
        kept(seq![name], seq![false]) == Seq::<Seq<char>>::empty(),
        kept(a + b, valid_a + valid_b) == kept(a, valid_a) + kept(b, valid_b),
        kept(a, Seq::new(a.len(), |i: int| true)) == a,
    decreases a.len() + b.len(),
{
    reveal_with_fuel(kept, 2);
    assert(seq![name].drop_last() =~= seq![]);
    assert(kept(seq![name], seq![true]) =~= seq![name]);
    let none = Seq::<Seq<char>>::empty();
    if b.len() > 0 {
        assert((a + b).drop_last() =~= a + b.drop_last());
        assert((valid_a + valid_b).drop_last() =~= valid_a + valid_b.drop_last());
        law_kept_servers(name, a, valid_a, b.drop_last(), valid_b.drop_last());
        assert(kept(a + b, valid_a + valid_b) =~= kept(a, valid_a) + kept(b, valid_b));
    } else {
        assert(a + b =~= a && valid_a + valid_b =~= valid_a);
        assert(kept(a, valid_a) + kept(b, valid_b) =~= kept(a, valid_a));
    }
    if a.len() > 0 {
        let all = Seq::new(a.len(), |i: int| true);
        let fewer = Seq::new((a.len() - 1) as nat, |i: int| true);
        law_kept_servers(name, a.drop_last(), valid_a.drop_last(), none, Seq::empty());
        assert(all.drop_last() =~= fewer);
        assert(kept(a, all) =~= a);
    } else {
        assert(kept(a, Seq::new(a.len(), |i: int| true)) =~= a);
    }
}

/// Four numbers in decimal with dots between them.
pub open spec fn dotted(a: nat, b: nat, c: nat, d: nat) -> Seq<char> {
    crate::text::decimal(a).push('.') + crate::text::decimal(b).push('.') + crate::text::decimal(
        c,
    ).push('.') + crate::text::decimal(d)
}

/// The four bytes of an address in decimal with dots between them.
pub open spec fn dotted_bits(bits: u32) -> Seq<char> {
    let n = bits as nat;
    dotted(n / 0x100_0000, n / 0x1_0000 % 0x100, n / 0x100 % 0x100, n % 0x100)
}

/// An octet is the shortest decimal form of a number from 0 to 255, and nothing else.
pub proof fn law_octets(s: Seq<char>, n: nat)
    ensures
        octet(s) == Some(n) <==> n <= 255 && s == crate::text::decimal(n),
{
    crate::text::law_decimal_form(n);
    crate::text::law_decimal_is_read_back(n, 0);
    if octet(s) == Some(n) {
        let k = crate::text::law_read_number_is_decimal(s);
        let written = crate::text::zeros(k) + crate::text::decimal(n);
        assert(s == written);
        if k > 0 {
            assert(written[0] == '0');
            assert(written.len() >= 2);
        } else {
            assert(written =~= crate::text::decimal(n));
        }
    }
}

proof fn lemma_dotted(a: nat, b: nat, c: nat, d: nat)
    ensures
        crate::text::pieces(dotted(a, b, c, d), '.') == seq![
            crate::text::decimal(a),
            crate::text::decimal(b),
            crate::text::decimal(c),
            crate::text::decimal(d),
        ],
        crate::text::joined(
            seq![
                crate::text::decimal(a),
                crate::text::decimal(b),
                crate::text::decimal(c),
                crate::text::decimal(d),
            ],
            '.',
        ) == dotted(a, b, c, d),
        dotted(a, b, c, d).len() > 0,
        forall|i: int|
            0 <= i < dotted(a, b, c, d).len() ==> '0' <= #[trigger] dotted(a, b, c, d)[i] <= '9'
                || dotted(a, b, c, d)[i] == '.',
{
    let w = crate::text::decimal(a);
    let x = crate::text::decimal(b);
    let y = crate::text::decimal(c);
    let z = crate::text::decimal(d);
    crate::text::law_decimal_form(a);
    crate::text::law_decimal_form(b);
    crate::text::law_decimal_form(c);
    crate::text::law_decimal_form(d);
    let parts = seq![w, x, y, z];
    assert(parts.drop_first() =~= seq![x, y, z]);
    assert(seq![x, y, z].drop_first() =~= seq![y, z]);
    assert(seq![y, z].drop_first() =~= seq![z]);
    reveal_with_fuel(crate::text::joined, 4);
    assert(crate::text::joined(seq![y, z], '.') =~= y.push('.') + z);
    assert(crate::text::joined(seq![x, y, z], '.') =~= x.push('.') + (y.push('.') + z));
    assert(crate::text::joined(parts, '.') =~= dotted(a, b, c, d));
    assert forall|i: int| 0 <= i < parts.len() implies !(#[trigger] parts[i]).contains('.') by {
        assert(i == 0 || i == 1 || i == 2 || i == 3);
    }
    crate::text::law_joined_pieces(parts, '.');
    let text = dotted(a, b, c, d);
    let m = w.len() as int;
    let n = m + 1 + x.len();
    let o = n + 1 + y.len();
    assert forall|i: int| 0 <= i < text.len() implies '0' <= #[trigger] text[i] <= '9' || text[i]
        == '.' by {
        if i < m {
            assert(text[i] == w[i]);
        } else if m < i < n {
            assert(text[i] == x[i - m - 1]);
        } else if n < i < o {
            assert(text[i] == y[i - n - 1]);
        } else if i > o {
            assert(text[i] == z[i - o - 1]);
        }
    }
}

proof fn lemma_four_bytes(a: nat, b: nat, c: nat, d: nat)
    requires
        a <= 255 && b <= 255 && c <= 255 && d <= 255,
    ensures
        ({
            let n = a * 0x100_0000 + b * 0x1_0000 + c * 0x100 + d;
            n < 0x1_0000_0000 && n / 0x100_0000 == a && n / 0x1_0000 % 0x100 == b && n / 0x100
                % 0x100 == c && n % 0x100 == d
        }),
{
    let n = a * 0x100_0000 + b * 0x1_0000 + c * 0x100 + d;
    assert(n / 0x100 == a * 0x1_0000 + b * 0x100 + c);
    assert(n / 0x1_0000 == a * 0x100 + b);
    assert(n / 0x100_0000 == a);
}

proof fn lemma_bytes_of_bits(bits: u32)
    ensures
        ({
            let n = bits as nat;
            let a = n / 0x100_0000;
            let b = n / 0x1_0000 % 0x100;
            let c = n / 0x100 % 0x100;
            let d = n % 0x100;
            a <= 255 && b <= 255 && c <= 255 && d <= 255 && n == a * 0x100_0000 + b * 0x1_0000 + c
                * 0x100 + d
        }),
{
    let n = bits as nat;
    let n1 = n / 0x100;
    let n2 = n1 / 0x100;
    assert(n / 0x1_0000 == n2);
    assert(n / 0x100_0000 == n2 / 0x100);
    assert(n == n1 * 0x100 + n % 0x100);
    assert(n1 == n2 * 0x100 + n1 % 0x100);
    assert(n2 == n2 / 0x100 * 0x100 + n2 % 0x100);
}

proof fn lemma_ipv4_text(a: nat, b: nat, c: nat, d: nat)
    requires
        a <= 255 && b <= 255 && c <= 255 && d <= 255,
    ensures
        ipv4_literal(dotted(a, b, c, d)) == Some(
            a * 0x100_0000 + b * 0x1_0000 + c * 0x100 + d,
        ),
{
    lemma_dotted(a, b, c, d);
    law_octets(crate::text::decimal(a), a);
    law_octets(crate::text::decimal(b), b);
    law_octets(crate::text::decimal(c), c);
    law_octets(crate::text::decimal(d), d);
}

proof fn lemma_ipv4_only(s: Seq<char>)
    ensures
        ipv4_literal(s) matches Some(n) ==> n < 0x1_0000_0000 && s == dotted_bits(n as u32),
{
    if ipv4_literal(s) is Some {
        let parts = crate::text::pieces(s, '.');
        let a = octet(parts[0])->0;
        let b = octet(parts[1])->0;
        let c = octet(parts[2])->0;
        let d = octet(parts[3])->0;
        law_octets(parts[0], a);
        law_octets(parts[1], b);
        law_octets(parts[2], c);
        law_octets(parts[3], d);
        lemma_four_bytes(a, b, c, d);
        lemma_dotted(a, b, c, d);
        crate::text::law_pieces(s, '.');
        assert(parts =~= seq![
            crate::text::decimal(a),
            crate::text::decimal(b),
            crate::text::decimal(c),
            crate::text::decimal(d),
        ]);
    }
}

/// The IPv4 addresses that are read are those that are written, byte by byte in shortest decimal
/// form with dots between them, and no other text is read as one.
pub proof fn law_ipv4_literals(s: Seq<char>, bits: u32)
    ensures
        ip_literal(s) == Some(IpAddr::V4(bits)) <==> s == dotted_bits(bits),
{
    lemma_bytes_of_bits(bits);
    let n = bits as nat;
    lemma_ipv4_text(n / 0x100_0000, n / 0x1_0000 % 0x100, n / 0x100 % 0x100, n % 0x100);
    lemma_ipv4_only(s);
}

proof fn lemma_nothing_to_trim(s: Seq<char>)
    requires
        s.len() > 0,
        !crate::text::is_white_space(s[0]),
        !crate::text::is_white_space(s.last()),
    ensures
        crate::text::trimmed(s) == s,
{
}

/// Every IPv4 address can be written and is read back, with white space around it or not.
pub proof fn law_ipv4_is_read_back(
    a: nat,
    b: nat,
    c: nat,
    d: nat,
    front: Seq<char>,
    back: Seq<char>,
)
    requires
        a <= 255 && b <= 255 && c <= 255 && d <= 255,
        crate::text::all_white(front),
        crate::text::all_white(back),
    ensures
        ip_literal(crate::text::trimmed(front + dotted(a, b, c, d) + back)) matches Some(
            IpAddr::V4(bits),
        ) && bits == a * 0x100_0000 + b * 0x1_0000 + c * 0x100 + d,
{
    let text = dotted(a, b, c, d);
    lemma_dotted(a, b, c, d);
    lemma_four_bytes(a, b, c, d);
    lemma_ipv4_text(a, b, c, d);
    lemma_nothing_to_trim(text);
    crate::text::law_white_space_around_does_not_count(front, text, back);
}

/// `s` spells the number `n` in one to four hexadecimal digits of either case.
pub open spec fn spells_group(s: Seq<char>, n: nat) -> bool {
    ||| s.len() == 1 && n < 0x10 && crate::text::is_hex_digit(s[0], n)
    ||| s.len() == 2 && n < 0x100 && crate::text::is_hex_digit(s[0], n / 0x10)
        && crate::text::is_hex_digit(s[1], n % 0x10)
    ||| s.len() == 3 && n < 0x1000 && crate::text::is_hex_digit(s[0], n / 0x100)
        && crate::text::is_hex_digit(s[1], n / 0x10 % 0x10) && crate::text::is_hex_digit(
        s[2],
        n % 0x10,
    )
    ||| s.len() == 4 && n < 0x1_0000 && crate::text::is_hex_digit(s[0], n / 0x1000)
        && crate::text::is_hex_digit(s[1], n / 0x100 % 0x10) && crate::text::is_hex_digit(
        s[2],
        n / 0x10 % 0x10,
    ) && crate::text::is_hex_digit(s[3], n % 0x10)
}

proof fn lemma_last_hex_digit(s: Seq<char>, n: nat)
    requires
        s.len() > 0,
    ensures
        crate::text::number(s, 16) == Some(n) <==> crate::text::number(s.drop_last(), 16) == Some(
            n / 0x10,
        ) && crate::text::is_hex_digit(s.last(), n % 0x10),
{
    crate::text::law_hex_digits(s.last(), n % 0x10);
    match crate::text::digit(s.last(), 16) {
        Some(v) => {
            crate::text::law_hex_digits(s.last(), v);
            match crate::text::number(s.drop_last(), 16) {
                Some(m) => {
                    assert((m * 16 + v) / 16 == m && (m * 16 + v) % 16 == v);
                    assert(n / 0x10 * 16 + n % 0x10 == n);
                },
                None => {},
            }
        },
        None => {},
    }
}

/// A group is one to four hexadecimal digits, and has the value that they spell.
pub proof fn law_groups(s: Seq<char>, n: nat)
    ensures
        group(s) == Some(n) <==> spells_group(s, n),
{
    if 1 <= s.len() <= 4 {
        lemma_last_hex_digit(s, n);
        let s1 = s.drop_last();
        let n1 = n / 0x10;
        if s.len() == 1 {
            assert(crate::text::number(s1, 16) == Some(0nat));
        } else {
            lemma_last_hex_digit(s1, n1);
            let s2 = s1.drop_last();
            let n2 = n1 / 0x10;
            assert(n2 == n / 0x100);
            if s.len() == 2 {
                assert(crate::text::number(s2, 16) == Some(0nat));
            } else {
                lemma_last_hex_digit(s2, n2);
                let s3 = s2.drop_last();
                let n3 = n2 / 0x10;
                assert(n3 == n / 0x1000);
                if s.len() == 3 {
                    assert(crate::text::number(s3, 16) == Some(0nat));
                } else {
                    lemma_last_hex_digit(s3, n3);
                    let s4 = s3.drop_last();
                    assert(n3 / 0x10 == n / 0x1_0000);
                    assert(crate::text::number(s4, 16) == Some(0nat));
                }
            }
        }
    }
}

proof fn lemma_group_text(s: Seq<char>, n: nat)
    requires
        spells_group(s, n),
    ensures
        n < 0x1_0000,
        1 <= s.len() <= 4,
        forall|i: int|
            0 <= i < s.len() ==> '0' <= #[trigger] s[i] <= '9' || 'a' <= s[i] <= 'f' || 'A' <= s[i]
                <= 'F',
{
    assert forall|i: int| 0 <= i < s.len() implies '0' <= #[trigger] s[i] <= '9' || 'a' <= s[i]
        <= 'f' || 'A' <= s[i] <= 'F' by {
        assert(i == 0 || i == 1 || i == 2 || i == 3);
    }
}

/// Each part spells the group in its place.
pub open spec fn spell_groups(parts: Seq<Seq<char>>, list: Seq<nat>) -> bool {
    &&& parts.len() == list.len()
    &&& forall|i: int| 0 <= i < parts.len() ==> spells_group(#[trigger] parts[i], list[i])
}

proof fn lemma_groups(parts: Seq<Seq<char>>, list: Seq<nat>)
    ensures
        groups(parts) == Some(list) <==> spell_groups(parts, list),
    decreases parts.len(),
{
    if parts.len() == 0 {
        assert(list.len() == 0 ==> list =~= seq![]);
    } else if list.len() > 0 {
        let front = parts.drop_last();
        lemma_groups(front, list.drop_last());
        law_groups(parts.last(), list.last());
        if groups(parts) == Some(list) {
            let most = groups(front)->0;
            assert(list.drop_last() =~= most);
            assert forall|i: int| 0 <= i < parts.len() implies spells_group(
                #[trigger] parts[i],
                list[i],
            ) by {
                if i < front.len() {
                    assert(spells_group(front[i], list.drop_last()[i]));
                }
            }
        }
        if spell_groups(parts, list) {
            assert forall|i: int| 0 <= i < front.len() implies spells_group(
                #[trigger] front[i],
                list.drop_last()[i],
            ) by {
                assert(front[i] == parts[i]);
            }
            assert(spells_group(parts[parts.len() - 1], list[parts.len() - 1]));
            assert(list =~= list.drop_last().push(list.last()));
        }
    } else {
        if groups(parts) == Some(list) {
            assert(list.len() > 0);
        }
    }
}

/// Groups with colons between them, and at the end, if there is one, an IPv4 address.
pub open spec fn list_parts(parts: Seq<Seq<char>>, v4: Option<u32>) -> Seq<Seq<char>> {
    match v4 {
        Some(bits) => parts.push(dotted_bits(bits)),
        None => parts,
    }
}

/// The groups of such a list: an IPv4 address stands for two.
pub open spec fn list_groups(list: Seq<nat>, v4: Option<u32>) -> Seq<nat> {
    match v4 {
        Some(bits) => list.push(bits as nat / 0x1_0000).push(bits as nat % 0x1_0000),
        None => list,
    }
}

/// One way to write an IPv6 address. In the long form all eight groups stand in the tail. In the
/// short form there are two colons between head and tail, for the groups of zero that are left out.
/// An IPv4 address may stand for the last two groups.
pub struct Ipv6Spelling {
    pub short: bool,
    pub head_parts: Seq<Seq<char>>,
    pub head: Seq<nat>,
    pub tail_parts: Seq<Seq<char>>,
    pub tail: Seq<nat>,
    pub v4: Option<u32>,
}

impl Ipv6Spelling {
    /// The parts spell the groups, and there are as many as there may be.
    pub open spec fn valid(self) -> bool {
        &&& spell_groups(self.head_parts, self.head)
        &&& spell_groups(self.tail_parts, self.tail)
        &&& if self.short {
            self.head.len() + list_groups(self.tail, self.v4).len() <= 7
        } else {
            self.head.len() == 0 && list_groups(self.tail, self.v4).len() == 8
        }
    }

    /// The text.
    pub open spec fn text(self) -> Seq<char> {
        let tail = crate::text::joined(list_parts(self.tail_parts, self.v4), ':');
        if self.short {
            crate::text::joined(self.head_parts, ':') + seq![':', ':'] + tail
        } else {
            tail
        }
    }

    /// The eight groups.
    pub open spec fn all_groups(self) -> Seq<nat> {
        let tail = list_groups(self.tail, self.v4);
        if self.short {
            self.head + Seq::new((8 - self.head.len() - tail.len()) as nat, |i: int| 0nat) + tail
        } else {
            tail
        }
    }

    /// The bits of the address: sixteen for each group, the first of them the most significant.
    pub open spec fn bits(self) -> nat {
        let g = self.all_groups();
        g[0] * 0x1_0000_0000_0000_0000_0000_0000_0000 + g[1] * 0x1_0000_0000_0000_0000_0000_0000
            + g[2] * 0x1_0000_0000_0000_0000_0000 + g[3] * 0x1_0000_0000_0000_0000 + g[4]
            * 0x1_0000_0000_0000 + g[5] * 0x1_0000_0000 + g[6] * 0x1_0000 + g[7]
    }
}

/// The parts of a list are not empty, and hold no colon and no white space.
proof fn lemma_list_parts(parts: Seq<Seq<char>>, list: Seq<nat>, v4: Option<u32>)
    requires
        spell_groups(parts, list),
    ensures
        forall|i: int|
            0 <= i < list_parts(parts, v4).len() ==> is_plain(#[trigger] list_parts(parts, v4)[i]),
{
    let all = list_parts(parts, v4);
    assert forall|i: int| 0 <= i < all.len() implies is_plain(#[trigger] all[i]) by {
        if i < parts.len() {
            assert(all[i] == parts[i]);
            lemma_group_text(parts[i], list[i]);
        } else {
            let n = v4->0 as nat;
            lemma_dotted(n / 0x100_0000, n / 0x1_0000 % 0x100, n / 0x100 % 0x100, n % 0x100);
        }
    }
}

/// A text that is not empty and holds no colon and no white space.
pub open spec fn is_plain(s: Seq<char>) -> bool {
    &&& s.len() > 0
    &&& forall|i: int|
        0 <= i < s.len() ==> #[trigger] s[i] != ':' && !crate::text::is_white_space(s[i])
}

proof fn lemma_joined_plain(parts: Seq<Seq<char>>)
    requires
        forall|i: int| 0 <= i < parts.len() ==> is_plain(#[trigger] parts[i]),
    ensures
        ({
            let s = crate::text::joined(parts, ':');
            &&& parts.len() == 0 <==> s.len() == 0
            &&& s.len() > 0 ==> s[0] != ':' && s.last() != ':'
            &&& forall|i: int| 0 <= i < s.len() ==> !crate::text::is_white_space(#[trigger] s[i])
            &&& forall|i: int| 0 <= i < s.len() - 1 ==> !(#[trigger] s[i] == ':' && s[i + 1] == ':')
            &&& parts.len() >= 2 ==> s.contains(':')
        }),
    decreases parts.len(),
{
    let s = crate::text::joined(parts, ':');
    if parts.len() > 0 {
        let first = parts[0];
        let n = first.len() as int;
        assert(is_plain(first));
        if parts.len() == 1 {
            assert(s == first);
        } else {
            let others = parts.drop_first();
            assert forall|i: int| 0 <= i < others.len() implies is_plain(#[trigger] others[i]) by {
                assert(others[i] == parts[i + 1]);
            }
            lemma_joined_plain(others);
            let rest = crate::text::joined(others, ':');
            assert(s == first.push(':') + rest);
            assert(s[0] == first[0]);
            assert(s.last() == rest.last());
            assert(s[n] == ':');
            assert(s.contains(s[n]));
            assert forall|i: int| 0 <= i < s.len() implies !crate::text::is_white_space(
                #[trigger] s[i],
            ) by {
                if i < n {
                    assert(s[i] == first[i]);
                } else if i > n {
                    assert(s[i] == rest[i - n - 1]);
                }
            }
            assert forall|i: int| 0 <= i < s.len() - 1 implies !(#[trigger] s[i] == ':' && s[i + 1]
                == ':') by {
                if i < n {
                    assert(s[i] == first[i]);
                } else if i == n {
                    assert(s[i + 1] == rest[0]);
                } else {
                    assert(s[i] == rest[i - n - 1]);
                    assert(s[i + 1] == rest[i - n]);
                }
            }
        }
    }
}

proof fn lemma_pieces_of_plain(parts: Seq<Seq<char>>)
    requires
        parts.len() > 0,
        forall|i: int| 0 <= i < parts.len() ==> is_plain(#[trigger] parts[i]),
    ensures
        crate::text::pieces(crate::text::joined(parts, ':'), ':') == parts,
{
    assert forall|i: int| 0 <= i < parts.len() implies !(#[trigger] parts[i]).contains(':') by {
        assert(is_plain(parts[i]));
    }
    crate::text::law_joined_pieces(parts, ':');
}

proof fn lemma_group_is_no_ipv4(s: Seq<char>, n: nat)
    requires
        spells_group(s, n),
    ensures
        ipv4_literal(s) is None,
{
    lemma_group_text(s, n);
    crate::text::lemma_before(s, '.', s.len());
    assert(crate::text::pieces(s, '.').len() == 1);
}

proof fn lemma_list_is_read(
    parts: Seq<Seq<char>>,
    list: Seq<nat>,
    v4: Option<u32>,
    may_end_in_ipv4: bool,
)
    requires
        spell_groups(parts, list),
        v4 is Some ==> may_end_in_ipv4,
    ensures
        ({
            let s = crate::text::joined(list_parts(parts, v4), ':');
            &&& group_list_or_none(s, may_end_in_ipv4) == Some(list_groups(list, v4))
            &&& s.len() > 0 ==> group_list(s, may_end_in_ipv4) == Some(list_groups(list, v4))
        }),
{
    let all = list_parts(parts, v4);
    let s = crate::text::joined(all, ':');
    lemma_list_parts(parts, list, v4);
    lemma_joined_plain(all);
    if all.len() == 0 {
        assert(list =~= seq![]);
    } else {
        lemma_pieces_of_plain(all);
        lemma_groups(parts, list);
        match v4 {
            Some(bits) => {
                let n = bits as nat;
                lemma_bytes_of_bits(bits);
                lemma_ipv4_text(
                    n / 0x100_0000,
                    n / 0x1_0000 % 0x100,
                    n / 0x100 % 0x100,
                    n % 0x100,
                );
                assert(all.last() == dotted_bits(bits));
                assert(all.drop_last() =~= parts);
            },
            None => {
                assert(spells_group(parts[parts.len() - 1], list[parts.len() - 1]));
                lemma_group_is_no_ipv4(parts.last(), list.last());
            },
        }
    }
}

proof fn lemma_list_was_written(s: Seq<char>, may_end_in_ipv4: bool, or_none: bool) -> (found: (
    Seq<Seq<char>>,
    Seq<nat>,
    Option<u32>,
))
    ensures
        ({
            let read = if or_none {
                group_list_or_none(s, may_end_in_ipv4)
            } else {
                group_list(s, may_end_in_ipv4)
            };
            read matches Some(all) ==> {
                &&& spell_groups(found.0, found.1)
                &&& found.2 is Some ==> may_end_in_ipv4
                &&& s == crate::text::joined(list_parts(found.0, found.2), ':')
                &&& all == list_groups(found.1, found.2)
            }
        }),
{
    let parts = crate::text::pieces(s, ':');
    crate::text::law_pieces(s, ':');
    if or_none && s.len() == 0 {
        (seq![], seq![], None)
    } else if group_list(s, may_end_in_ipv4) is None {
        (seq![], seq![], None)
    } else {
        match ipv4_literal(parts.last()) {
            Some(n) if may_end_in_ipv4 => {
                let front = parts.drop_last();
                let list = groups(front)->0;
                lemma_ipv4_only(parts.last());
                lemma_groups(front, list);
                assert(parts =~= list_parts(front, Some(n as u32)));
                (front, list, Some(n as u32))
            },
            _ => {
                let list = groups(parts)->0;
                lemma_groups(parts, list);
                (parts, list, None)
            },
        }
    }
}

proof fn lemma_double_colon(s: Seq<char>, n: nat)
    requires
        n <= s.len(),
        forall|i: int|
            0 <= i < n ==> !(#[trigger] s[i] == ':' && i + 1 < s.len() && s[i + 1] == ':'),
        n < s.len() ==> n + 1 < s.len() && s[n as int] == ':' && s[n as int + 1] == ':',
    ensures
        before_double_colon(s) == n,
    decreases s.len(),
{
    if n > 0 {
        let rest = s.drop_first();
        assert(!(s[0] == ':' && 1 < s.len() && s[1] == ':'));
        assert forall|i: int| 0 <= i < n - 1 implies !(#[trigger] rest[i] == ':' && i + 1
            < rest.len() && rest[i + 1] == ':') by {
            assert(rest[i] == s[i + 1]);
            if i + 1 < rest.len() {
                assert(rest[i + 1] == s[i + 2]);
            }
        }
        lemma_double_colon(rest, (n - 1) as nat);
    }
}

proof fn lemma_double_colon_is_there(s: Seq<char>)
    ensures
        before_double_colon(s) <= s.len(),
        before_double_colon(s) < s.len() ==> before_double_colon(s) + 2 <= s.len()
            && s[before_double_colon(s) as int] == ':' && s[before_double_colon(s) as int + 1]
            == ':',
    decreases s.len(),
{
    if s.len() > 0 && !(s.len() >= 2 && s[0] == ':' && s[1] == ':') {
        lemma_double_colon_is_there(s.drop_first());
    }
}

proof fn lemma_short_text(head: Seq<char>, tail: Seq<char>)
    requires
        head.len() > 0 ==> head.last() != ':' && !crate::text::is_white_space(head[0]),
        forall|i: int|
            0 <= i < head.len() - 1 ==> !(#[trigger] head[i] == ':' && head[i + 1] == ':'),
        tail.len() > 0 ==> !crate::text::is_white_space(tail.last()),
    ensures
        ({
            let s = head + seq![':', ':'] + tail;
            let n = head.len() as int;
            &&& before_double_colon(s) == n
            &&& n < s.len()
            &&& s.take(n) == head
            &&& s.skip(n + 2) == tail
            &&& s.contains(':')
            &&& !crate::text::is_white_space(s[0])
            &&& !crate::text::is_white_space(s.last())
        }),
{
    let s = head + seq![':', ':'] + tail;
    let n = head.len() as int;
    assert(s[n] == ':' && s[n + 1] == ':');
    assert(s.contains(s[n]));
    assert forall|i: int| 0 <= i < n implies !(#[trigger] s[i] == ':' && i + 1 < s.len() && s[i + 1]
        == ':') by {
        assert(s[i] == head[i]);
        if i + 1 < n {
            assert(s[i + 1] == head[i + 1]);
        }
    }
    lemma_double_colon(s, head.len());
    assert(s.take(n) =~= head);
    assert(s.skip(n + 2) =~= tail);
    if n > 0 {
        assert(s[0] == head[0]);
    }
    if tail.len() > 0 {
        assert(s.last() == tail.last());
    }
}

proof fn lemma_short_is_read(w: Ipv6Spelling)
    requires
        w.valid(),
        w.short,
    ensures
        ipv6_groups(w.text()) == Some(w.all_groups()),
        w.text().contains(':'),
        !crate::text::is_white_space(w.text()[0]),
        !crate::text::is_white_space(w.text().last()),
{
    let head = crate::text::joined(w.head_parts, ':');
    let tail = crate::text::joined(list_parts(w.tail_parts, w.v4), ':');
    let n = head.len() as int;
    lemma_list_parts(w.tail_parts, w.tail, w.v4);
    lemma_joined_plain(list_parts(w.tail_parts, w.v4));
    lemma_list_parts(w.head_parts, w.head, None);
    lemma_joined_plain(w.head_parts);
    lemma_short_text(head, tail);
    lemma_list_is_read(w.tail_parts, w.tail, w.v4, true);
    lemma_list_is_read(w.head_parts, w.head, None, false);
    let s = w.text();
    assert(s == head + seq![':', ':'] + tail);
    assert(group_list_or_none(s.take(n), false) == Some(w.head));
    assert(group_list_or_none(s.skip(n + 2), true) == Some(list_groups(w.tail, w.v4)));
}

proof fn lemma_long_is_read(w: Ipv6Spelling)
    requires
        w.valid(),
        !w.short,
    ensures
        ipv6_groups(w.text()) == Some(w.all_groups()),
        w.text().contains(':'),
        !crate::text::is_white_space(w.text()[0]),
        !crate::text::is_white_space(w.text().last()),
{
    let s = w.text();
    let parts = list_parts(w.tail_parts, w.v4);
    lemma_list_parts(w.tail_parts, w.tail, w.v4);
    lemma_joined_plain(parts);
    assert(parts.len() >= 7);
    lemma_double_colon(s, s.len());
    lemma_list_is_read(w.tail_parts, w.tail, w.v4, true);
}

proof fn lemma_ipv6_is_read(w: Ipv6Spelling)
    requires
        w.valid(),
    ensures
        ipv6_groups(w.text()) == Some(w.all_groups()),
        w.text().len() > 0,
        w.text().contains(':'),
        !crate::text::is_white_space(w.text()[0]),
        !crate::text::is_white_space(w.text().last()),
{
    if w.short {
        lemma_short_is_read(w);
    } else {
        lemma_long_is_read(w);
    }
}

proof fn lemma_ipv6_was_written(s: Seq<char>) -> (w: Ipv6Spelling)
    ensures
        ipv6_groups(s) matches Some(all) ==> w.valid() && s == w.text() && all == w.all_groups(),
{
    let n = before_double_colon(s) as int;
    lemma_double_colon_is_there(s);
    if n >= s.len() {
        let (tail_parts, tail, v4) = lemma_list_was_written(s, true, false);
        Ipv6Spelling { short: false, head_parts: seq![], head: seq![], tail_parts, tail, v4 }
    } else {
        let (head_parts, head, none) = lemma_list_was_written(s.take(n), false, true);
        let (tail_parts, tail, v4) = lemma_list_was_written(s.skip(n + 2), true, true);
        assert(s =~= s.take(n) + seq![':', ':'] + s.skip(n + 2));
        Ipv6Spelling { short: true, head_parts, head, tail_parts, tail, v4 }
    }
}

proof fn lemma_all_groups(w: Ipv6Spelling)
    requires
        w.valid(),
    ensures
        w.all_groups().len() == 8,
        forall|i: int| 0 <= i < 8 ==> #[trigger] w.all_groups()[i] < 0x1_0000,
{
    let all = w.all_groups();
    let tail = list_groups(w.tail, w.v4);
    assert forall|i: int| 0 <= i < tail.len() implies #[trigger] tail[i] < 0x1_0000 by {
        if i < w.tail.len() {
            assert(tail[i] == w.tail[i]);
            lemma_group_text(w.tail_parts[i], w.tail[i]);
        }
    }
    assert forall|i: int| 0 <= i < 8 implies #[trigger] all[i] < 0x1_0000 by {
        if w.short {
            let zeros = 8 - w.head.len() - tail.len();
            if i < w.head.len() {
                assert(all[i] == w.head[i]);
                lemma_group_text(w.head_parts[i], w.head[i]);
            } else if i >= w.head.len() + zeros {
                assert(all[i] == tail[i - w.head.len() - zeros]);
            }
        }
    }
}

proof fn lemma_bits_of_groups(w: Ipv6Spelling)
    requires
        w.valid(),
    ensures
        groups_value(w.all_groups()) == w.bits(),
        0 <= w.bits() <= u128::MAX,
{
    let all = w.all_groups();
    lemma_all_groups(w);
    reveal_with_fuel(groups_value, 9);
    assert(all.take(1).drop_last() =~= all.take(0));
    assert(all.take(2).drop_last() =~= all.take(1));
    assert(all.take(3).drop_last() =~= all.take(2));
    assert(all.take(4).drop_last() =~= all.take(3));
    assert(all.take(5).drop_last() =~= all.take(4));
    assert(all.take(6).drop_last() =~= all.take(5));
    assert(all.take(7).drop_last() =~= all.take(6));
    assert(all.take(8).drop_last() =~= all.take(7));
    assert(all.take(8) =~= all);
}

/// The IPv6 addresses that are read are those that are written, in long or short form, and no other
/// text is read as one.
pub proof fn law_ipv6_literals(s: Seq<char>, bits: u128)
    ensures
        ip_literal(s) == Some(IpAddr::V6(bits)) <==> exists|w: Ipv6Spelling| #[trigger]
            w.valid() && w.text() == s && w.bits() == bits,
{
    if ip_literal(s) == Some(IpAddr::V6(bits)) {
        let w = lemma_ipv6_was_written(s);
        lemma_bits_of_groups(w);
        assert(w.valid() && w.text() == s && w.bits() == bits);
    }
    if exists|w: Ipv6Spelling| #[trigger] w.valid() && w.text() == s && w.bits() == bits {
        let w = choose|w: Ipv6Spelling| #[trigger] w.valid() && w.text() == s && w.bits() == bits;
        law_ipv6_is_read_back(w, seq![], seq![]);
        let none = Seq::<char>::empty();
        lemma_ipv6_is_read(w);
        lemma_nothing_to_trim(s);
        assert(none + s + none =~= s);
    }
}

/// Every IPv6 address can be written, in every spelling, and is read back, with white space around
/// it or not.
pub proof fn law_ipv6_is_read_back(w: Ipv6Spelling, front: Seq<char>, back: Seq<char>)
    requires
        w.valid(),
        crate::text::all_white(front),
        crate::text::all_white(back),
    ensures
        ip_literal(crate::text::trimmed(front + w.text() + back)) matches Some(IpAddr::V6(bits))
            && bits == w.bits(),
{
    let s = w.text();
    lemma_ipv6_is_read(w);
    lemma_bits_of_groups(w);
    lemma_nothing_to_trim(s);
    crate::text::law_white_space_around_does_not_count(front, s, back);
    lemma_ipv4_only(s);
    if ipv4_literal(s) is Some {
        let n = (ipv4_literal(s)->0 as u32) as nat;
        lemma_dotted(n / 0x100_0000, n / 0x1_0000 % 0x100, n / 0x100 % 0x100, n % 0x100);
        let i = choose|i: int| 0 <= i < s.len() && s[i] == ':';
        assert(s[i] == ':');
    }
}

/// Every list of eight groups of 16 bits, each in one to four hexadecimal digits, with colons
/// between them, is read as the address with these bits.
pub proof fn law_eight_groups_are_read_back(parts: Seq<Seq<char>>, list: Seq<nat>)
    requires
        spell_groups(parts, list),
        parts.len() == 8,
    ensures
        ip_literal(crate::text::joined(parts, ':')) matches Some(IpAddr::V6(bits)) && bits == list[0]
            * 0x1_0000_0000_0000_0000_0000_0000_0000 + list[1]
            * 0x1_0000_0000_0000_0000_0000_0000 + list[2] * 0x1_0000_0000_0000_0000_0000 + list[3]
            * 0x1_0000_0000_0000_0000 + list[4] * 0x1_0000_0000_0000 + list[5] * 0x1_0000_0000
            + list[6] * 0x1_0000 + list[7],
{
    let w = Ipv6Spelling {
        short: false,
        head_parts: seq![],
        head: seq![],
        tail_parts: parts,
        tail: list,
        v4: None,
    };
    assert(w.valid());
    let none = Seq::<char>::empty();
    lemma_ipv6_is_read(w);
    lemma_nothing_to_trim(w.text());
    law_ipv6_is_read_back(w, none, none);
    assert(none + w.text() + none =~= w.text());
}

/// Reading the address to bind: a text of white space names none; an address in any of its
/// spellings, with white space around it or not, is read as that address; nothing else is accepted,
/// and the error shows the text without the white space.
pub proof fn law_bind_address(value: &str, address: Result<Option<IpAddr>, InvalidBindAddress>)
    requires
        call_ensures(parse_bind_address, (value,), address),
    ensures
        address matches Ok(None) <==> crate::text::all_white(value@),
        forall|bits: u32|
            (address matches Ok(Some(IpAddr::V4(found))) && found == bits) <==> crate::text::trimmed(
                value@,
            ) == #[trigger] dotted_bits(bits),
        (address matches Ok(Some(IpAddr::V6(_)))) <==> exists|w: Ipv6Spelling| #[trigger]
            w.valid() && w.text() == crate::text::trimmed(value@),
        forall|w: Ipv6Spelling| #[trigger]
            w.valid() && w.text() == crate::text::trimmed(value@) ==> (address matches Ok(
                Some(IpAddr::V6(bits)),
            ) && bits == w.bits()),
        address matches Err(e) ==> e.value@ == crate::text::trimmed(value@),
{
    let text = crate::text::trimmed(value@);
    crate::text::law_white_text(value@);
    assert forall|bits: u32|
        (address matches Ok(Some(IpAddr::V4(found))) && found == bits) <==> text
            == #[trigger] dotted_bits(bits) by {
        law_ipv4_literals(text, bits);
        let n = bits as nat;
        lemma_dotted(n / 0x100_0000, n / 0x1_0000 % 0x100, n / 0x100 % 0x100, n % 0x100);
    }
    assert forall|w: Ipv6Spelling| #[trigger] w.valid() && w.text() == text implies (
    address matches Ok(Some(IpAddr::V6(bits))) && bits == w.bits()) by {
        lemma_bits_of_groups(w);
        lemma_ipv6_is_read(w);
        law_ipv6_literals(text, w.bits() as u128);
    }
    match address {
        Ok(Some(IpAddr::V6(bits))) => {
            law_ipv6_literals(text, bits);
        },
        _ => {},
    }
}

/// Where to listen: on the address that was set, or else on any, and at the port in either case.
/// The console has a listener of its own, at 127.0.0.1 and the port, exactly where an address was
/// set that is none of 0.0.0.0, `::` and 127.0.0.1.
pub proof fn law_where_to_listen(
    bind_addr: Option<IpAddr>,
    port: u16,
    target: ListenOn,
    console_listener: Option<SocketAddr>,
)
    requires
        call_ensures(tcp_listen_target, (bind_addr, port), target),
        call_ensures(console_addr, (bind_addr, port), console_listener),
    ensures
        bind_addr is None ==> target == ListenOn::AnyAddress(port) && console_listener is None,
        bind_addr matches Some(ip) ==> {
            &&& target == ListenOn::Address(SocketAddr { ip, port })
            &&& (ip == IpAddr::V4(0) || ip == IpAddr::V6(0) || ip == IpAddr::V4(0x7f00_0001))
                ==> console_listener is None
            &&& (ip != IpAddr::V4(0) && ip != IpAddr::V6(0) && ip != IpAddr::V4(0x7f00_0001))
                ==> console_listener == Some(SocketAddr { ip: IpAddr::V4(0x7f00_0001), port })
        },
{
}

/// A server's name is looked up with a port, zero where it has none, and the first address that is
/// found is the server's.
pub proof fn law_lookup_of_a_server(
    host: &str,
    text: String,
    addresses: &Vec<SocketAddr>,
    address: Option<SocketAddr>,
)
    requires
        call_ensures(server_lookup_text, (host,), text),
        call_ensures(first_address, (addresses,), address),
    ensures
        (exists|i: int| 0 <= i < host@.len() && #[trigger] host@[i] == ':') ==> text@ == host@,
        (forall|i: int| 0 <= i < host@.len() ==> #[trigger] host@[i] != ':') ==> text@
            == host@.push(':').push('0'),
        address is None <==> addresses@.len() == 0,
        address matches Some(first) ==> first == addresses@[0],
{
    law_lookup_text(host@);
}

/// The names in a list are found in their order, and those for which `valid` holds `true` are kept.
pub proof fn law_servers(s: &str, valid: &Vec<bool>, names: Vec<String>, servers: Vec<String>)
    requires
        call_ensures(server_names, (s,), names),
        call_ensures(get_servers, (s, valid), servers),
    ensures
        crate::text::strings(names@) == named_servers(s@),
        crate::text::strings(servers@) == kept(named_servers(s@), valid@),
{
}

/// The user is told the text that names no address.
pub proof fn law_message(error: InvalidBindAddress, text: String)
    requires
        call_ensures(InvalidBindAddress::message, (&error,), text),
    ensures
        text@ == "Invalid bind address: "@ + error.value@,
{
}

} // verus!
