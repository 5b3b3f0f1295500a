//! The `network:` section of a recipe: what it says of a box, and the ports
//! it publishes.

use crate::config::{Network, NetworkMode, NetworkView};
use crate::error::{self, Error, Refusal};
use crate::text::{self, chars_of, find_char, parse_unsigned, spell, text_between};
use vstd::prelude::*;

pub mod laws;

verus! {

/// The posture of a network section in a phrase.
pub open spec fn posture(net: NetworkView) -> Seq<char> {
    match net.mode {
        NetworkMode::UnrestrictedPublic => if net.allow.len() == 0 {
            "unrestricted-public (public egress only)"@
        } else {
            "unrestricted-public (public egress + listed rules)"@
        },
        NetworkMode::Allowlist => if net.allow.len() == 0 && net.hosts.len() == 0 {
            "none (allowlist with no rules - nothing gets out, not even DNS)"@
        } else if net.allow.len() == 0 {
            "none (allowlist with no allow rules - the hosts: records resolve, and nothing is reachable)"@
        } else {
            "allowlist active (deny by default)"@
        },
    }
}

pub fn describe(net: &Network) -> (phrase: &'static str)
    ensures
        phrase@ == posture(net@),
{
    match net.mode {
        NetworkMode::UnrestrictedPublic => if net.allow.len() == 0 {
            "unrestricted-public (public egress only)"
        } else {
            "unrestricted-public (public egress + listed rules)"
        },
        NetworkMode::Allowlist => if net.allow.len() == 0 && net.hosts.len() == 0 {
            "none (allowlist with no rules - nothing gets out, not even DNS)"
        } else if net.allow.len() == 0 {
            "none (allowlist with no allow rules - the hosts: records resolve, and nothing is reachable)"
        } else {
            "allowlist active (deny by default)"
        },
    }
}

/// A guest port reached through a port of the host's loopback.
#[derive(Debug, Clone, Copy, PartialEq, Eq, Structural)]
pub struct PortMapping {
    pub host: u16,
    pub guest: u16,
}

/// The two sides of `HOST[:GUEST]`; one alone stands for both.
pub open spec fn port_sides(spec: Seq<char>) -> (Seq<char>, Seq<char>) {
    let colon = text::first_at(spec, ':', 0);
    if colon < spec.len() {
        (spec.take(colon), spec.skip(colon + 1))
    } else {
        (spec, spec)
    }
}

pub fn split_port_spec(spec: &str) -> (sides: (String, String))
    ensures
        (sides.0@, sides.1@) == port_sides(spec@),
{
    let chars = chars_of(spec);
    let colon: usize = find_char(&chars, ':', 0);
    if colon < chars.len() {
        let host = text_between(&chars, 0, colon);
        let guest = text_between(&chars, colon + 1, chars.len());
        proof {
            assert(host@ =~= spec@.take(colon as int));
            assert(guest@ =~= spec@.skip(colon + 1));
        }
        (host, guest)
    } else {
        (spec.to_owned(), spec.to_owned())
    }
}

/// The port a word spells, where it spells one: a number from 1 to 65535.
pub open spec fn port_of(word: Seq<char>) -> Option<u16> {
    match text::unsigned(word, 65535) {
        Some(n) => if n > 0 {
            Some(n as u16)
        } else {
            None
        },
        None => None,
    }
}

pub fn parse_port(word: &str) -> (port: Option<u16>)
    ensures
        port == port_of(word@),
{
    match parse_unsigned(word, 65535) {
        Some(n) => if n > 0 {
            Some(n as u16)
        } else {
            None
        },
        None => None,
    }
}

/// The guest port a host port already carries.
pub open spec fn carried_by(mappings: Seq<PortMapping>, host: u16) -> Option<u16>
    decreases mappings.len(),
{
    if mappings.len() == 0 {
        None
    } else if mappings[0].host == host {
        Some(mappings[0].guest)
    } else {
        carried_by(mappings.drop_first(), host)
    }
}

/// The mappings a list of entries stands for, or why one of them is refused.
pub open spec fn port_mappings(specs: Seq<Seq<char>>) -> Result<Seq<PortMapping>, Refusal>
    decreases specs.len(),
{
    if specs.len() == 0 {
        Ok(Seq::empty())
    } else {
        match port_mappings(specs.drop_last()) {
            Err(refused) => Err(refused),
            Ok(mappings) => {
                let spec = specs.last();
                let (host_side, guest_side) = port_sides(spec);
                match (port_of(host_side), port_of(guest_side)) {
                    (None, _) => Err(
                        error::refusal(
                            "invalid published port '"@ + spec
                                + "': host port must be 1-65535"@,
                        ),
                    ),
                    (Some(_), None) => Err(
                        error::refusal(
                            "invalid published port '"@ + spec
                                + "': guest port must be 1-65535"@,
                        ),
                    ),
                    (Some(host), Some(guest)) => match carried_by(mappings, host) {
                        Some(earlier) => Err(
                            error::refusal(
                                "published port '"@ + spec + "': host port "@ + text::decimal(
                                    host as nat,
                                ) + " already carries guest port "@ + text::decimal(earlier as nat),
                            ),
                        ),
                        None => Ok(mappings.push(PortMapping { host, guest })),
                    },
                }
            },
        }
    }
}

fn find_carried(mappings: &Vec<PortMapping>, host: u16) -> (guest: Option<u16>)
    ensures
        guest == carried_by(mappings@, host),
{
    let mut i: usize = 0;
    proof {
        assert(mappings@.skip(0) =~= mappings@);
    }
    while i < mappings.len()
        invariant
            i <= mappings@.len(),
            carried_by(mappings@, host) == carried_by(mappings@.skip(i as int), host),
        decreases mappings.len() - i,
    {
        proof {
            assert(mappings@.skip(i as int).drop_first() =~= mappings@.skip(i + 1));
        }
        if mappings[i].host == host {
            return Some(mappings[i].guest);
        }
        i = i + 1;
    }
    None
}

proof fn lemma_refused_prefix(specs: Seq<Seq<char>>, n: int)
    requires
        0 <= n <= specs.len(),
        port_mappings(specs.take(n)) is Err,
    ensures
        port_mappings(specs) == port_mappings(specs.take(n)),
    decreases specs.len() - n,
{
    if n < specs.len() {
        assert(specs.take(n + 1).drop_last() =~= specs.take(n));
        lemma_refused_prefix(specs, n + 1);
    } else {
        assert(specs.take(n) =~= specs);
    }
}

/// The ports a recipe publishes, each host port at most once.
pub fn parse_port_mappings(specs: &Vec<String>) -> (mappings: Result<Vec<PortMapping>, Error>)
    ensures
        match mappings {
            Ok(list) => port_mappings(text::texts(specs@)) == Ok::<_, Refusal>(list@),
            Err(error) => port_mappings(text::texts(specs@)) == Err::<Seq<PortMapping>, _>(error@),
        },
{
    let mut mappings: Vec<PortMapping> = Vec::new();
    let mut i: usize = 0;
    proof {
        assert(text::texts(specs@).take(0) =~= Seq::empty());
    }
    while i < specs.len()
        invariant
            i <= specs@.len(),
            port_mappings(text::texts(specs@).take(i as int)) == Ok::<_, Refusal>(
                mappings@,
            ),
        decreases specs.len() - i,
    {
        proof {
            let next = text::texts(specs@).take(i + 1);
            assert(next.drop_last() =~= text::texts(specs@).take(i as int));
            assert(next.last() == specs@[i as int]@);
            if port_mappings(next) is Err {
                lemma_refused_prefix(text::texts(specs@), i + 1);
            }
        }
        let spec = specs[i].as_str();
        let (host_side, guest_side) = split_port_spec(spec);
        let host: u16 = match parse_port(host_side.as_str()) {
            Some(port) => port,
            None => {
                let mut message: String = "invalid published port '".to_owned();
                message.append(spec);
                message.append("': host port must be 1-65535");
                return Err(Error::new(message));
            },
        };
        let guest: u16 = match parse_port(guest_side.as_str()) {
            Some(port) => port,
            None => {
                let mut message: String = "invalid published port '".to_owned();
                message.append(spec);
                message.append("': guest port must be 1-65535");
                return Err(Error::new(message));
            },
        };
        if let Some(earlier) = find_carried(&mappings, host) {
            let mut message: String = "published port '".to_owned();
            message.append(spec);
            message.append("': host port ");
            message.append(spell(host as u64).as_str());
            message.append(" already carries guest port ");
            message.append(spell(earlier as u64).as_str());
            return Err(Error::new(message));
        }
        mappings.push(PortMapping { host, guest });
        i = i + 1;
    }
    proof {
        assert(text::texts(specs@).take(i as int) =~= text::texts(specs@));
    }
    Ok(mappings)
}

proof fn lemma_not_carried(mappings: Seq<PortMapping>, host: u16)
    requires
        carried_by(mappings, host) is None,
    ensures
        forall|i: int| 0 <= i < mappings.len() ==> (#[trigger] mappings[i]).host != host,
    decreases mappings.len(),
{
    if mappings.len() > 0 {
        lemma_not_carried(mappings.drop_first(), host);
        assert forall|i: int| 0 <= i < mappings.len() implies (#[trigger] mappings[i]).host
            != host by {
            if i > 0 {
                assert(mappings.drop_first()[i - 1] == mappings[i]);
            }
        }
    }
}

/// Accepted mappings never share a host port.
pub proof fn accepted_host_ports_are_distinct(specs: Seq<Seq<char>>)
    requires
        port_mappings(specs) is Ok,
    ensures
        port_mappings(specs)->Ok_0.len() == specs.len(),
        forall|i: int, j: int|
            0 <= i < j < specs.len() ==> (#[trigger] port_mappings(specs)->Ok_0[i]).host != (
            #[trigger] port_mappings(specs)->Ok_0[j]).host,
    decreases specs.len(),
{
    if specs.len() > 0 {
        accepted_host_ports_are_distinct(specs.drop_last());
        let before = port_mappings(specs.drop_last())->Ok_0;
        let all = port_mappings(specs)->Ok_0;
        lemma_not_carried(before, all.last().host);
        assert forall|i: int, j: int| 0 <= i < j < specs.len() implies (#[trigger] all[i]).host != (
        #[trigger] all[j]).host by {
            assert(all[i] == before[i]);
            if j < specs.len() - 1 {
                assert(all[j] == before[j]);
            }
        }
    }
}

} // verus!
