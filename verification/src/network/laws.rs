//! Which ports are published, and what is said of a network.

use crate::config::{NetworkMode, NetworkView};
use crate::network::{self, PortMapping};
use crate::text;
use vstd::prelude::*;

verus! {

/// `HOST:GUEST` publishes the guest's port at the host's, and a bare port at the
/// same one on both sides.
pub proof fn ports_are_published_as_written(host: u16, guest: u16)
    requires
        host > 0,
        guest > 0,
    ensures
        ({
            let (a, b) = network::port_sides(
                text::decimal(host as nat) + seq![':'] + text::decimal(guest as nat),
            );
            network::port_of(a) == Some(host) && network::port_of(b) == Some(guest)
        }),
        ({
            let (a, b) = network::port_sides(text::decimal(host as nat));
            network::port_of(a) == Some(host) && network::port_of(b) == Some(host)
        }),
{
    let (x, y) = (text::decimal(host as nat), text::decimal(guest as nat));
    text::lemma_decimal_round_trip(host as nat);
    text::lemma_decimal_round_trip(guest as nat);
    text::lemma_unsigned_round_trip(host as nat, 65535);
    text::lemma_unsigned_round_trip(guest as nat, 65535);
    let spec = x + seq![':'] + y;
    text::lemma_first_at(spec, ':', 0);
    let at = text::first_at(spec, ':', 0);
    assert(spec[x.len() as int] == ':');
    if at < x.len() {
        assert('0' <= x[at] <= '9');
        assert(spec[at] == x[at]);
    }
    assert(spec.take(at) =~= x);
    assert(spec.skip(at + 1) =~= y);
    text::lemma_first_at(x, ':', 0);
    let none = text::first_at(x, ':', 0);
    if none < x.len() {
        assert('0' <= x[none] <= '9');
    }
}

/// The ports a recipe publishes are accepted exactly where every one of them can
/// be read on both sides and no two share a host port; they are then published in
/// the order they are written.
pub proof fn ports_are_accepted_where_they_are_distinct(specs: Seq<Seq<char>>)
    ensures
        network::port_mappings(specs) is Ok <==> {
            &&& forall|i: int|
                0 <= i < specs.len() ==> network::port_of(
                    network::port_sides(#[trigger] specs[i]).0,
                ) is Some && network::port_of(network::port_sides(specs[i]).1) is Some
            &&& forall|i: int, j: int|
                0 <= i < j < specs.len() ==> network::port_of(
                    network::port_sides(#[trigger] specs[i]).0,
                ) != network::port_of(network::port_sides(#[trigger] specs[j]).0)
        },
        network::port_mappings(specs) matches Ok(all) ==> {
            &&& all.len() == specs.len()
            &&& forall|i: int|
                0 <= i < specs.len() ==> Some((#[trigger] all[i]).host) == network::port_of(
                    network::port_sides(specs[i]).0,
                ) && Some(all[i].guest) == network::port_of(network::port_sides(specs[i]).1)
        },
    decreases specs.len(),
{
    if specs.len() > 0 {
        let init = specs.drop_last();
        ports_are_accepted_where_they_are_distinct(init);
        let last = specs.last();
        let (host_side, guest_side) = network::port_sides(last);
        match network::port_mappings(init) {
            Ok(before) => {
                assert forall|i: int| 0 <= i < init.len() implies init[i] == specs[i] by {}
                if let Some(host) = network::port_of(host_side) {
                    lemma_carried(before, host);
                    if network::port_mappings(specs) is Ok {
                        let all = network::port_mappings(specs)->Ok_0;
                        assert forall|i: int, j: int| 0 <= i < j < specs.len() implies network::port_of(
                            network::port_sides(#[trigger] specs[i]).0,
                        ) != network::port_of(network::port_sides(#[trigger] specs[j]).0) by {
                            assert(init[i] == specs[i]);
                            if j < init.len() {
                                assert(init[j] == specs[j]);
                            } else {
                                assert(before[i].host != host);
                            }
                        }
                        assert forall|i: int| 0 <= i < specs.len() implies Some(
                            (#[trigger] all[i]).host,
                        ) == network::port_of(network::port_sides(specs[i]).0) && Some(all[i].guest)
                            == network::port_of(network::port_sides(specs[i]).1) by {
                            if i < init.len() {
                                assert(all[i] == before[i]);
                                assert(init[i] == specs[i]);
                            }
                        }
                        assert forall|i: int| 0 <= i < specs.len() implies network::port_of(
                            network::port_sides(#[trigger] specs[i]).0,
                        ) is Some && network::port_of(network::port_sides(specs[i]).1) is Some by {
                            assert(Some(all[i].host) == network::port_of(
                                network::port_sides(specs[i]).0,
                            ));
                        }
                    } else if network::port_of(guest_side) is Some {
                        let i = choose|i: int|
                            0 <= i < before.len() && (#[trigger] before[i]).host == host;
                        assert(network::port_of(network::port_sides(specs[i]).0)
                            == network::port_of(
                            network::port_sides(specs[specs.len() - 1]).0,
                        ));
                    } else {
                        assert(specs[specs.len() - 1] == last);
                    }
                } else {
                    assert(specs[specs.len() - 1] == last);
                }
            },
            Err(_) => {
                if forall|i: int|
                    0 <= i < specs.len() ==> network::port_of(
                        network::port_sides(#[trigger] specs[i]).0,
                    ) is Some && network::port_of(network::port_sides(specs[i]).1) is Some {
                    assert forall|i: int| 0 <= i < init.len() implies network::port_of(
                        network::port_sides(#[trigger] init[i]).0,
                    ) is Some && network::port_of(network::port_sides(init[i]).1) is Some by {
                        assert(init[i] == specs[i]);
                    }
                    let (i, j) = choose|i: int, j: int|
                        0 <= i < j < init.len() && network::port_of(
                            network::port_sides(#[trigger] init[i]).0,
                        ) == network::port_of(network::port_sides(#[trigger] init[j]).0);
                    assert(specs[i] == init[i] && specs[j] == init[j]);
                }
            },
        }
    }
}

proof fn lemma_carried(mappings: Seq<PortMapping>, host: u16)
    ensures
        network::carried_by(mappings, host) is Some <==> exists|i: int|
            0 <= i < mappings.len() && (#[trigger] mappings[i]).host == host,
    decreases mappings.len(),
{
    if mappings.len() > 0 {
        let rest = mappings.drop_first();
        lemma_carried(rest, host);
        if mappings[0].host != host {
            if network::carried_by(rest, host) is Some {
                let i = choose|i: int| 0 <= i < rest.len() && (#[trigger] rest[i]).host == host;
                assert(mappings[i + 1] == rest[i]);
            }
            if exists|i: int| 0 <= i < mappings.len() && (#[trigger] mappings[i]).host == host {
                let i = choose|i: int|
                    0 <= i < mappings.len() && (#[trigger] mappings[i]).host == host;
                assert(rest[i - 1] == mappings[i]);
            }
        }
    }
}

/// A port is a number from 1 to 65535: no other number is one, and no word that
/// spells none.
pub proof fn ports_are_numbers(n: nat)
    ensures
        network::port_of(text::decimal(n)) is Some <==> 1 <= n <= 65535,
        network::port_of(text::decimal(n)) matches Some(port) ==> port == n,
{
    text::lemma_decimal_round_trip(n);
    let word = text::decimal(n);
    if n <= 65535 {
        text::lemma_unsigned_round_trip(n, 65535);
    } else if word.len() > 1 {
        assert('0' <= word[0] <= '9');
    }
}

/// What is said of a network tells whether everything public is reachable, some
/// of it, or nothing.
pub proof fn networks_are_told_apart(net: NetworkView)
    ensures
        net.mode == NetworkMode::Allowlist && net.allow.len() > 0 ==> network::posture(net)
            == "allowlist active (deny by default)"@,
        net.mode == NetworkMode::Allowlist && net.allow.len() == 0 && net.hosts.len() == 0
            ==> network::posture(net)
            == "none (allowlist with no rules - nothing gets out, not even DNS)"@,
        net.mode == NetworkMode::Allowlist && net.allow.len() == 0 && net.hosts.len() > 0
            ==> network::posture(net)
            == "none (allowlist with no allow rules - the hosts: records resolve, and nothing is reachable)"@,
        net.mode == NetworkMode::UnrestrictedPublic && net.allow.len() == 0 ==> network::posture(
            net,
        ) == "unrestricted-public (public egress only)"@,
        net.mode == NetworkMode::UnrestrictedPublic && net.allow.len() > 0 ==> network::posture(net)
            == "unrestricted-public (public egress + listed rules)"@,
{
}

} // verus!
