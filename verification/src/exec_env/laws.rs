//! What a command finds in its environment.

use crate::env::Env;
use crate::exec_env;
use crate::ordered;
use crate::text;
use vstd::prelude::*;

verus! {

/// Whether a text can name a variable.
pub open spec fn is_name(key: Seq<char>) -> bool {
    key.len() > 0 && !key.contains('=') && !key.contains('\0')
}

/// An entry that gives a variable a value.
pub open spec fn assignment(key: Seq<char>, value: Seq<char>) -> Seq<char> {
    key + seq!['='] + value
}

/// Whether an entry is about a variable: it is its name, or gives it a value.
pub open spec fn is_about(entry: Seq<char>, key: Seq<char>) -> bool {
    entry == key || exists|value: Seq<char>| entry == #[trigger] assignment(key, value)
}

/// `KEY=VALUE` sets the variable to exactly that value, whatever the value
/// holds, further equals signs included.
pub proof fn entries_set_what_they_say(key: Seq<char>, value: Seq<char>, host: Env)
    requires
        is_name(key),
        !value.contains('\0'),
    ensures
        exec_env::entry_sets(key + seq!['='] + value, host) == Ok::<_, crate::error::Refusal>(
            (key, value),
        ),
{
    let entry = key + seq!['='] + value;
    text::lemma_first_at(entry, '=', 0);
    let at = text::first_at(entry, '=', 0);
    assert(entry[key.len() as int] == '=');
    if at < key.len() {
        assert(key[at] == entry[at]);
        assert(key.contains('='));
    }
    assert(at == key.len());
    assert(entry.subrange(0, at) =~= key);
    assert(entry.subrange(at + 1, entry.len() as int) =~= value);
}

/// A bare name takes the value the variable has on the host.
pub proof fn bare_names_take_the_value_of_the_host(key: Seq<char>, value: Seq<char>, host: Env)
    requires
        is_name(key),
        !value.contains('\0'),
        ordered::lookup(host, key) == Some(value),
    ensures
        exec_env::entry_sets(key, host) == Ok::<_, crate::error::Refusal>((key, value)),
{
    text::lemma_first_at(key, '=', 0);
    let at = text::first_at(key, '=', 0);
    if at < key.len() {
        assert(key.contains('='));
    }
}

/// An entry that is accepted says what it sets, in one of two ways: it holds
/// the value, or the host has it. Everything else is refused.
pub proof fn entries_set_nothing_else(entry: Seq<char>, host: Env)
    ensures
        match exec_env::entry_sets(entry, host) {
            Ok((key, value)) => {
                &&& is_name(key)
                &&& !value.contains('\0')
                &&& entry == key + seq!['='] + value || entry == key && ordered::lookup(host, key)
                    == Some(value)
            },
            Err(_) => {
                ||| entry.len() == 0
                ||| entry[0] == '='
                ||| entry.contains('\0')
                ||| !entry.contains('=') && match ordered::lookup(host, entry) {
                    Some(value) => value.contains('\0'),
                    None => true,
                }
            },
        },
{
    text::lemma_first_at(entry, '=', 0);
    let at = text::first_at(entry, '=', 0);
    if at < entry.len() {
        let key = entry.subrange(0, at);
        let value = entry.subrange(at + 1, entry.len() as int);
        assert(entry =~= key + seq!['='] + value);
        if key.contains('=') {
            let i = choose|i: int| 0 <= i < key.len() && key[i] == '=';
            assert(entry[i] == '=');
        }
        if key.contains('\0') {
            let i = choose|i: int| 0 <= i < key.len() && key[i] == '\0';
            assert(entry[i] == '\0');
        }
        if value.contains('\0') {
            let i = choose|i: int| 0 <= i < value.len() && value[i] == '\0';
            assert(entry[at + 1 + i] == '\0');
        }
    } else if entry.contains('=') {
        let i = choose|i: int| 0 <= i < entry.len() && entry[i] == '=';
        assert(entry[i] != '=');
    }
}

proof fn lemma_sets_what_it_is_about(entry: Seq<char>, host: Env, key: Seq<char>)
    requires
        is_name(key),
        exec_env::entry_sets(entry, host) is Ok,
    ensures
        is_about(entry, key) <==> exec_env::entry_sets(entry, host)->Ok_0.0 == key,
{
    entries_set_nothing_else(entry, host);
    let (name, value) = exec_env::entry_sets(entry, host)->Ok_0;
    if name == key {
        if entry != key {
            assert(entry == assignment(key, value));
        }
    }
    if is_about(entry, key) {
        if entry == key {
            if entry == name + seq!['='] + value {
                assert(entry[name.len() as int] == '=');
                assert(key.contains('='));
            }
        } else {
            let other = choose|other: Seq<char>| entry == #[trigger] assignment(key, other);
            assert(entry[key.len() as int] == '=');
            if entry == name {
                assert(name.contains('='));
            }
            assert(entry == name + seq!['='] + value);
            assert(entry[name.len() as int] == '=');
            if name.len() < key.len() {
                assert(key[name.len() as int] == entry[name.len() as int]);
                assert(key.contains('='));
            }
            if key.len() < name.len() {
                assert(name[key.len() as int] == entry[key.len() as int]);
                assert(name.contains('='));
            }
            assert(name =~= entry.take(name.len() as int));
            assert(key =~= entry.take(key.len() as int));
        }
    }
}

/// The last entry about a variable decides: a command finds the variable with
/// the value that entry gives it, and one no entry is about as it was.
pub proof fn the_last_entry_decides(
    start: Env,
    entries: Seq<Seq<char>>,
    host: Env,
    key: Seq<char>,
)
    requires
        ordered::keys_in_order(start),
        is_name(key),
        exec_env::command_env(start, entries, host) is Ok,
    ensures
        ({
            let env = exec_env::command_env(start, entries, host)->Ok_0;
            &&& ordered::keys_in_order(env)
            &&& (forall|i: int| 0 <= i < entries.len() ==> !is_about(#[trigger] entries[i], key))
                ==> ordered::lookup(env, key) == ordered::lookup(start, key)
            &&& forall|i: int, value: Seq<char>|
                0 <= i < entries.len() && #[trigger] entries[i] == #[trigger] assignment(key, value)
                    && (forall|j: int|
                    i < j < entries.len() ==> !is_about(#[trigger] entries[j], key))
                    ==> ordered::lookup(env, key) == Some(value)
            &&& forall|i: int|
                0 <= i < entries.len() && #[trigger] entries[i] == key && (forall|j: int|
                    i < j < entries.len() ==> !is_about(#[trigger] entries[j], key))
                    ==> ordered::lookup(env, key) == ordered::lookup(host, key)
                    && ordered::lookup(env, key) is Some
        }),
    decreases entries.len(),
{
    if entries.len() > 0 {
        let init = entries.drop_last();
        let last = entries.last();
        the_last_entry_decides(start, init, host, key);
        let before = exec_env::command_env(start, init, host)->Ok_0;
        let env = exec_env::command_env(start, entries, host)->Ok_0;
        let (name, set) = exec_env::entry_sets(last, host)->Ok_0;
        ordered::lemma_lookup_with_entry(before, name, set, key);
        lemma_sets_what_it_is_about(last, host, key);
        entries_set_nothing_else(last, host);
        assert(entries[entries.len() - 1] == last);
        if forall|i: int| 0 <= i < entries.len() ==> !is_about(#[trigger] entries[i], key) {
            assert forall|i: int| 0 <= i < init.len() implies !is_about(#[trigger] init[i], key) by {
                assert(init[i] == entries[i]);
            }
        }
        assert forall|i: int, value: Seq<char>|
            0 <= i < entries.len() && #[trigger] entries[i] == #[trigger] assignment(key, value) && (
            forall|j: int|
                i < j < entries.len() ==> !is_about(#[trigger] entries[j], key)) implies ordered::lookup(
            env,
            key,
        ) == Some(value) by {
            if i == entries.len() - 1 {
                assert(is_about(last, key));
                let entry = assignment(key, value);
                assert(entry[key.len() as int] == '=');
                if entry == key {
                    assert(key.contains('='));
                }
                assert(assignment(key, set) == entry);
                assert(value =~= entry.skip(key.len() as int + 1));
                assert(set =~= entry.skip(key.len() as int + 1));
            } else {
                assert(!is_about(entries[entries.len() - 1], key));
                assert(init[i] == entries[i]);
                assert forall|j: int| i < j < init.len() implies !is_about(#[trigger] init[j], key) by {
                    assert(init[j] == entries[j]);
                }
            }
        }
        assert forall|i: int|
            0 <= i < entries.len() && #[trigger] entries[i] == key && (forall|j: int|
                i < j < entries.len() ==> !is_about(#[trigger] entries[j], key)) implies ordered::lookup(
            env,
            key,
        ) == ordered::lookup(host, key) && ordered::lookup(env, key) is Some by {
            if i == entries.len() - 1 {
                assert(is_about(last, key));
                if last == key + seq!['='] + set {
                    assert(last[key.len() as int] == '=');
                    assert(key.contains('='));
                }
            } else {
                assert(!is_about(entries[entries.len() - 1], key));
                assert(init[i] == entries[i]);
                assert forall|j: int| i < j < init.len() implies !is_about(#[trigger] init[j], key) by {
                    assert(init[j] == entries[j]);
                }
            }
        }
    }
}

/// Whether a variable says where on the host one is: who its user is and where
/// they are, what they look at, and what speaks for them.
pub open spec fn is_of_the_host(key: Seq<char>) -> bool {
    let names = seq![
        "HOME"@,
        "PATH"@,
        "USER"@,
        "LOGNAME"@,
        "SHELL"@,
        "PWD"@,
        "OLDPWD"@,
        "_"@,
        "DISPLAY"@,
        "WAYLAND_DISPLAY"@,
        "XAUTHORITY"@,
        "DBUS_SESSION_BUS_ADDRESS"@,
        "SSH_AUTH_SOCK"@,
    ];
    names.contains(key) || key.len() >= 6 && key.take(6) == seq!['T', 'E', 'R', 'R', 'A', '_']
}

/// Where the variables of the host are handed on, a box gets every one as the
/// host has it, but for those that say where on the host one is and those that
/// no environment can hold.
pub proof fn variables_are_handed_on(host: Seq<(Seq<char>, Seq<char>)>, key: Seq<char>)
    ensures
        ordered::keys_in_order(exec_env::inherited(host)),
        is_of_the_host(key) || !is_name(key) ==> ordered::lookup(exec_env::inherited(host), key) is None,
        (forall|i: int| 0 <= i < host.len() ==> (#[trigger] host[i]).0 != key) ==> ordered::lookup(
            exec_env::inherited(host),
            key,
        ) is None,
        forall|i: int|
            0 <= i < host.len() && (#[trigger] host[i]).0 == key && !is_of_the_host(key) && is_name(
                key,
            ) && !host[i].1.contains('\0') && (forall|j: int|
                i < j < host.len() ==> (#[trigger] host[j]).0 != key) ==> ordered::lookup(
                exec_env::inherited(host),
                key,
            ) == Some(host[i].1),
    decreases host.len(),
{
    reveal_strlit("TERRA_");
    assert("TERRA_"@ =~= seq!['T', 'E', 'R', 'R', 'A', '_']);
    lemma_of_the_host(key);
    if host.len() > 0 {
        let init = host.drop_last();
        let (name, value) = host.last();
        variables_are_handed_on(init, key);
        if exec_env::inheritable(name, value) {
            ordered::lemma_lookup_with_entry(exec_env::inherited(init), name, value, key);
        }
        assert(host[host.len() - 1] == (name, value));
        if forall|i: int| 0 <= i < host.len() ==> (#[trigger] host[i]).0 != key {
            assert forall|i: int| 0 <= i < init.len() implies (#[trigger] init[i]).0 != key by {
                assert(init[i] == host[i]);
            }
        }
        assert forall|i: int|
            0 <= i < host.len() && (#[trigger] host[i]).0 == key && !is_of_the_host(key) && is_name(
                key,
            ) && !host[i].1.contains('\0') && (forall|j: int|
                i < j < host.len() ==> (#[trigger] host[j]).0 != key) implies ordered::lookup(
            exec_env::inherited(host),
            key,
        ) == Some(host[i].1) by {
            if i < host.len() - 1 {
                assert(host[host.len() - 1].0 != key);
                assert(init[i] == host[i]);
                assert forall|j: int| i < j < init.len() implies (#[trigger] init[j]).0 != key by {
                    assert(init[j] == host[j]);
                }
            }
        }
    }
}

proof fn lemma_of_the_host(key: Seq<char>)
    ensures
        exec_env::host_identity(key) == is_of_the_host(key),
{
    reveal_strlit("TERRA_");
    assert("TERRA_"@ =~= seq!['T', 'E', 'R', 'R', 'A', '_']);
    let names = seq![
        "HOME"@,
        "PATH"@,
        "USER"@,
        "LOGNAME"@,
        "SHELL"@,
        "PWD"@,
        "OLDPWD"@,
        "_"@,
        "DISPLAY"@,
        "WAYLAND_DISPLAY"@,
        "XAUTHORITY"@,
        "DBUS_SESSION_BUS_ADDRESS"@,
        "SSH_AUTH_SOCK"@,
    ];
    assert(names[0] == "HOME"@ && names[1] == "PATH"@ && names[2] == "USER"@ && names[3]
        == "LOGNAME"@ && names[4] == "SHELL"@ && names[5] == "PWD"@ && names[6] == "OLDPWD"@
        && names[7] == "_"@ && names[8] == "DISPLAY"@ && names[9] == "WAYLAND_DISPLAY"@ && names[10]
        == "XAUTHORITY"@ && names[11] == "DBUS_SESSION_BUS_ADDRESS"@ && names[12]
        == "SSH_AUTH_SOCK"@);
}

/// A command that does not inherit starts with nothing of the host's; one that
/// does starts with what is handed on.
pub proof fn only_inheriting_commands_inherit(
    entries: Seq<Seq<char>>,
    host: Env,
    all: Seq<(Seq<char>, Seq<char>)>,
    key: Seq<char>,
)
    requires
        is_name(key),
        forall|i: int| 0 <= i < entries.len() ==> !is_about(#[trigger] entries[i], key),
    ensures
        exec_env::environment(false, entries, host, all) matches Ok(env) ==> ordered::lookup(
            env,
            key,
        ) is None,
        exec_env::environment(true, entries, host, all) matches Ok(env) ==> ordered::lookup(
            env,
            key,
        ) == ordered::lookup(exec_env::inherited(all), key),
        exec_env::environment(true, entries, host, all) is Ok == exec_env::environment(
            false,
            entries,
            host,
            all,
        ) is Ok,
    decreases entries.len(),
{
    variables_are_handed_on(all, key);
    if exec_env::environment(true, entries, host, all) is Ok {
        the_last_entry_decides(exec_env::inherited(all), entries, host, key);
    }
    if exec_env::environment(false, entries, host, all) is Ok {
        the_last_entry_decides(Seq::empty(), entries, host, key);
    }
    lemma_start_refuses_nothing(exec_env::inherited(all), Seq::empty(), entries, host);
}

proof fn lemma_start_refuses_nothing(a: Env, b: Env, entries: Seq<Seq<char>>, host: Env)
    ensures
        exec_env::command_env(a, entries, host) is Ok == exec_env::command_env(b, entries, host) is Ok,
    decreases entries.len(),
{
    if entries.len() > 0 {
        lemma_start_refuses_nothing(a, b, entries.drop_last(), host);
    }
}

} // verus!
