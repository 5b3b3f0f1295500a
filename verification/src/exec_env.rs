//! The environment of a command that is run in a box.

use crate::env::Env;
use crate::error::{self, Error, Refusal};
use crate::ordered::{self, TextMap};
use crate::text::{self, chars_of, contains_char, find_char, same_text, starts_with, text_between};
use vstd::prelude::*;

pub mod laws;

verus! {

/// The variables that say where on the host one is, which a box must not
/// believe.
pub open spec fn host_identity(key: Seq<char>) -> bool {
    key == "HOME"@ || key == "PATH"@ || key == "USER"@ || key == "LOGNAME"@ || key == "SHELL"@ || key
        == "PWD"@ || key == "OLDPWD"@ || key == "_"@ || key == "DISPLAY"@ || key
        == "WAYLAND_DISPLAY"@ || key == "XAUTHORITY"@ || key == "DBUS_SESSION_BUS_ADDRESS"@ || key
        == "SSH_AUTH_SOCK"@ || text::begins_with(key, "TERRA_"@)
}

pub fn is_host_identity_var(key: &str) -> (yes: bool)
    ensures
        yes == host_identity(key@),
{
    same_text(key, "HOME") || same_text(key, "PATH") || same_text(key, "USER") || same_text(
        key,
        "LOGNAME",
    ) || same_text(key, "SHELL") || same_text(key, "PWD") || same_text(key, "OLDPWD") || same_text(
        key,
        "_",
    ) || same_text(key, "DISPLAY") || same_text(key, "WAYLAND_DISPLAY") || same_text(
        key,
        "XAUTHORITY",
    ) || same_text(key, "DBUS_SESSION_BUS_ADDRESS") || same_text(key, "SSH_AUTH_SOCK")
        || starts_with(key, "TERRA_")
}

/// Whether a variable of the host is handed on where all of them are.
pub open spec fn inheritable(key: Seq<char>, value: Seq<char>) -> bool {
    !host_identity(key) && key.len() > 0 && !key.contains('=') && !key.contains('\0')
        && !value.contains('\0')
}

/// What a list of variables shows.
pub open spec fn variables(list: Seq<(String, String)>) -> Seq<(Seq<char>, Seq<char>)> {
    Seq::new(list.len(), |i: int| (list[i].0@, list[i].1@))
}

/// The variables of the host that are handed on.
pub open spec fn inherited(host: Seq<(Seq<char>, Seq<char>)>) -> Env
    decreases host.len(),
{
    if host.len() == 0 {
        Seq::empty()
    } else {
        let before = inherited(host.drop_last());
        let (key, value) = host.last();
        if inheritable(key, value) {
            ordered::with_entry(before, key, value)
        } else {
            before
        }
    }
}

/// What one entry sets: `KEY=VALUE` as written, a bare `KEY` from the host.
pub open spec fn entry_sets(entry: Seq<char>, host: Env) -> Result<
    (Seq<char>, Seq<char>),
    Refusal,
> {
    let at = text::first_at(entry, '=', 0);
    let empty_name = error::refusal("invalid env `"@ + entry + "`: empty variable name"@);
    let forbidden = error::refusal("invalid env `"@ + entry + "`: contains forbidden characters"@);
    if at < entry.len() {
        let key = entry.subrange(0, at);
        let value = entry.subrange(at + 1, entry.len() as int);
        if key.len() == 0 {
            Err(empty_name)
        } else if key.contains('\0') || value.contains('\0') {
            Err(forbidden)
        } else {
            Ok((key, value))
        }
    } else if entry.len() == 0 {
        Err(empty_name)
    } else if entry.contains('\0') {
        Err(forbidden)
    } else {
        match ordered::lookup(host, entry) {
            None => Err(
                error::refusal("environment variable `"@ + entry + "` is not set on the host"@),
            ),
            Some(value) => if value.contains('\0') {
                Err(forbidden)
            } else {
                Ok((entry, value))
            },
        }
    }
}

/// The environment of a command: what it inherits, then what its entries set,
/// each over what came before.
pub open spec fn command_env(start: Env, entries: Seq<Seq<char>>, host: Env) -> Result<Env, Refusal>
    decreases entries.len(),
{
    if entries.len() == 0 {
        Ok(start)
    } else {
        match command_env(start, entries.drop_last(), host) {
            Err(refused) => Err(refused),
            Ok(before) => match entry_sets(entries.last(), host) {
                Err(refused) => Err(refused),
                Ok((key, value)) => Ok(ordered::with_entry(before, key, value)),
            },
        }
    }
}

/// The environment of a command that inherits the variables of the host, or none
/// of them.
pub open spec fn environment(
    inherit_env: bool,
    entries: Seq<Seq<char>>,
    host: Env,
    all: Seq<(Seq<char>, Seq<char>)>,
) -> Result<Env, Refusal> {
    command_env(
        if inherit_env {
            inherited(all)
        } else {
            Seq::empty()
        },
        entries,
        host,
    )
}

fn name_of_entry(message: &str, entry: &str, rest: &str) -> (error: Error)
    ensures
        error@ == error::refusal(message@ + entry@ + rest@),
{
    let mut text: String = message.to_owned();
    text.append(entry);
    text.append(rest);
    Error::new(text)
}

fn read_entry(entry: &str, host: &TextMap<String>) -> (set: Result<(String, String), Error>)
    ensures
        match set {
            Ok((key, value)) => entry_sets(entry@, host@) == Ok::<_, Refusal>((key@, value@)),
            Err(error) => entry_sets(entry@, host@) == Err::<(Seq<char>, Seq<char>), _>(error@),
        },
{
    let chars = chars_of(entry);
    let at: usize = find_char(&chars, '=', 0);
    if at < chars.len() {
        let key = text_between(&chars, 0, at);
        let value = text_between(&chars, at + 1, chars.len());
        if key.as_str().unicode_len() == 0 {
            return Err(name_of_entry("invalid env `", entry, "`: empty variable name"));
        }
        if contains_char(key.as_str(), '\0') || contains_char(value.as_str(), '\0') {
            return Err(name_of_entry("invalid env `", entry, "`: contains forbidden characters"));
        }
        return Ok((key, value));
    }
    if chars.len() == 0 {
        return Err(name_of_entry("invalid env `", entry, "`: empty variable name"));
    }
    if contains_char(entry, '\0') {
        return Err(name_of_entry("invalid env `", entry, "`: contains forbidden characters"));
    }
    match host.get(entry) {
        None => Err(
            name_of_entry("environment variable `", entry, "` is not set on the host"),
        ),
        Some(value) => {
            if contains_char(value.as_str(), '\0') {
                return Err(
                    name_of_entry("invalid env `", entry, "`: contains forbidden characters"),
                );
            }
            Ok((entry.to_owned(), value.as_str().to_owned()))
        },
    }
}

/// What stops one entry stops all after it.
proof fn lemma_env_stops(start: Env, entries: Seq<Seq<char>>, host: Env, k: int)
    requires
        0 <= k <= entries.len(),
        command_env(start, entries.take(k), host) is Err,
    ensures
        command_env(start, entries, host) == command_env(start, entries.take(k), host),
    decreases entries.len(),
{
    if k == entries.len() {
        assert(entries.take(k) =~= entries);
    } else {
        assert(entries.drop_last().take(k) =~= entries.take(k));
        lemma_env_stops(start, entries.drop_last(), host, k);
    }
}

/// The environment of a command. `all` are the variables of the host as they
/// come, `host` those a bare name is looked up in.
pub fn resolve_exec_env_from(
    inherit_env: bool,
    entries: &Vec<String>,
    host: &TextMap<String>,
    all: &Vec<(String, String)>,
) -> (env: Result<TextMap<String>, Error>)
    ensures
        ({
            let expected = environment(inherit_env, text::texts(entries@), host@, variables(all@));
            match env {
                Ok(env) => expected == Ok::<_, Refusal>(env@),
                Err(error) => expected == Err::<Env, _>(error@),
            }
        }),
{
    let mut env: TextMap<String> = TextMap::new();
    let ghost vars = variables(all@);
    if inherit_env {
        let mut i: usize = 0;
        proof {
            assert(vars.take(0) =~= Seq::empty());
        }
        while i < all.len()
            invariant
                i <= all@.len(),
                vars == variables(all@),
                env@ == inherited(vars.take(i as int)),
            decreases all.len() - i,
        {
            proof {
                assert(vars.take(i + 1).drop_last() =~= vars.take(i as int));
                assert(vars.take(i + 1).last() == (all@[i as int].0@, all@[i as int].1@));
            }
            let key = all[i].0.as_str();
            let value = all[i].1.as_str();
            if !is_host_identity_var(key) && key.unicode_len() > 0 && !contains_char(key, '=')
                && !contains_char(key, '\0') && !contains_char(value, '\0') {
                env.insert(key.to_owned(), value.to_owned());
            }
            i = i + 1;
        }
        proof {
            assert(vars.take(i as int) =~= vars);
        }
    }
    let ghost start = env@;
    let ghost wanted = text::texts(entries@);
    let mut i: usize = 0;
    proof {
        assert(wanted.take(0) =~= Seq::empty());
    }
    while i < entries.len()
        invariant
            i <= entries@.len(),
            wanted == text::texts(entries@),
            start == (if inherit_env {
                inherited(variables(all@))
            } else {
                Seq::empty()
            }),
            command_env(start, wanted.take(i as int), host@) == Ok::<_, Refusal>(env@),
        decreases entries.len() - i,
    {
        proof {
            let more = wanted.take(i + 1);
            assert(more.drop_last() =~= wanted.take(i as int));
            assert(more.last() == entries@[i as int]@);
            if command_env(start, more, host@) is Err {
                lemma_env_stops(start, wanted, host@, i + 1);
            }
        }
        match read_entry(entries[i].as_str(), host) {
            Ok((key, value)) => {
                env.insert(key, value);
            },
            Err(error) => {
                return Err(error);
            },
        }
        i = i + 1;
    }
    proof {
        assert(wanted.take(i as int) =~= wanted);
    }
    Ok(env)
}

/// No variable that says where on the host one is gets into a box unless an
/// entry names it.
pub proof fn host_identity_is_never_inherited(host: Seq<(Seq<char>, Seq<char>)>, key: Seq<char>)
    requires
        host_identity(key),
    ensures
        ordered::lookup(inherited(host), key) is None,
    decreases host.len(),
{
    if host.len() > 0 {
        host_identity_is_never_inherited(host.drop_last(), key);
        let before = inherited(host.drop_last());
        let (name, value) = host.last();
        lemma_inherited_in_order(host.drop_last());
        if inheritable(name, value) {
            crate::ordered::lemma_lookup_with_entry(before, name, value, key);
        }
    }
}

proof fn lemma_inherited_in_order(host: Seq<(Seq<char>, Seq<char>)>)
    ensures
        crate::ordered::keys_in_order(inherited(host)),
    decreases host.len(),
{
    if host.len() > 0 {
        lemma_inherited_in_order(host.drop_last());
        let (name, value) = host.last();
        if inheritable(name, value) {
            crate::ordered::lemma_lookup_with_entry(inherited(host.drop_last()), name, value, name);
        }
    }
}

} // verus!
