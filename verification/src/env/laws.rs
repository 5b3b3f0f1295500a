//! What an env file sets.

use crate::config::ConfigView;
use crate::env::{self, Env};
use crate::env_file::{self, EnvRead};
use crate::ordered;
use crate::render::{self, laws as render_laws};
use crate::text;
use crate::unicode;
use vstd::prelude::*;

verus! {

/// A line of an env file sets a variable to all that follows its first equals
/// sign, further ones included; blanks around the line do not count.
pub proof fn lines_set_what_they_say(key: Seq<char>, value: Seq<char>)
    requires
        key.len() > 0,
        !key.contains('='),
        key[0] != '#',
        !unicode::blank(key[0]),
        value.len() > 0 ==> !unicode::blank(value.last()),
    ensures
        env::line_says(key + seq!['='] + value) == Some(Some((key, value))),
{
    let line = key + seq!['='] + value;
    assert(line[0] == key[0]);
    assert(!unicode::blank('='));
    assert(!unicode::blank(line.last()));
    crate::basics::texts_without_outer_blanks_are_trimmed(line);
    text::lemma_first_at(line, '=', 0);
    let at = text::first_at(line, '=', 0);
    assert(line[key.len() as int] == '=');
    if at < key.len() {
        assert(key[at] == line[at]);
        assert(key.contains('='));
    }
    assert(line.take(at) =~= key);
    assert(line.skip(at + 1) =~= value);
}

/// A line of blanks says nothing, nor does one whose first character is a hash;
/// any other without an equals sign is refused, and only such a line is.
pub proof fn lines_say_something_nothing_or_too_little(line: Seq<char>)
    ensures
        ({
            let inner = unicode::trimmed(line);
            &&& env::line_says(line) is None <==> inner.len() == 0 || inner[0] == '#'
            &&& env::line_says(line) == Some(None::<(Seq<char>, Seq<char>)>) <==> inner.len() > 0
                && inner[0] != '#' && !inner.contains('=')
        }),
{
    let inner = unicode::trimmed(line);
    text::lemma_first_at(inner, '=', 0);
    let at = text::first_at(inner, '=', 0);
    if inner.contains('=') {
        let i = choose|i: int| 0 <= i < inner.len() && inner[i] == '=';
        assert(at <= i);
    } else if at < inner.len() {
        assert(inner.contains('='));
    }
}

proof fn lemma_lines(env: Env, lines: Seq<Seq<char>>, n: int)
    requires
        0 <= n <= lines.len(),
    ensures
        env::with_lines(env, lines, n) is Ok <==> forall|i: int|
            0 <= i < n ==> env::line_says(#[trigger] lines[i]) != Some(
                None::<(Seq<char>, Seq<char>)>,
            ),
    decreases n,
{
    if n > 0 {
        lemma_lines(env, lines, n - 1);
    }
}

/// An env file is merged exactly where it is no larger than a MiB, every line says
/// something or nothing, and every variable can then be exported.
pub proof fn env_files_are_merged_where_they_make_sense(env: Env, text: Seq<char>, path: Seq<char>)
    ensures
        env::merged_env(env, text, path) is Ok <==> {
            let lines = text::pieces(text, '\n');
            &&& text::utf8_len(text) <= 1048576
            &&& forall|i: int|
                0 <= i < lines.len() ==> env::line_says(#[trigger] lines[i]) != Some(
                    None::<(Seq<char>, Seq<char>)>,
                )
            &&& env::with_lines(env, lines, lines.len() as int) matches Ok(merged)
                && env::env_verdict(merged, merged.len() as int) is Ok
        },
{
    let lines = text::pieces(text, '\n');
    lemma_lines(env, lines, lines.len() as int);
}

/// An env file gives a recipe its variables and changes nothing else of it; a
/// recipe without one stays as it is, and one whose file cannot be read is none.
pub proof fn env_files_only_set_variables(cfg: ConfigView, read: EnvRead)
    ensures
        match env_file::with_env_file(cfg, read) {
            Ok(done) => {
                &&& done == ConfigView { env: done.env, ..cfg }
                &&& cfg.env_file is None ==> done.env == cfg.env
                &&& cfg.env_file is Some ==> (read matches EnvRead::Text(text) && env::merged_env(
                    cfg.env,
                    text@,
                    cfg.env_file->0,
                ) == Ok::<_, crate::error::Refusal>(done.env))
            },
            Err(_) => cfg.env_file is Some && (read matches EnvRead::Text(text) ==> env::merged_env(
                cfg.env,
                text@,
                cfg.env_file->0,
            ) is Err),
        },
{
}

/// Following the links to an env file changes where it is and nothing else.
pub proof fn following_an_env_file_moves_it_only(cfg: ConfigView, followed: Result<String, String>)
    ensures
        match env_file::with_real_env_file(cfg, followed) {
            Ok(done) => {
                &&& done == ConfigView { env_file: done.env_file, ..cfg }
                &&& cfg.env_file is None ==> done.env_file is None
                &&& cfg.env_file is Some ==> followed is Ok && done.env_file == Some(
                    followed->Ok_0@,
                )
            },
            Err(_) => cfg.env_file is Some && followed is Err,
        },
{
}

/// What is warned of is that a variable is set to another value than it had, and
/// every such variable is: a file that changes nothing is merged in silence.
pub proof fn files_that_change_nothing_are_merged_in_silence(
    env: Env,
    lines: Seq<Seq<char>>,
    path: Seq<char>,
    n: int,
)
    requires
        0 <= n <= lines.len(),
        ordered::keys_in_order(env),
        forall|i: int|
            0 <= i < n ==> (env::line_says(#[trigger] lines[i]) matches Some(Some((name, value)))
                ==> ordered::lookup(env, name) == Some(value)),
        env::with_lines(env, lines, n) is Ok,
    ensures
        env::warnings(env, lines, path, n).len() == 0,
        forall|name: Seq<char>| #[trigger]
            ordered::lookup(env::with_lines(env, lines, n)->Ok_0, name) == ordered::lookup(env, name),
        ordered::keys_in_order(env::with_lines(env, lines, n)->Ok_0),
    decreases n,
{
    if n > 0 {
        files_that_change_nothing_are_merged_in_silence(env, lines, path, n - 1);
        let before = env::with_lines(env, lines, n - 1)->Ok_0;
        if let Some(Some((name, value))) = env::line_says(lines[n - 1]) {
            assert forall|other: Seq<char>| #[trigger]
                ordered::lookup(env::with_lines(env, lines, n)->Ok_0, other) == ordered::lookup(
                    env,
                    other,
                ) by {
                ordered::lemma_lookup_with_entry(before, name, value, other);
            }
            ordered::lemma_lookup_with_entry(before, name, value, name);
        }
    }
}

/// A line that sets a variable to another value than the recipe gave it is warned
/// of.
pub proof fn overridden_variables_are_warned_of(
    env: Env,
    line: Seq<char>,
    path: Seq<char>,
    name: Seq<char>,
    value: Seq<char>,
    was: Seq<char>,
)
    requires
        env::line_says(line) == Some(Some((name, value))),
        ordered::lookup(env, name) == Some(was),
    ensures
        env::warnings(env, seq![line], path, 1).len() == (if was == value {
            0int
        } else {
            1
        }),
{
    reveal_with_fuel(env::warnings, 2);
    reveal_with_fuel(env::with_lines, 2);
}

/// A variable can be set where its name is there and holds no blank, no equals
/// sign and no NUL, and its value holds no NUL.
pub proof fn variables_that_can_be_set(name: Seq<char>, value: Seq<char>)
    ensures
        env::variable_verdict(name, value) is Ok <==> {
            &&& name.len() > 0
            &&& !name.contains('=')
            &&& !name.contains('\0')
            &&& !value.contains('\0')
            &&& forall|i: int| 0 <= i < name.len() ==> !unicode::blank(#[trigger] name[i])
        },
{
    if name.contains('=') {
        let i = name.index_of('=');
        assert(name[i] == '=');
    }
    if name.contains('\0') {
        let i = name.index_of('\0');
        assert(name[i] == '\0');
    }
}

/// Variables can be set where each of them can.
pub proof fn every_variable_must_make_sense(env: Env, n: int)
    requires
        0 <= n <= env.len(),
    ensures
        env::env_verdict(env, n) is Ok <==> forall|i: int|
            0 <= i < n ==> env::variable_verdict((#[trigger] env[i]).0, env[i].1) is Ok,
    decreases n,
{
    if n > 0 {
        every_variable_must_make_sense(env, n - 1);
        if env::env_verdict(env, n - 1) is Ok && env::env_verdict(env, n) is Err {
            assert(env::variable_verdict(env[n - 1].0, env[n - 1].1) is Err);
        }
    }
}

/// Every line that gives a variable another value than it had by then is warned
/// of, by the name of the variable and the file it stands in; no other line is.
pub proof fn every_overriding_line_is_warned_of(
    env: Env,
    lines: Seq<Seq<char>>,
    path: Seq<char>,
    n: int,
    name: Seq<char>,
    value: Seq<char>,
)
    requires
        0 <= n < lines.len(),
        env::with_lines(env, lines, n) is Ok,
    ensures
        ({
            let before = env::warnings(env, lines, path, n);
            let after = env::warnings(env, lines, path, n + 1);
            let had = ordered::lookup(env::with_lines(env, lines, n)->Ok_0, name);
            &&& env::line_says(lines[n]) == Some(Some((name, value))) ==> {
                &&& had is Some && had != Some(value) ==> {
                    &&& after.len() == before.len() + 1
                    &&& after.drop_last() == before
                    &&& render_laws::shows(after.last(), render::printable(name))
                    &&& render_laws::shows(after.last(), render::printable(path))
                }
                &&& had is None || had == Some(value) ==> after == before
            }
            &&& !(env::line_says(lines[n]) matches Some(Some(_))) ==> after == before
        }),
{
    let before = env::warnings(env, lines, path, n);
    let after = env::warnings(env, lines, path, n + 1);
    if after != before {
        assert(after.drop_last() =~= before);
        let said = after.last();
        let (a, b, c) = (
            "terra: warning: env variable '"@,
            "' is set in both env: and env_file: "@,
            " - the env_file wins"@,
        );
        if env::line_says(lines[n]) == Some(Some((name, value))) {
            assert(said =~= a + render::printable(name) + (b + render::printable(path) + c));
            assert(said =~= (a + render::printable(name) + b) + render::printable(path) + c);
        }
    }
}

/// Of a whole file what is said is what its lines are warned of for; of one that
/// is too large nothing is.
pub proof fn files_are_warned_of_line_by_line(env: Env, text: Seq<char>, path: Seq<char>)
    ensures
        ({
            let lines = text::pieces(text, '\n');
            &&& text::utf8_len(text) <= env::MAX_ENV_FILE_BYTES ==> env::merge_said(env, text, path)
                == env::warnings(env, lines, path, lines.len() as int)
            &&& text::utf8_len(text) > env::MAX_ENV_FILE_BYTES ==> env::merge_said(
                env,
                text,
                path,
            ).len() == 0
        }),
{
}

} // verus!
