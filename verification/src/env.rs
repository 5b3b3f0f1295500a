//! The variables a box exports: which are fit for that, and what a dotenv file
//! adds to them.

use crate::error::{self, Error, Refusal};
use crate::ordered::{self, TextMap};
use crate::render::{self, escape_printable, escape_printable_path};
use crate::text::{self, byte_len, chars_of, find_char, same_text, spell, split_text, text_between};
use crate::unicode::{self, debug_text, is_blank, trim};
use vstd::prelude::*;

pub mod laws;

verus! {

/// The largest dotenv file that is read, in bytes.
pub const MAX_ENV_FILE_BYTES: u64 = 1048576;

/// Variables by name.
pub type Env = Seq<(Seq<char>, Seq<char>)>;

/// Whether a name can be exported: it is not empty and holds no blank, no NUL
/// and no equals sign.
pub open spec fn exportable(name: Seq<char>) -> bool {
    name.len() > 0 && forall|i: int|
        0 <= i < name.len() ==> (#[trigger] name[i]) != '\0' && name[i] != '=' && !unicode::blank(name[i])
}

/// What is held against one variable.
pub open spec fn variable_verdict(name: Seq<char>, value: Seq<char>) -> Result<(), Refusal> {
    if !exportable(name) {
        Err(
            error::refusal(
                "invalid environment variable name "@ + unicode::debug_form(name)
                    + " (a name cannot be empty or contain whitespace, a NUL or '=' - an env_file line is `KEY=VAL`, with no `export`)"@,
            ),
        )
    } else if value.contains('\0') {
        Err(
            error::refusal(
                "invalid value for environment variable "@ + render::printable(name)
                    + ": it cannot contain a NUL"@,
            ),
        )
    } else {
        Ok(())
    }
}

/// What is held against the first `n` variables.
pub open spec fn env_verdict(env: Env, n: int) -> Result<(), Refusal>
    decreases n,
{
    if n <= 0 {
        Ok(())
    } else if env_verdict(env, n - 1) is Err {
        env_verdict(env, n - 1)
    } else {
        variable_verdict(env[n - 1].0, env[n - 1].1)
    }
}

proof fn lemma_first_bad_variable(env: Env, n: int, m: int)
    requires
        0 <= n <= m,
        env_verdict(env, n) is Err,
    ensures
        env_verdict(env, m) == env_verdict(env, n),
    decreases m - n,
{
    if n < m {
        lemma_first_bad_variable(env, n, m - 1);
    }
}

fn is_exportable(name: &str) -> (yes: bool)
    ensures
        yes == exportable(name@),
{
    let chars = chars_of(name);
    let mut i: usize = 0;
    while i < chars.len()
        invariant
            i <= chars@.len(),
            chars@ == name@,
            forall|j: int|
                0 <= j < i ==> (#[trigger] name@[j]) != '\0' && name@[j] != '=' && !unicode::blank(name@[j]),
        decreases chars.len() - i,
    {
        let c: char = chars[i];
        if c == '\0' || c == '=' || is_blank(c) {
            proof {
                assert(name@[i as int] == c);
            }
            return false;
        }
        i = i + 1;
    }
    chars.len() > 0
}

/// Refuses a variable that a box could not export.
pub fn validate_env(env: &TextMap<String>) -> (verdict: Result<(), Error>)
    ensures
        error::outcome(verdict) == env_verdict(env@, env@.len() as int),
{
    let n: usize = env.len();
    let mut i: usize = 0;
    while i < n
        invariant
            i <= n == env@.len(),
            env_verdict(env@, i as int) is Ok,
        decreases n - i,
    {
        let name = env.key_at(i);
        let value = env.value_at(i);
        proof {
            if env_verdict(env@, i + 1) is Err {
                lemma_first_bad_variable(env@, i + 1, n as int);
            }
        }
        if !is_exportable(name) {
            let mut message: String = "invalid environment variable name ".to_owned();
            message.append(debug_text(name).as_str());
            message.append(
                " (a name cannot be empty or contain whitespace, a NUL or '=' - an env_file line is `KEY=VAL`, with no `export`)",
            );
            return Err(Error::new(message));
        }
        if crate::text::contains_char(value.as_str(), '\0') {
            let mut message: String = "invalid value for environment variable ".to_owned();
            message.append(escape_printable(name).as_str());
            message.append(": it cannot contain a NUL");
            return Err(Error::new(message));
        }
        i = i + 1;
    }
    Ok(())
}

/// What one line of a dotenv file says: nothing where it is blank or a
/// comment, else a name and a value, where there is an equals sign.
pub open spec fn line_says(line: Seq<char>) -> Option<Option<(Seq<char>, Seq<char>)>> {
    let inner = unicode::trimmed(line);
    let equals = text::first_at(inner, '=', 0);
    if inner.len() == 0 || inner[0] == '#' {
        None
    } else if equals < inner.len() {
        Some(Some((inner.take(equals), inner.skip(equals + 1))))
    } else {
        Some(None)
    }
}

fn read_line(line: &str) -> (says: Option<Option<(String, String)>>)
    ensures
        match says {
            None => line_says(line@) is None,
            Some(None) => line_says(line@) == Some(None::<(Seq<char>, Seq<char>)>),
            Some(Some((name, value))) => line_says(line@) == Some(Some((name@, value@))),
        },
{
    let inner = trim(line);
    let chars = chars_of(inner.as_str());
    if chars.len() == 0 || chars[0] == '#' {
        return None;
    }
    let equals: usize = find_char(&chars, '=', 0);
    if equals < chars.len() {
        let name = text_between(&chars, 0, equals);
        let value = text_between(&chars, equals + 1, chars.len());
        proof {
            assert(name@ =~= inner@.take(equals as int));
            assert(value@ =~= inner@.skip(equals + 1));
        }
        Some(Some((name, value)))
    } else {
        Some(None)
    }
}

/// The variables once the first `n` lines are read over them, or why a line
/// is refused.
pub open spec fn with_lines(env: Env, lines: Seq<Seq<char>>, n: int) -> Result<Env, Refusal>
    decreases n,
{
    if n <= 0 {
        Ok(env)
    } else {
        match with_lines(env, lines, n - 1) {
            Err(refused) => Err(refused),
            Ok(before) => match line_says(lines[n - 1]) {
                None => Ok(before),
                Some(None) => Err(
                    error::refusal(
                        "invalid env file line "@ + text::decimal(n as nat) + " (want KEY=VAL)"@,
                    ),
                ),
                Some(Some((name, value))) => Ok(ordered::with_entry(before, name, value)),
            },
        }
    }
}

proof fn lemma_first_bad_line(env: Env, lines: Seq<Seq<char>>, n: int, m: int)
    requires
        0 <= n <= m,
        with_lines(env, lines, n) is Err,
    ensures
        with_lines(env, lines, m) == with_lines(env, lines, n),
    decreases m - n,
{
    if n < m {
        lemma_first_bad_line(env, lines, n, m - 1);
    }
}

/// What is said where a file overrides a value.
pub open spec fn override_warning(name: Seq<char>, path: Seq<char>) -> Seq<char> {
    "terra: warning: env variable '"@ + render::printable(name)
        + "' is set in both env: and env_file: "@ + render::printable(path) + " - the env_file wins"@
}

/// The warnings of the first `n` lines: one wherever a value changes.
pub open spec fn warnings(env: Env, lines: Seq<Seq<char>>, path: Seq<char>, n: int) -> Seq<Seq<char>>
    decreases n,
{
    if n <= 0 {
        Seq::empty()
    } else {
        let said = warnings(env, lines, path, n - 1);
        match (with_lines(env, lines, n - 1), line_says(lines[n - 1])) {
            (Ok(before), Some(Some((name, value)))) => if ordered::has_key(before, name) && ordered::lookup(
                before,
                name,
            ) != Some(value) {
                said.push(override_warning(name, path))
            } else {
                said
            },
            _ => said,
        }
    }
}

/// What becomes of the variables of a recipe once its dotenv file is read.
pub open spec fn merged_env(env: Env, text: Seq<char>, path: Seq<char>) -> Result<Env, Refusal> {
    let lines = text::pieces(text, '\n');
    if text::utf8_len(text) > MAX_ENV_FILE_BYTES {
        Err(
            error::refusal(
                "env file "@ + render::printable(path) + " is larger than the "@ + text::decimal(
                    MAX_ENV_FILE_BYTES as nat,
                ) + "-byte limit"@,
            ),
        )
    } else {
        match with_lines(env, lines, lines.len() as int) {
            Err(refused) => Err(refused),
            Ok(merged) => match env_verdict(merged, merged.len() as int) {
                Err(refused) => Err(refused),
                Ok(_) => Ok(merged),
            },
        }
    }
}

/// What is said while a dotenv file is merged, up to the line it is refused
/// for.
pub open spec fn merge_said(env: Env, text: Seq<char>, path: Seq<char>) -> Seq<Seq<char>> {
    let lines = text::pieces(text, '\n');
    if text::utf8_len(text) > MAX_ENV_FILE_BYTES {
        Seq::empty()
    } else {
        warnings(env, lines, path, lines.len() as int)
    }
}

proof fn lemma_silent_after_bad_line(
    env: Env,
    lines: Seq<Seq<char>>,
    path: Seq<char>,
    n: int,
    m: int,
)
    requires
        0 <= n <= m,
        with_lines(env, lines, n) is Err,
    ensures
        warnings(env, lines, path, m) == warnings(env, lines, path, n),
    decreases m - n,
{
    if n < m {
        lemma_first_bad_line(env, lines, n, m - 1);
        lemma_silent_after_bad_line(env, lines, path, n, m - 1);
    }
}

/// Merges a dotenv file over the variables of a recipe: the file wins. The
/// first of what is returned are the warnings to print, whatever came of it.
pub fn merge_env_file(env: &TextMap<String>, text: &str, path: &str) -> (merged: (
    Vec<String>,
    Result<TextMap<String>, Error>,
))
    ensures
        text::texts(merged.0@) == merge_said(env@, text@, path@),
        match merged.1 {
            Ok(all) => merged_env(env@, text@, path@) == Ok::<_, Refusal>(all@),
            Err(error) => merged_env(env@, text@, path@) == Err::<Env, _>(error@),
        },
{
    let mut said: Vec<String> = Vec::new();
    proof {
        assert(text::texts(said@) =~= Seq::empty());
    }
    if byte_len(text) as u64 > MAX_ENV_FILE_BYTES {
        let mut message: String = "env file ".to_owned();
        message.append(escape_printable_path(path).as_str());
        message.append(" is larger than the ");
        message.append(spell(MAX_ENV_FILE_BYTES).as_str());
        message.append("-byte limit");
        return (said, Err(Error::new(message)));
    }
    let lines = split_text(text, '\n');
    let ghost all_lines = text::texts(lines@);
    let mut all = env.copy();
    let mut i: usize = 0;
    while i < lines.len()
        invariant
            i <= lines@.len(),
            all_lines == text::texts(lines@),
            all_lines == text::pieces(text@, '\n'),
            text::utf8_len(text@) <= MAX_ENV_FILE_BYTES,
            with_lines(env@, all_lines, i as int) == Ok::<_, Refusal>(all@),
            text::texts(said@) == warnings(env@, all_lines, path@, i as int),
        decreases lines.len() - i,
    {
        proof {
            assert(all_lines[i as int] == lines@[i as int]@);
            if with_lines(env@, all_lines, i + 1) is Err {
                lemma_first_bad_line(env@, all_lines, i + 1, lines@.len() as int);
                lemma_silent_after_bad_line(env@, all_lines, path@, i + 1, lines@.len() as int);
            }
        }
        match read_line(lines[i].as_str()) {
            None => {},
            Some(None) => {
                let mut message: String = "invalid env file line ".to_owned();
                message.append(spell(i as u64 + 1).as_str());
                message.append(" (want KEY=VAL)");
                return (said, Err(Error::new(message)));
            },
            Some(Some((name, value))) => {
                let changes = match all.get(name.as_str()) {
                    Some(earlier) => !same_text(earlier.as_str(), value.as_str()),
                    None => false,
                };
                if changes {
                    let ghost before = said@;
                    let mut warning: String = "terra: warning: env variable '".to_owned();
                    warning.append(escape_printable(name.as_str()).as_str());
                    warning.append("' is set in both env: and env_file: ");
                    warning.append(escape_printable_path(path).as_str());
                    warning.append(" - the env_file wins");
                    said.push(warning);
                    proof {
                        crate::text::lemma_texts_push(before, said@.last());
                    }
                }
                all.insert(name, value);
            },
        }
        i = i + 1;
    }
    match validate_env(&all) {
        Ok(_) => (said, Ok(all)),
        Err(error) => (said, Err(error)),
    }
}

/// The last value the first `n` lines give a name.
pub open spec fn last_said(lines: Seq<Seq<char>>, name: Seq<char>, n: int) -> Option<Seq<char>>
    decreases n,
{
    if n <= 0 {
        None
    } else {
        match line_says(lines[n - 1]) {
            Some(Some((said, value))) => if said == name {
                Some(value)
            } else {
                last_said(lines, name, n - 1)
            },
            _ => last_said(lines, name, n - 1),
        }
    }
}

proof fn lemma_last_line_wins(env: Env, lines: Seq<Seq<char>>, name: Seq<char>, n: int)
    requires
        with_lines(env, lines, n) is Ok,
        crate::ordered::keys_in_order(env),
    ensures
        crate::ordered::keys_in_order(with_lines(env, lines, n)->Ok_0),
        ordered::lookup(with_lines(env, lines, n)->Ok_0, name) == (match last_said(lines, name, n) {
            Some(value) => Some(value),
            None => ordered::lookup(env, name),
        }),
    decreases n,
{
    if n > 0 {
        lemma_last_line_wins(env, lines, name, n - 1);
        let before = with_lines(env, lines, n - 1)->Ok_0;
        if let Some(Some((said, value))) = line_says(lines[n - 1]) {
            crate::ordered::lemma_lookup_with_entry(before, said, value, name);
        }
    }
}

/// A dotenv file wins over the recipe: each name it sets has the last value it
/// gives, and every other keeps the one of the recipe.
pub proof fn the_env_file_wins(env: Env, text: Seq<char>, path: Seq<char>, name: Seq<char>)
    requires
        crate::ordered::keys_in_order(env),
        merged_env(env, text, path) is Ok,
    ensures
        ({
            let lines = text::pieces(text, '\n');
            ordered::lookup(merged_env(env, text, path)->Ok_0, name) == (match last_said(
                lines,
                name,
                lines.len() as int,
            ) {
                Some(value) => Some(value),
                None => ordered::lookup(env, name),
            })
        }),
{
    let lines = text::pieces(text, '\n');
    lemma_last_line_wins(env, lines, name, lines.len() as int);
}

} // verus!
