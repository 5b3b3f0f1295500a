//! The env file of a recipe: found, then read, then merged.

use crate::config::{Config, ConfigView};
use crate::env::{self, merge_env_file};
use crate::error::{self, Error, Refusal};
use crate::render::{self, escape_printable_path};
use crate::text;
use vstd::prelude::*;

pub mod open;

verus! {

/// What came of opening and reading an env file.
#[derive(Debug)]
pub enum EnvRead {
    Unopened(String),
    Unreadable(String),
    Text(String),
}

/// The recipe with its env file's links followed.
pub open spec fn with_real_env_file(cfg: ConfigView, followed: Result<String, String>) -> Result<
    ConfigView,
    Refusal,
> {
    match cfg.env_file {
        None => Ok(cfg),
        Some(path) => match followed {
            Ok(followed) => Ok(ConfigView { env_file: Some(followed@), ..cfg }),
            Err(why) => Err(
                error::refusal("resolving env file "@ + render::printable(path)) + error::refusal(why@),
            ),
        },
    }
}

/// The recipe with what its env file sets.
pub open spec fn with_env_file(cfg: ConfigView, read: EnvRead) -> Result<ConfigView, Refusal> {
    match cfg.env_file {
        None => Ok(cfg),
        Some(path) => match read {
            EnvRead::Unopened(why) => Err(
                error::refusal("opening env file "@ + render::printable(path)) + error::refusal(why@),
            ),
            EnvRead::Unreadable(why) => Err(
                error::refusal("reading env file "@ + render::printable(path)) + error::refusal(why@),
            ),
            EnvRead::Text(text) => match env::merged_env(cfg.env, text@, path) {
                Ok(env) => Ok(ConfigView { env, ..cfg }),
                Err(refused) => Err(refused),
            },
        },
    }
}

/// What is said while an env file is merged into a recipe.
pub open spec fn said_of(cfg: ConfigView, read: EnvRead) -> Seq<Seq<char>> {
    match (cfg.env_file, read) {
        (Some(path), EnvRead::Text(text)) => env::merge_said(cfg.env, text@, path),
        _ => Seq::empty(),
    }
}

fn env_file_failed(what: &str, path: &str, why: String) -> (error: Error)
    ensures
        error@ == error::refusal(what@ + render::printable(path@)) + error::refusal(why@),
{
    let mut message: String = what.to_owned();
    message.append(escape_printable_path(path).as_str());
    Error::new(why).context(message)
}

/// Puts the env file in its place with its links followed. A recipe that names
/// none has nothing to follow, and one that is refused stays as it was.
pub fn resolve_env_file(cfg: &mut Config, followed: Result<String, String>) -> (resolved: Result<
    (),
    Error,
>)
    ensures
        match resolved {
            Ok(_) => with_real_env_file(old(cfg)@, followed) == Ok::<_, Refusal>(final(cfg)@),
            Err(error) => with_real_env_file(old(cfg)@, followed) == Err::<ConfigView, _>(error@)
                && final(cfg)@ == old(cfg)@,
        },
{
    if let Some(path) = &cfg.env_file {
        match followed {
            Ok(followed) => {
                cfg.env_file = Some(followed);
            },
            Err(why) => {
                return Err(env_file_failed("resolving env file ", path.as_str(), why));
            },
        }
    }
    Ok(())
}

/// Merges the env file that was read into the recipe, which stays as it was
/// where it is refused. The first of what is returned are the warnings to
/// print, whatever came of it.
pub fn read_env_file(cfg: &mut Config, read: EnvRead) -> (merged: (Vec<String>, Result<(), Error>))
    ensures
        text::texts(merged.0@) == said_of(old(cfg)@, read),
        match merged.1 {
            Ok(_) => with_env_file(old(cfg)@, read) == Ok::<_, Refusal>(final(cfg)@),
            Err(error) => with_env_file(old(cfg)@, read) == Err::<ConfigView, _>(error@)
                && final(cfg)@ == old(cfg)@,
        },
{
    let nothing: Vec<String> = Vec::new();
    proof {
        assert(text::texts(nothing@) =~= Seq::empty());
    }
    let path = match &cfg.env_file {
        Some(path) => path,
        None => {
            return (nothing, Ok(()));
        },
    };
    let text = match read {
        EnvRead::Unopened(why) => {
            return (nothing, Err(env_file_failed("opening env file ", path.as_str(), why)));
        },
        EnvRead::Unreadable(why) => {
            return (nothing, Err(env_file_failed("reading env file ", path.as_str(), why)));
        },
        EnvRead::Text(text) => text,
    };
    let (said, merged) = merge_env_file(&cfg.env, text.as_str(), path.as_str());
    match merged {
        Ok(env) => {
            cfg.env = env;
            (said, Ok(()))
        },
        Err(error) => (said, Err(error)),
    }
}

} // verus!
