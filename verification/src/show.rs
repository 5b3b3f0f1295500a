//! Showing the recipe of a box as a boot would run it.

use crate::config::{Config, ConfigView, Mount};
use crate::env_file::{self, read_env_file, resolve_env_file};
use crate::error::{self, Error, Refusal};
use crate::mount::{self, PinnedPaths, verify_pinned_paths};
use crate::ordered;
use crate::recipe::MANIFEST_FILE;
use crate::render::{self, escape_printable_path, redact_config_env};
use crate::resolve::{ResolvedBox, ResolvedView, Source};
use crate::setup::approve::{self, PathFacts};
use crate::setup::{self, SensitiveMount, SensitiveView, describe_sensitive_mount};
use crate::text;
use vstd::prelude::*;

pub mod laws;

verus! {

/// What is said of a pinned recipe the manifest would have another one for.
pub open spec fn diverging(name: Seq<char>, from: Seq<char>) -> Seq<char> {
    "terra: note: this is "@ + name + "'s pinned recipe, which is what a boot runs - "@
        + MANIFEST_FILE@ + " names "@ + render::printable(from) + " instead, and `terra "@ + name
        + " setup` would pin that one"@
}

pub fn divergence_note(name: &str, from: &str) -> (line: String)
    ensures
        line@ == diverging(name@, from@),
{
    let mut line: String = "terra: note: this is ".to_owned();
    line.append(name);
    line.append("'s pinned recipe, which is what a boot runs - ");
    line.append(MANIFEST_FILE);
    line.append(" names ");
    line.append(escape_printable_path(from).as_str());
    line.append(" instead, and `terra ");
    line.append(name);
    line.append(" setup` would pin that one");
    line
}

/// What is said of a recipe whose mounts are refused.
pub open spec fn mounts_warning(refused: Refusal) -> Seq<char> {
    "terra: warning: `terra setup` would refuse this recipe:\n"@ + text::joined(refused, ": "@)
}

/// What is said of a recipe whose env file cannot be had.
pub open spec fn env_warning(refused: Refusal) -> Seq<char> {
    "terra: warning: "@ + text::joined(refused, ": "@)
        + "\nterra: printing the recipe without those values - a boot would refuse it"@
}

/// What a recipe whose mounts are refused is answered: a pinned one is not
/// shown, another only warned of, as it can still be read.
pub fn settle_mounts(is_pinned: bool, refused: Error) -> (settled: Result<String, Error>)
    ensures
        match settled {
            Ok(warning) => !is_pinned && warning@ == mounts_warning(refused@),
            Err(error) => is_pinned && error@ == refused@,
        },
{
    if is_pinned {
        return Err(refused);
    }
    let mut warning: String = "terra: warning: `terra setup` would refuse this recipe:\n".to_owned();
    warning.append(refused.full_message().as_str());
    Ok(warning)
}

/// What a recipe whose env file cannot be had is answered, likewise.
pub fn settle_env(is_pinned: bool, refused: Error) -> (settled: Result<String, Error>)
    ensures
        match settled {
            Ok(warning) => !is_pinned && warning@ == env_warning(refused@),
            Err(error) => is_pinned && error@ == refused@,
        },
{
    if is_pinned {
        return Err(refused);
    }
    let mut warning: String = "terra: warning: ".to_owned();
    warning.append(refused.full_message().as_str());
    warning.append("\nterra: printing the recipe without those values - a boot would refuse it");
    Ok(warning)
}

/// Everything showing a recipe reads.
#[derive(Debug)]
pub struct ShowFacts {
    /// The recipe as it was parsed, its env file unread.
    pub parsed: Result<Config, Error>,
    /// The recipe's mounts with their links followed.
    pub mounts: Result<Vec<Mount>, Error>,
    pub sensitive: Vec<SensitiveMount>,
    pub paths: PathFacts,
}

/// What showing a recipe comes to: what is said beside it, and the recipe or
/// why it is not shown.
#[derive(Debug)]
pub struct Shown {
    pub said: Vec<String>,
    pub recipe: Result<Config, Error>,
}

#[verifier::ext_equal]
pub struct ShownView {
    pub said: Seq<Seq<char>>,
    pub recipe: Result<ConfigView, Refusal>,
}

impl View for Shown {
    type V = ShownView;

    open spec fn view(&self) -> ShownView {
        ShownView {
            said: text::texts(self.said@),
            recipe: match self.recipe {
                Ok(cfg) => Ok(cfg@),
                Err(error) => Err(error@),
            },
        }
    }
}

/// The warnings of mounts that share something sensitive.
pub open spec fn sensitive_warnings(mounts: Seq<SensitiveView>) -> Seq<Seq<char>> {
    Seq::new(mounts.len(), |i: int| "terra: warning: "@ + setup::sensitive_notice(mounts[i]))
}

/// A recipe with its env file: what it is in the end, whatever came of the
/// file, what is said on the way, and what is held against it. A pinned recipe
/// is held to the host paths that were pinned before the file is read.
#[verifier::ext_equal]
pub struct EnvView {
    pub cfg: ConfigView,
    pub said: Seq<Seq<char>>,
    pub verdict: Result<(), Refusal>,
}

pub open spec fn pins_verdict(name: Seq<char>, cfg: ConfigView, facts: PathFacts) -> Result<
    (),
    Refusal,
> {
    match facts.stored {
        Err(error) => Err(error@),
        Ok(stored) => if stored is Some && mount::same_pins(stored->0@, mount::host_paths(cfg)) {
            Ok(())
        } else {
            Err(mount::moved_since(name))
        },
    }
}

pub open spec fn env_of(name: Seq<char>, is_pinned: bool, cfg: ConfigView, facts: PathFacts) -> EnvView {
    match env_file::with_real_env_file(cfg, facts.env_file) {
        Err(refused) => EnvView { cfg, said: Seq::empty(), verdict: Err(refused) },
        Ok(cfg) => if is_pinned && pins_verdict(name, cfg, facts) is Err {
            EnvView { cfg, said: Seq::empty(), verdict: pins_verdict(name, cfg, facts) }
        } else {
            let said = env_file::said_of(cfg, facts.env_text);
            match env_file::with_env_file(cfg, facts.env_text) {
                Err(refused) => EnvView { cfg, said, verdict: Err(refused) },
                Ok(whole) => EnvView { cfg: whole, said, verdict: Ok(()) },
            }
        },
    }
}

fn check_pins(name: &str, cfg: &Config, stored: Result<Option<PinnedPaths>, Error>) -> (verdict: Result<
    (),
    Error,
>)
    ensures
        forall|facts: PathFacts|
            facts.stored == stored ==> error::outcome(verdict) == #[trigger] pins_verdict(
                name@,
                cfg@,
                facts,
            ),
{
    match stored {
        Ok(stored) => verify_pinned_paths(name, &stored, &PinnedPaths::from_config(cfg)),
        Err(error) => Err(error),
    }
}

fn load_env(name: &str, is_pinned: bool, cfg: &mut Config, facts: PathFacts) -> (loaded: (
    Vec<String>,
    Result<(), Error>,
))
    ensures
        env_of(name@, is_pinned, old(cfg)@, facts) == (EnvView {
            cfg: final(cfg)@,
            said: text::texts(loaded.0@),
            verdict: error::outcome(loaded.1),
        }),
{
    let nothing: Vec<String> = Vec::new();
    proof {
        assert(text::texts(nothing@) =~= Seq::empty());
    }
    if let Err(error) = resolve_env_file(cfg, facts.env_file) {
        return (nothing, Err(error));
    }
    if is_pinned {
        let verdict = check_pins(name, cfg, facts.stored);
        proof {
            assert(error::outcome(verdict) == pins_verdict(name@, cfg@, facts));
        }
        if verdict.is_err() {
            return (nothing, verdict);
        }
    }
    read_env_file(cfg, facts.env_text)
}

/// The recipe as it is printed: without the values of its variables unless
/// they were asked for.
pub open spec fn printed(cfg: ConfigView, with_env_values: bool) -> ConfigView {
    if with_env_values {
        cfg
    } else {
        ConfigView {
            env: ordered::with_every_value(cfg.env, "(set - value not printable)"@),
            ..cfg
        }
    }
}

/// What showing a recipe comes to once its mounts are settled: `said` was said
/// before.
pub open spec fn shown_with_env(
    name: Seq<char>,
    is_pinned: bool,
    cfg: ConfigView,
    said: Seq<Seq<char>>,
    facts: PathFacts,
    with_env_values: bool,
) -> ShownView {
    let env = env_of(name, is_pinned, cfg, facts);
    match env.verdict {
        Ok(_) => ShownView { said: said + env.said, recipe: Ok(printed(env.cfg, with_env_values)) },
        Err(refused) => if is_pinned {
            ShownView { said: said + env.said, recipe: Err(refused) }
        } else {
            ShownView {
                said: (said + env.said).push(env_warning(refused)),
                recipe: Ok(printed(env.cfg, with_env_values)),
            }
        },
    }
}

/// What showing a recipe comes to. One that is not pinned is shown as far as
/// it can be read, with what is held against it; a pinned one only as a boot
/// would run it.
pub open spec fn shown(target: ResolvedView, facts: ShowFacts, with_env_values: bool) -> ShownView {
    let is_pinned = target.source is Pinned;
    let name = target.bx.name;
    let noted = match target.manifest_divergence {
        Some(from) => seq![diverging(name, from)],
        None => Seq::empty(),
    };
    match facts.parsed {
        Err(error) => ShownView { said: noted, recipe: Err(error@) },
        Ok(cfg) => match facts.mounts {
            Ok(mounts) => shown_with_env(
                name,
                is_pinned,
                ConfigView { mounts: text::views(mounts@), ..cfg@ },
                noted + sensitive_warnings(setup::sensitives(facts.sensitive@)),
                facts.paths,
                with_env_values,
            ),
            Err(error) => if is_pinned {
                ShownView { said: noted, recipe: Err(error@) }
            } else {
                shown_with_env(
                    name,
                    is_pinned,
                    cfg@,
                    noted.push(mounts_warning(error@)),
                    facts.paths,
                    with_env_values,
                )
            },
        },
    }
}

fn say(said: &mut Vec<String>, line: String)
    ensures
        text::texts(final(said)@) == text::texts(old(said)@).push(line@),
{
    let ghost before = said@;
    said.push(line);
    proof {
        crate::text::lemma_texts_push(before, said@.last());
    }
}

fn warn_of_sensitive(said: &mut Vec<String>, mounts: &Vec<SensitiveMount>)
    ensures
        text::texts(final(said)@) == text::texts(old(said)@) + sensitive_warnings(
            setup::sensitives(mounts@),
        ),
{
    let ghost all = sensitive_warnings(setup::sensitives(mounts@));
    let ghost start = text::texts(said@);
    let mut i: usize = 0;
    proof {
        assert(start =~= start + all.take(0));
    }
    while i < mounts.len()
        invariant
            i <= mounts@.len(),
            all == sensitive_warnings(setup::sensitives(mounts@)),
            text::texts(said@) == start + all.take(i as int),
        decreases mounts.len() - i,
    {
        let mut line: String = "terra: warning: ".to_owned();
        line.append(describe_sensitive_mount(&mounts[i]).as_str());
        say(said, line);
        proof {
            assert(start + all.take(i + 1) =~= (start + all.take(i as int)).push(all[i as int]));
        }
        i = i + 1;
    }
    proof {
        assert(all.take(i as int) =~= all);
    }
}

fn say_all(said: &mut Vec<String>, lines: &Vec<String>)
    ensures
        text::texts(final(said)@) == text::texts(old(said)@) + text::texts(lines@),
{
    let ghost all = text::texts(lines@);
    let ghost start = text::texts(said@);
    let mut i: usize = 0;
    proof {
        assert(start =~= start + all.take(0));
    }
    while i < lines.len()
        invariant
            i <= lines@.len(),
            all == text::texts(lines@),
            text::texts(said@) == start + all.take(i as int),
        decreases lines.len() - i,
    {
        say(said, lines[i].as_str().to_owned());
        proof {
            assert(start + all.take(i + 1) =~= (start + all.take(i as int)).push(all[i as int]));
        }
        i = i + 1;
    }
    proof {
        assert(all.take(i as int) =~= all);
    }
}

/// Shows the recipe of a box as a boot would run it.
pub fn show(target: &ResolvedBox, facts: ShowFacts, with_env_values: bool) -> (result: Shown)
    ensures
        result@ == shown(target@, facts, with_env_values),
{
    let is_pinned = match &target.source {
        Source::Pinned => true,
        _ => false,
    };
    let name = target.bx.name();
    let mut said: Vec<String> = Vec::new();
    proof {
        assert(text::texts(said@) =~= Seq::empty());
    }
    if let Some(from) = &target.manifest_divergence {
        say(&mut said, divergence_note(name, from.as_str()));
    }
    let mut cfg = match facts.parsed {
        Ok(cfg) => cfg,
        Err(error) => {
            return Shown { said, recipe: Err(error) };
        },
    };
    let ghost parsed = cfg@;
    match facts.mounts {
        Ok(mounts) => {
            warn_of_sensitive(&mut said, &facts.sensitive);
            cfg.mounts = mounts;
            proof {
                assert(cfg@ =~= ConfigView { mounts: text::views(cfg.mounts@), ..parsed });
            }
        },
        Err(error) => match settle_mounts(is_pinned, error) {
            Ok(warning) => {
                say(&mut said, warning);
            },
            Err(error) => {
                return Shown { said, recipe: Err(error) };
            },
        },
    }
    let (more, verdict) = load_env(name, is_pinned, &mut cfg, facts.paths);
    say_all(&mut said, &more);
    if let Err(error) = verdict {
        match settle_env(is_pinned, error) {
            Ok(warning) => {
                say(&mut said, warning);
            },
            Err(error) => {
                return Shown { said, recipe: Err(error) };
            },
        }
    }
    let recipe = if with_env_values {
        cfg
    } else {
        redact_config_env(&cfg)
    };
    Shown { said, recipe: Ok(recipe) }
}

/// A pinned recipe is shown only where a boot would run it: on the host paths
/// that were pinned, with every value of its env file.
pub proof fn pinned_recipes_are_shown_as_they_boot(
    target: ResolvedView,
    facts: ShowFacts,
)
    requires
        target.source is Pinned,
        shown(target, facts, true).recipe is Ok,
    ensures
        facts.parsed is Ok,
        facts.mounts is Ok,
        ({
            let cfg = ConfigView {
                mounts: text::views(facts.mounts->Ok_0@),
                ..facts.parsed->Ok_0@
            };
            approve::approval(target.bx, cfg, None, facts.paths, false) matches Ok(approved)
                && approved.cfg == shown(target, facts, true).recipe->Ok_0
        }),
{
}

/// Unless the values of variables were asked for, none of them is shown.
pub proof fn values_are_shown_on_request(target: ResolvedView, facts: ShowFacts, i: int)
    requires
        shown(target, facts, false).recipe is Ok,
        0 <= i < shown(target, facts, false).recipe->Ok_0.env.len(),
    ensures
        shown(target, facts, false).recipe->Ok_0.env[i].1 == "(set - value not printable)"@,
{
}

} // verus!
