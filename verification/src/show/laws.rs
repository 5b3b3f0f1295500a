//! What is shown of a recipe.

use crate::config::ConfigView;
use crate::env_file;
use crate::mount;
use crate::resolve::{ResolvedView, SourceView};
use crate::setup;
use crate::show::{self, ShowFacts};
use crate::text;
use vstd::prelude::*;

verus! {

/// What is shown is the recipe that was parsed, with its mounts as they were
/// followed, or as they are written where they could not be and nothing is pinned;
/// only its variables and the place of its env file may be others.
pub proof fn recipes_are_shown_as_they_are(
    target: ResolvedView,
    facts: ShowFacts,
    with_env_values: bool,
)
    ensures
        show::shown(target, facts, with_env_values).recipe matches Ok(cfg) ==> {
            &&& facts.parsed is Ok
            &&& cfg == ConfigView {
                mounts: cfg.mounts,
                env: cfg.env,
                env_file: cfg.env_file,
                ..facts.parsed->Ok_0@
            }
            &&& facts.mounts matches Ok(mounts) ==> cfg.mounts.len() == mounts@.len() && forall|
                i: int,
            |
                0 <= i < mounts@.len() ==> (#[trigger] cfg.mounts[i]).host == mounts@[i].host@
                    && cfg.mounts[i].guest == mounts@[i].guest@ && cfg.mounts[i].readonly
                    == mounts@[i].readonly
            &&& facts.mounts is Err ==> cfg.mounts == facts.parsed->Ok_0@.mounts && target.source
                != SourceView::Pinned
        },
{
    if let Ok(mounts) = facts.mounts {
        let views = text::views(mounts@);
        assert(views.len() == mounts@.len());
    }
}

/// Asking for the values of variables changes nothing of what is shown but those
/// values: the same recipe, the same variables, and the same is said.
pub proof fn values_are_all_that_is_hidden(target: ResolvedView, facts: ShowFacts)
    ensures
        ({
            let open = show::shown(target, facts, true);
            let hidden = show::shown(target, facts, false);
            &&& open.said == hidden.said
            &&& open.recipe is Ok == hidden.recipe is Ok
            &&& open.recipe is Err ==> open.recipe == hidden.recipe
            &&& open.recipe is Ok ==> {
                let (a, b) = (open.recipe->Ok_0, hidden.recipe->Ok_0);
                &&& b == ConfigView { env: b.env, ..a }
                &&& b.env.len() == a.env.len()
                &&& forall|i: int| 0 <= i < a.env.len() ==> (#[trigger] b.env[i]).0 == a.env[i].0
            }
        }),
{
}

/// A recipe that is pinned and cannot be booted as it is is not shown; one that is
/// not is shown all the same, with what is wrong with it said.
pub proof fn broken_pins_are_not_shown(
    target: ResolvedView,
    facts: ShowFacts,
    with_env_values: bool,
)
    ensures
        facts.parsed is Err ==> show::shown(target, facts, with_env_values).recipe is Err,
        target.source == SourceView::Pinned && facts.mounts is Err ==> show::shown(
            target,
            facts,
            with_env_values,
        ).recipe is Err,
        target.source != SourceView::Pinned && facts.parsed is Ok ==> show::shown(
            target,
            facts,
            with_env_values,
        ).recipe is Ok,
{
}

/// What is said of a recipe beside what its env file gives rise to: that
/// another one would be pinned, and every sensitive share.
pub open spec fn notes(target: ResolvedView, facts: ShowFacts) -> Seq<Seq<char>> {
    (match target.manifest_divergence {
        Some(from) => seq![show::diverging(target.bx.name, from)],
        None => Seq::empty(),
    }) + Seq::new(
        facts.sensitive@.len(),
        |i: int| "terra: warning: "@ + setup::sensitive_notice(facts.sensitive@[i]@),
    )
}

/// The variables of a recipe are shown with its env file merged in, where it
/// lies once its links are followed. One that is pinned is shown only where
/// its paths are still the pinned ones; for one that is not, pinned paths do
/// not matter.
pub proof fn variables_are_shown_with_the_env_file(target: ResolvedView, facts: ShowFacts)
    requires
        facts.parsed is Ok,
        facts.mounts is Ok,
    ensures
        ({
            let written = ConfigView {
                mounts: text::views(facts.mounts->Ok_0@),
                ..facts.parsed->Ok_0@
            };
            let followed = env_file::with_real_env_file(written, facts.paths.env_file);
            let whole = env_file::with_env_file(followed->Ok_0, facts.paths.env_text);
            let is_still_pinned = {
                &&& facts.paths.stored is Ok
                &&& facts.paths.stored->Ok_0 is Some
                &&& mount::same_pins(
                    facts.paths.stored->Ok_0->0@,
                    mount::host_paths(followed->Ok_0),
                )
            };
            let shown = show::shown(target, facts, true);
            let is_pinned = target.source == SourceView::Pinned;
            &&& followed is Ok && whole is Ok && (is_pinned ==> is_still_pinned) ==> {
                &&& shown.recipe == whole
                &&& shown.said == notes(target, facts) + env_file::said_of(
                    followed->Ok_0,
                    facts.paths.env_text,
                )
            }
            &&& is_pinned ==> (shown.recipe is Ok <==> followed is Ok && whole is Ok
                && is_still_pinned)
            &&& !is_pinned && !(followed is Ok && whole is Ok) ==> {
                &&& shown.recipe is Ok
                &&& shown.recipe->Ok_0.env == written.env
                &&& shown.said.len() > notes(target, facts).len()
            }
        }),
{
    let shown = show::shown(target, facts, true);
    assert(show::sensitive_warnings(setup::sensitives(facts.sensitive@)) =~= Seq::new(
        facts.sensitive@.len(),
        |i: int| "terra: warning: "@ + setup::sensitive_notice(facts.sensitive@[i]@),
    ));
}

} // verus!
