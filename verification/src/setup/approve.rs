//! The way of a recipe from being named to being agreed to: every refusal has
//! run once a recipe is approved.

use crate::config::{Config, ConfigView, Mount};
use crate::env_file::{self, EnvRead, read_env_file, resolve_env_file};
use crate::error::{self, Error, Refusal, refuse};
use crate::mount::{self, PinnedPaths, PinnedView, are_same_pins, verify_pinned_paths};
use crate::render::{self, escape_printable_path};
use crate::resolve::{Recipe, RecipeView, ResolvedBox, Source, SourceView};
use crate::setup::{
    self, Approval, PinQuestion, QuestionView, RecipeAuthorship, SensitiveMount, SensitiveView,
    answer_is_yes, decide_pinning, put_the_question, validate_storage_devices, warn_of_pin,
};
use crate::state::{self, BoxRef, BoxView};
use crate::text::{self, same_text};
use vstd::prelude::*;

verus! {

/// Everything approval reads.
#[derive(Debug)]
pub struct ApprovalFacts {
    /// The longest path a socket can have.
    pub max_socket_path: usize,
    /// Whether this host is one boxes can run on.
    pub host_root: Result<(), Error>,
    /// The recipe as it was parsed, its env file unread.
    pub parsed: Result<Config, Error>,
    /// The recipe's mounts with their links followed.
    pub mounts: Result<Vec<Mount>, Error>,
    pub max_devices: usize,
    /// The recipe in the box's state, empty where there is none.
    pub pinned_text: String,
    pub authorship: Option<RecipeAuthorship>,
    pub sensitive: Vec<SensitiveMount>,
}

/// A recipe that stands before whoever has to agree to it.
#[derive(Debug)]
pub struct PendingApproval {
    pub bx: BoxRef,
    pub cfg: Config,
    pub new_pin: Option<Recipe>,
    pub question: PinQuestion,
}

/// A recipe to pin, if any, as it shows.
pub open spec fn pin_of(pin: Option<Recipe>) -> Option<RecipeView> {
    match pin {
        Some(recipe) => Some(recipe@),
        None => None,
    }
}

#[verifier::ext_equal]
pub struct PendingView {
    pub bx: BoxView,
    pub cfg: ConfigView,
    pub new_pin: Option<RecipeView>,
    pub question: QuestionView,
}

impl View for PendingApproval {
    type V = PendingView;

    open spec fn view(&self) -> PendingView {
        PendingView {
            bx: self.bx@,
            cfg: self.cfg@,
            new_pin: pin_of(self.new_pin),
            question: self.question@,
        }
    }
}

/// How a pinning is announced.
pub open spec fn pin_lead(approval: Approval, bx: BoxView, from: Seq<char>) -> Seq<char> {
    if approval == Approval::Offer {
        "no box '"@ + bx.name + "' in "@ + bx.project_dir + " yet - "@ + render::printable(from)
            + " would build it"@
    } else {
        "pinning "@ + render::printable(from) + " to "@ + state::shown(bx)
    }
}

fn announce_pin(approval: Approval, bx: &BoxRef, from: &str) -> (lead: String)
    ensures
        lead@ == pin_lead(approval, bx@, from@),
{
    if approval == Approval::Offer {
        let mut lead: String = "no box '".to_owned();
        lead.append(bx.name());
        lead.append("' in ");
        lead.append(bx.project_dir());
        lead.append(" yet - ");
        lead.append(escape_printable_path(from).as_str());
        lead.append(" would build it");
        lead
    } else {
        let mut lead: String = "pinning ".to_owned();
        lead.append(escape_printable_path(from).as_str());
        lead.append(" to ");
        lead.append(bx.describe().as_str());
        lead
    }
}

/// Whether some mount shares something sensitive for writing.
pub open spec fn shares_for_writing(mounts: Seq<SensitiveView>) -> bool {
    exists|i: int| 0 <= i < mounts.len() && !(#[trigger] mounts[i]).readonly
}

fn any_for_writing(mounts: &Vec<SensitiveMount>) -> (yes: bool)
    ensures
        yes == shares_for_writing(setup::sensitives(mounts@)),
{
    let mut i: usize = 0;
    while i < mounts.len()
        invariant
            i <= mounts@.len(),
            forall|k: int| 0 <= k < i ==> (#[trigger] setup::sensitives(mounts@)[k]).readonly,
        decreases mounts.len() - i,
    {
        if !mounts[i].readonly {
            proof {
                assert(!setup::sensitives(mounts@)[i as int].readonly);
            }
            return true;
        }
        i = i + 1;
    }
    false
}

/// The recipe a source brings, `None` for one that is pinned already.
pub open spec fn source_recipe(source: SourceView) -> Option<RecipeView> {
    match source {
        SourceView::Pinned => None,
        SourceView::File(recipe) => Some(recipe),
        SourceView::Manifest(recipe) => Some(recipe),
    }
}

/// A recipe that came through all the rules, before whoever has to agree: one
/// that is pinned as it stands is not put at all.
pub open spec fn pending(
    bx: BoxView,
    cfg: ConfigView,
    source: SourceView,
    facts: ApprovalFacts,
    approval: Approval,
    is_at_a_terminal: bool,
) -> PendingView {
    let settled = PendingView { bx, cfg, new_pin: None, question: QuestionView::Nothing };
    match source_recipe(source) {
        None => settled,
        Some(recipe) => if recipe.text == facts.pinned_text@ {
            settled
        } else {
            let authorship = setup::authorship_of(facts.authorship);
            let mounts = setup::sensitives(facts.sensitive@);
            let is_suspect = authorship is Some || shares_for_writing(mounts);
            PendingView {
                bx,
                cfg,
                new_pin: Some(recipe),
                question: setup::question(
                    setup::pinning(approval, is_suspect, is_at_a_terminal),
                    pin_lead(approval, bx, recipe.from),
                    setup::pin_warning(recipe.from, authorship, mounts),
                    cfg,
                    bx.name,
                ),
            }
        },
    }
}

/// What asking for a recipe's approval comes to: the first refusal, or the
/// recipe with its mounts resolved and what has to be asked.
pub open spec fn approval_request(
    bx: BoxView,
    source: SourceView,
    facts: ApprovalFacts,
    approval: Approval,
    is_at_a_terminal: bool,
) -> Result<PendingView, Refusal> {
    match state::sockets_verdict(bx, facts.max_socket_path as nat) {
        Err(refused) => Err(refused),
        Ok(_) => match facts.host_root {
            Err(error) => Err(error@),
            Ok(_) => match facts.parsed {
                Err(error) => Err(error@),
                Ok(cfg) => match facts.mounts {
                    Err(error) => Err(error@),
                    Ok(mounts) => {
                        let cfg = ConfigView { mounts: text::views(mounts@), ..cfg@ };
                        match setup::devices_verdict(
                            cfg.mounts.len(),
                            cfg.volumes.len(),
                            facts.max_devices as nat,
                        ) {
                            Err(refused) => Err(refused),
                            Ok(_) => Ok(
                                pending(bx, cfg, source, facts, approval, is_at_a_terminal),
                            ),
                        }
                    },
                },
            },
        },
    }
}

/// Puts a recipe through every rule and says what has to be asked before it is
/// pinned.
pub fn request_recipe_approval(
    target: ResolvedBox,
    facts: ApprovalFacts,
    approval: Approval,
    is_at_a_terminal: bool,
) -> (requested: Result<PendingApproval, Error>)
    ensures
        match requested {
            Ok(pending) => approval_request(
                target@.bx,
                target@.source,
                facts,
                approval,
                is_at_a_terminal,
            ) == Ok::<_, Refusal>(pending@),
            Err(error) => approval_request(
                target@.bx,
                target@.source,
                facts,
                approval,
                is_at_a_terminal,
            ) == Err::<PendingView, _>(error@),
        },
{
    match target.bx.ensure_sockets_fit(facts.max_socket_path) {
        Ok(()) => {},
        Err(error) => {
            return Err(error);
        },
    }
    match facts.host_root {
        Ok(()) => {},
        Err(error) => {
            return Err(error);
        },
    }
    let mut cfg = match facts.parsed {
        Ok(cfg) => cfg,
        Err(error) => {
            return Err(error);
        },
    };
    let ghost parsed = cfg@;
    match facts.mounts {
        Ok(mounts) => {
            cfg.mounts = mounts;
        },
        Err(error) => {
            return Err(error);
        },
    }
    proof {
        assert(cfg@ =~= ConfigView { mounts: text::views(cfg.mounts@), ..parsed });
    }
    match validate_storage_devices(&cfg, facts.max_devices) {
        Ok(()) => {},
        Err(error) => {
            return Err(error);
        },
    }
    let bx = target.bx;
    let recipe = match target.source {
        Source::Pinned => {
            return Ok(
                PendingApproval { bx, cfg, new_pin: None, question: PinQuestion::Nothing },
            );
        },
        Source::File(recipe) => recipe,
        Source::Manifest(recipe) => recipe,
    };
    if same_text(recipe.text.as_str(), facts.pinned_text.as_str()) {
        return Ok(PendingApproval { bx, cfg, new_pin: None, question: PinQuestion::Nothing });
    }
    let is_suspect = facts.authorship.is_some() || any_for_writing(&facts.sensitive);
    let lead = announce_pin(approval, &bx, recipe.from.as_str());
    let warning = warn_of_pin(recipe.from.as_str(), &facts.authorship, &facts.sensitive);
    let question = put_the_question(
        decide_pinning(approval, is_suspect, is_at_a_terminal),
        lead.as_str(),
        &warning,
        &cfg,
        bx.name(),
    );
    Ok(PendingApproval { bx, cfg, new_pin: Some(recipe), question })
}

/// A recipe that was agreed to.
#[derive(Debug)]
pub struct AgreedRecipe {
    pub bx: BoxRef,
    pub cfg: Config,
    pub new_pin: Option<Recipe>,
}

/// What stands against going on, by what was asked and what was answered.
pub open spec fn objection(question: QuestionView, answer: Seq<char>) -> Option<Refusal> {
    match question {
        QuestionView::Refuse(refused) => Some(refused),
        QuestionView::Ask { default_yes, .. } => if setup::says_yes(answer, default_yes) {
            None
        } else {
            Some(error::refusal("not pinned - the box is unchanged"@))
        },
        _ => None,
    }
}

impl PendingApproval {
    /// The recipe once it was answered for; `answer` counts only where there
    /// was something to ask.
    pub fn settle(self, answer: &str) -> (agreed: Result<AgreedRecipe, Error>)
        ensures
            ({
                let expected = objection(self@.question, answer@);
                match agreed {
                    Ok(agreed) => expected is None && agreed.bx@ == self@.bx && agreed.cfg@
                        == self@.cfg && pin_of(agreed.new_pin) == self@.new_pin,
                    Err(error) => expected == Some(error@),
                }
            }),
    {
        match self.question {
            PinQuestion::Refuse(error) => {
                return Err(error);
            },
            PinQuestion::Ask { default_yes, .. } => {
                if !answer_is_yes(answer, default_yes) {
                    return Err(refuse("not pinned - the box is unchanged"));
                }
            },
            _ => {},
        }
        Ok(AgreedRecipe { bx: self.bx, cfg: self.cfg, new_pin: self.new_pin })
    }
}

/// What was found of a recipe's env file and of what was pinned before. Only a
/// recipe that names an env file has one.
#[derive(Debug)]
pub struct PathFacts {
    /// The env file with its links followed, or why that could not be done.
    pub env_file: Result<String, String>,
    pub stored: Result<Option<PinnedPaths>, Error>,
    pub env_text: EnvRead,
}

/// A recipe approved for one box: every refusal has run.
#[derive(Debug)]
pub struct ApprovedRecipe {
    pub bx: BoxRef,
    pub cfg: Config,
    pub new_pin: Option<Recipe>,
    /// The host paths to pin, where they are to be pinned anew.
    pub pinned_paths: Option<PinnedPaths>,
}

/// Host paths to pin, if any, as they show.
pub open spec fn paths_of(paths: Option<PinnedPaths>) -> Option<PinnedView> {
    match paths {
        Some(paths) => Some(paths@),
        None => None,
    }
}

#[verifier::ext_equal]
pub struct ApprovedView {
    pub bx: BoxView,
    pub cfg: ConfigView,
    pub new_pin: Option<RecipeView>,
    pub pinned_paths: Option<PinnedView>,
}

impl View for ApprovedRecipe {
    type V = ApprovedView;

    open spec fn view(&self) -> ApprovedView {
        ApprovedView {
            bx: self.bx@,
            cfg: self.cfg@,
            new_pin: pin_of(self.new_pin),
            pinned_paths: paths_of(self.pinned_paths),
        }
    }
}

/// The host paths to pin: none where the same are pinned already, these where
/// they may be replaced, and a refusal otherwise.
pub open spec fn paths_to_pin(
    name: Seq<char>,
    stored: Option<PinnedView>,
    paths: PinnedView,
    replace: bool,
) -> Result<Option<PinnedView>, Refusal> {
    if stored is Some && mount::same_pins(stored->0, paths) {
        Ok(None)
    } else if replace {
        Ok(Some(paths))
    } else {
        Err(mount::moved_since(name))
    }
}

/// The recipe with its env file in its place and the host paths to pin, or the
/// first refusal.
pub open spec fn pinning_of(
    bx: BoxView,
    cfg: ConfigView,
    new_pin: Option<RecipeView>,
    facts: PathFacts,
    refresh_pinned_paths: bool,
) -> Result<(ConfigView, Option<PinnedView>), Refusal> {
    match env_file::with_real_env_file(cfg, facts.env_file) {
        Err(refused) => Err(refused),
        Ok(cfg) => match facts.stored {
            Err(error) => Err(error@),
            Ok(stored) => match paths_to_pin(
                bx.name,
                paths_of(stored),
                mount::host_paths(cfg),
                refresh_pinned_paths || new_pin is Some,
            ) {
                Err(refused) => Err(refused),
                Ok(pinned_paths) => Ok((cfg, pinned_paths)),
            },
        },
    }
}

/// What an agreed recipe comes to: the first refusal, or the approved recipe.
pub open spec fn approval(
    bx: BoxView,
    cfg: ConfigView,
    new_pin: Option<RecipeView>,
    facts: PathFacts,
    refresh_pinned_paths: bool,
) -> Result<ApprovedView, Refusal> {
    match pinning_of(bx, cfg, new_pin, facts, refresh_pinned_paths) {
        Err(refused) => Err(refused),
        Ok((cfg, pinned_paths)) => match env_file::with_env_file(cfg, facts.env_text) {
            Err(refused) => Err(refused),
            Ok(cfg) => Ok(ApprovedView { bx, cfg, new_pin, pinned_paths }),
        },
    }
}

/// What is said on the way: nothing before the env file is read.
pub open spec fn approval_said(
    bx: BoxView,
    cfg: ConfigView,
    new_pin: Option<RecipeView>,
    facts: PathFacts,
    refresh_pinned_paths: bool,
) -> Seq<Seq<char>> {
    match pinning_of(bx, cfg, new_pin, facts, refresh_pinned_paths) {
        Err(_) => Seq::empty(),
        Ok((cfg, _)) => env_file::said_of(cfg, facts.env_text),
    }
}

fn choose_pinned_paths(
    name: &str,
    stored: &Option<PinnedPaths>,
    paths: PinnedPaths,
    replace: bool,
) -> (chosen: Result<Option<PinnedPaths>, Error>)
    ensures
        match chosen {
            Ok(chosen) => paths_to_pin(name@, paths_of(*stored), paths@, replace) == Ok::<
                _,
                Refusal,
            >(paths_of(chosen)),
            Err(error) => paths_to_pin(name@, paths_of(*stored), paths@, replace) == Err::<
                Option<PinnedView>,
                _,
            >(error@),
        },
{
    if let Some(stored) = stored {
        if are_same_pins(stored, &paths) {
            return Ok(None);
        }
    }
    if replace {
        return Ok(Some(paths));
    }
    match verify_pinned_paths(name, stored, &paths) {
        Ok(()) => Ok(None),
        Err(error) => Err(error),
    }
}

impl AgreedRecipe {
    /// Approves the recipe: its host paths are pinned or held to what was, and
    /// only then is its env file read. The first of what is returned are the
    /// warnings to print. `refresh_pinned_paths` lets an explicit setup replace
    /// pinned paths.
    pub fn approve(self, facts: PathFacts, refresh_pinned_paths: bool) -> (approved: (
        Vec<String>,
        Result<ApprovedRecipe, Error>,
    ))
        ensures
            ({
                let pin = pin_of(self.new_pin);
                &&& text::texts(approved.0@) == approval_said(
                    self.bx@,
                    self.cfg@,
                    pin,
                    facts,
                    refresh_pinned_paths,
                )
                &&& match approved.1 {
                    Ok(recipe) => approval(self.bx@, self.cfg@, pin, facts, refresh_pinned_paths)
                        == Ok::<_, Refusal>(recipe@),
                    Err(error) => approval(self.bx@, self.cfg@, pin, facts, refresh_pinned_paths)
                        == Err::<ApprovedView, _>(error@),
                }
            }),
    {
        let nothing: Vec<String> = Vec::new();
        proof {
            assert(text::texts(nothing@) =~= Seq::empty());
        }
        let bx = self.bx;
        let new_pin = self.new_pin;
        let mut cfg = self.cfg;
        if let Err(error) = resolve_env_file(&mut cfg, facts.env_file) {
            return (nothing, Err(error));
        }
        let stored = match facts.stored {
            Ok(stored) => stored,
            Err(error) => {
                return (nothing, Err(error));
            },
        };
        let pinned_paths = match choose_pinned_paths(
            bx.name(),
            &stored,
            PinnedPaths::from_config(&cfg),
            refresh_pinned_paths || new_pin.is_some(),
        ) {
            Ok(chosen) => chosen,
            Err(error) => {
                return (nothing, Err(error));
            },
        };
        let (said, merged) = read_env_file(&mut cfg, facts.env_text);
        match merged {
            Ok(()) => (said, Ok(ApprovedRecipe { bx, cfg, new_pin, pinned_paths })),
            Err(error) => (said, Err(error)),
        }
    }
}

/// A boot never runs on host paths other than those that were pinned: without
/// a new recipe and without leave to replace them, either they are the same or
/// the recipe is refused.
pub proof fn boots_keep_to_pinned_paths(
    bx: BoxView,
    cfg: ConfigView,
    facts: PathFacts,
)
    requires
        approval(bx, cfg, None, facts, false) is Ok,
    ensures
        facts.stored is Ok,
        facts.stored->Ok_0 is Some,
        env_file::with_real_env_file(cfg, facts.env_file) is Ok,
        mount::same_pins(
            facts.stored->Ok_0->0@,
            mount::host_paths(env_file::with_real_env_file(cfg, facts.env_file)->Ok_0),
        ),
{
}

} // verus!
