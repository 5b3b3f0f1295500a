//! What setting up a box comes to: which recipe is pinned, who is asked, and
//! what is made and removed.

use crate::config::ConfigView;
use crate::env_file;
use crate::mount::{self, PinnedView};
use crate::path;
use crate::resolve::{RecipeView, SourceView};
use crate::setup::approve::{self, ApprovalFacts, ApprovedView, PathFacts};
use crate::setup::prepare::{self, Rebuild, StepView, SweepView};
use crate::setup::{self, Approval, AuthorshipView, Carrier, QuestionView};
use crate::state::{self, BoxView};
use crate::unicode;
use vstd::prelude::*;

verus! {

/// Whether there is something against a recipe: a guest could have written it,
/// or it shares something sensitive for writing.
pub open spec fn is_suspect(facts: ApprovalFacts) -> bool {
    facts.authorship is Some || exists|i: int|
        0 <= i < facts.sensitive@.len() && !(#[trigger] facts.sensitive@[i]).readonly
}

/// Whether there is anything to be warned of.
pub open spec fn is_worth_a_warning(facts: ApprovalFacts) -> bool {
    facts.authorship is Some || facts.sensitive@.len() > 0
}

/// Whether a source brings a recipe, from a file or from the manifest, whose text
/// is another than the one that is pinned.
pub open spec fn brings_news(source: SourceView, facts: ApprovalFacts) -> bool {
    match source {
        SourceView::Pinned => false,
        SourceView::File(recipe) => recipe.text != facts.pinned_text@,
        SourceView::Manifest(recipe) => recipe.text != facts.pinned_text@,
    }
}

/// A recipe that comes from a file or from the manifest and is not the one that
/// is pinned is what is to be pinned, and nothing else ever is.
pub proof fn what_is_new_is_to_be_pinned(
    bx: BoxView,
    source: SourceView,
    facts: ApprovalFacts,
    approval: Approval,
    is_at_a_terminal: bool,
)
    requires
        approve::approval_request(bx, source, facts, approval, is_at_a_terminal) is Ok,
    ensures
        ({
            let pending = approve::approval_request(
                bx,
                source,
                facts,
                approval,
                is_at_a_terminal,
            )->Ok_0;
            &&& pending.bx == bx
            &&& pending.new_pin is Some <==> brings_news(source, facts)
            &&& match source {
                SourceView::Pinned => true,
                SourceView::File(recipe) => brings_news(source, facts) ==> pending.new_pin == Some(
                    recipe,
                ),
                SourceView::Manifest(recipe) => brings_news(source, facts) ==> pending.new_pin
                    == Some(recipe),
            }
        }),
{
}

/// Who is asked about a recipe that is to be pinned goes by who vouches for it. A
/// hand that chose a recipe nothing is against is not asked; one that trusts it is
/// told what is against it; any other is asked where there is a terminal, and a
/// bare Enter agrees only to what was offered and nothing is against. Without a
/// terminal there is a refusal. A dry run only tells.
pub proof fn the_question_goes_by_who_vouches(
    bx: BoxView,
    source: SourceView,
    facts: ApprovalFacts,
    approval: Approval,
    is_at_a_terminal: bool,
)
    requires
        approve::approval_request(bx, source, facts, approval, is_at_a_terminal) is Ok,
    ensures
        ({
            let question = approve::approval_request(
                bx,
                source,
                facts,
                approval,
                is_at_a_terminal,
            )->Ok_0.question;
            if !brings_news(source, facts) {
                question is Nothing
            } else {
                match approval {
                    Approval::ChosenByHand { trust_recipe } => {
                        &&& !is_suspect(facts) ==> question is Nothing
                        &&& is_suspect(facts) && trust_recipe ==> question is Notice
                        &&& is_suspect(facts) && !trust_recipe && is_at_a_terminal ==> (question
                            matches QuestionView::Ask { default_yes, .. } && !default_yes)
                        &&& is_suspect(facts) && !trust_recipe && !is_at_a_terminal
                            ==> question is Refuse
                    },
                    Approval::Offer => {
                        &&& is_at_a_terminal ==> (question matches QuestionView::Ask {
                            default_yes,
                            ..
                        } && default_yes == !is_suspect(facts))
                        &&& !is_at_a_terminal ==> question is Refuse
                    },
                    Approval::Reported => {
                        if is_suspect(facts) && !is_at_a_terminal {
                            question is Refuse
                        } else if is_worth_a_warning(facts) {
                            question is Notice
                        } else {
                            question is Nothing
                        }
                    },
                }
            }
        }),
{
    let mounts = setup::sensitives(facts.sensitive@);
    assert(approve::shares_for_writing(mounts) <==> exists|i: int|
        0 <= i < facts.sensitive@.len() && !(#[trigger] facts.sensitive@[i]).readonly) by {
        if approve::shares_for_writing(mounts) {
            let i = choose|i: int| 0 <= i < mounts.len() && !(#[trigger] mounts[i]).readonly;
            assert(!facts.sensitive@[i].readonly);
        }
        if exists|i: int|
            0 <= i < facts.sensitive@.len() && !(#[trigger] facts.sensitive@[i]).readonly {
            let i = choose|i: int|
                0 <= i < facts.sensitive@.len() && !(#[trigger] facts.sensitive@[i]).readonly;
            assert(!mounts[i].readonly);
        }
    }
    let found = setup::authorship_of(facts.authorship);
    let from = match source {
        SourceView::File(recipe) => recipe.from,
        SourceView::Manifest(recipe) => recipe.from,
        SourceView::Pinned => Seq::empty(),
    };
    assert(setup::pin_warnings(from, found, mounts).len() > 0 <==> is_worth_a_warning(facts));
}

/// The recipe that is put to approval is the one that was parsed, with the host
/// paths of its mounts as they were followed; and it is put exactly where boxes
/// can run here, the box's sockets have room, and its disks are not too many.
pub proof fn what_is_approved_is_what_was_parsed(
    bx: BoxView,
    source: SourceView,
    facts: ApprovalFacts,
    approval: Approval,
    is_at_a_terminal: bool,
)
    ensures
        approve::approval_request(bx, source, facts, approval, is_at_a_terminal) is Ok <==> {
            &&& state::sockets_verdict(bx, facts.max_socket_path as nat) is Ok
            &&& facts.host_root is Ok
            &&& facts.parsed is Ok
            &&& facts.mounts is Ok
            &&& facts.mounts->Ok_0@.len() + facts.parsed->Ok_0@.volumes.len() <= facts.max_devices
        },
        approve::approval_request(bx, source, facts, approval, is_at_a_terminal) matches Ok(pending)
            ==> {
            let cfg = facts.parsed->Ok_0@;
            let mounts = facts.mounts->Ok_0@;
            &&& pending.cfg.mounts.len() == mounts.len()
            &&& forall|i: int|
                0 <= i < mounts.len() ==> (#[trigger] pending.cfg.mounts[i]).host == mounts[i].host@
                    && pending.cfg.mounts[i].guest == mounts[i].guest@
                    && pending.cfg.mounts[i].readonly == mounts[i].readonly
            &&& pending.cfg == ConfigView { mounts: pending.cfg.mounts, ..cfg }
        },
{
}

/// Whether a character is a letter, small or capital.
pub open spec fn is_letter(c: char, small: char, capital: char) -> bool {
    c == small || c == capital
}

/// An answer agrees where it is `y` or `yes` in any case, blanks around it aside;
/// an empty one is what a bare Enter stands for, and anything else is a no.
pub proof fn only_a_yes_agrees(answer: Seq<char>, default_yes: bool)
    ensures
        ({
            let word = unicode::trimmed(answer);
            setup::says_yes(answer, default_yes) <==> {
                ||| word.len() == 0 && default_yes
                ||| word.len() == 1 && is_letter(word[0], 'y', 'Y')
                ||| word.len() == 3 && is_letter(word[0], 'y', 'Y') && is_letter(word[1], 'e', 'E')
                    && is_letter(word[2], 's', 'S')
            }
        }),
{
    reveal_strlit("y");
    reveal_strlit("yes");
    let word = unicode::trimmed(answer);
    let upper = unicode::ascii_uppercase(word);
    let one = unicode::ascii_uppercase("y"@);
    let three = unicode::ascii_uppercase("yes"@);
    assert(one.len() == 1 && one[0] == 'Y');
    assert(three.len() == 3 && three[0] == 'Y' && three[1] == 'E' && three[2] == 'S');
    if word.len() == 1 {
        lemma_upper(word[0]);
        assert(upper == one <==> upper[0] == 'Y') by {
            if upper[0] == 'Y' {
                assert(upper =~= one);
            }
        }
    }
    if word.len() == 3 {
        lemma_upper(word[0]);
        lemma_upper(word[1]);
        lemma_upper(word[2]);
        assert(upper == three <==> upper[0] == 'Y' && upper[1] == 'E' && upper[2] == 'S') by {
            if upper[0] == 'Y' && upper[1] == 'E' && upper[2] == 'S' {
                assert(upper =~= three);
            }
        }
    }
}

proof fn lemma_upper(c: char)
    ensures
        unicode::ascii_upper(c) == 'Y' <==> c == 'y' || c == 'Y',
        unicode::ascii_upper(c) == 'E' <==> c == 'e' || c == 'E',
        unicode::ascii_upper(c) == 'S' <==> c == 's' || c == 'S',
{
}

/// A recipe that was agreed to is approved as it is: the box, the recipe to pin
/// and everything in it but its variables and the place of its env file stay.
/// Paths are pinned anew only where they differ from those that were, and that
/// takes a new recipe or leave to replace them.
pub proof fn agreed_recipes_are_approved_as_they_are(
    bx: BoxView,
    cfg: ConfigView,
    new_pin: Option<crate::resolve::RecipeView>,
    facts: PathFacts,
    refresh_pinned_paths: bool,
)
    ensures
        approve::approval(bx, cfg, new_pin, facts, refresh_pinned_paths) matches Ok(done) ==> {
            &&& done.bx == bx
            &&& done.new_pin == new_pin
            &&& done.cfg == ConfigView { env: done.cfg.env, env_file: done.cfg.env_file, ..cfg }
            &&& done.cfg.env_file is Some == cfg.env_file is Some
            &&& cfg.env_file is Some ==> facts.env_file is Ok && done.cfg.env_file == Some(
                facts.env_file->Ok_0@,
            )
            &&& cfg.env_file is None ==> done.cfg.env == cfg.env
            &&& facts.stored is Ok
            &&& done.pinned_paths matches Some(paths) ==> {
                &&& refresh_pinned_paths || new_pin is Some
                &&& paths.mounts.len() == cfg.mounts.len()
                &&& forall|i: int|
                    0 <= i < cfg.mounts.len() ==> #[trigger] paths.mounts[i] == cfg.mounts[i].host
                &&& paths.env_file == done.cfg.env_file
            }
            &&& done.pinned_paths is None ==> {
                &&& facts.stored->Ok_0 is Some
                &&& same_places(facts.stored->Ok_0->0@, cfg, done.cfg.env_file)
            }
        },
{
    if approve::approval(bx, cfg, new_pin, facts, refresh_pinned_paths) is Ok {
        let followed = env_file::with_real_env_file(cfg, facts.env_file)->Ok_0;
        assert(mount::host_paths(followed).mounts.len() == cfg.mounts.len());
    }
}

/// Whether paths that were pinned are those of a recipe's mounts, in their order,
/// and of its env file.
pub open spec fn same_places(
    stored: PinnedView,
    cfg: ConfigView,
    env_file: Option<Seq<char>>,
) -> bool {
    &&& stored.mounts.len() == cfg.mounts.len()
    &&& forall|i: int|
        0 <= i < cfg.mounts.len() ==> path::equivalent(
            #[trigger] stored.mounts[i],
            cfg.mounts[i].host,
        )
    &&& stored.env_file is Some == env_file is Some
    &&& env_file is Some ==> path::equivalent(stored.env_file->0, env_file->0)
}

/// Preparing a box pins the recipe exactly where there is a new one and the paths
/// exactly where there are new ones, and before anything is made; the root image
/// is removed, its stamp after it, only to be made again, of the size the recipe
/// gives it.
pub proof fn preparing_pins_before_it_makes(
    approved: ApprovedView,
    rebuild: Rebuild,
    has_recipe: bool,
    has_rootfs: bool,
)
    ensures
        ({
            let all = prepare::pin_steps(approved, has_recipe) + prepare::root_steps(
                approved,
                rebuild,
                has_rootfs,
            );
            let done = all.len() - 1;
            &&& all.contains(StepView::PinRecipe) <==> approved.new_pin is Some
            &&& all.contains(StepView::PinPaths) <==> approved.pinned_paths is Some
            &&& all[done] == StepView::MakeRootfs(approved.cfg.hw.rootfs_mib)
            &&& forall|i: int| 0 <= i < done ==> !(#[trigger] all[i] is MakeRootfs)
            &&& forall|i: int, j: int|
                0 <= i < all.len() && 0 <= j < all.len() && (#[trigger] all[i] is RemoveRootfs
                    || all[i] is RemoveStamp) && (#[trigger] all[j] is PinRecipe
                    || all[j] is PinPaths) ==> j < i
            &&& forall|i: int, j: int|
                0 <= i < all.len() && 0 <= j < all.len() && all[i] is RemoveRootfs
                    && all[j] is RemoveStamp ==> i < j
            &&& all.contains(StepView::RemoveRootfs) <==> rebuild == Rebuild::Yes && has_rootfs
            &&& all.contains(StepView::RemoveStamp) <==> rebuild == Rebuild::Yes && has_rootfs
            &&& prepare::is_fresh(rebuild, has_rootfs) <==> !has_rootfs || all.contains(
                StepView::RemoveRootfs,
            )
        }),
{
    let pins = prepare::pin_steps(approved, has_recipe);
    let roots = prepare::root_steps(approved, rebuild, has_rootfs);
    let all = pins + roots;
    prepare::only_a_rebuild_removes(approved, rebuild, has_recipe, has_rootfs);
    assert forall|i: int| 0 <= i < pins.len() implies !(#[trigger] all[i] is MakeRootfs)
        && !(all[i] is RemoveRootfs) && !(all[i] is RemoveStamp) by {
        assert(all[i] == pins[i]);
    }
    assert forall|i: int| pins.len() <= i < all.len() implies !(#[trigger] all[i] is PinRecipe)
        && !(all[i] is PinPaths) && (all[i] is MakeRootfs ==> i == all.len() - 1) by {
        assert(all[i] == roots[i - pins.len()]);
    }
    if approved.new_pin is Some {
        let at = if has_recipe { 1int } else { 0 };
        assert(all[at] == StepView::PinRecipe);
    }
    if approved.pinned_paths is Some {
        assert(all[pins.len() - 1] == StepView::PinPaths);
    }
    if all.contains(StepView::PinRecipe) {
        let i = choose|i: int| 0 <= i < all.len() && all[i] == StepView::PinRecipe;
        assert(all[i] is PinRecipe);
        assert(all[i] == pins[i]);
    }
    if all.contains(StepView::PinPaths) {
        let i = choose|i: int| 0 <= i < all.len() && all[i] == StepView::PinPaths;
        assert(all[i] is PinPaths);
        assert(all[i] == pins[i]);
    }
    assert(all[all.len() - 1] == roots[roots.len() - 1]);
    assert forall|i: int, j: int|
        0 <= i < all.len() && 0 <= j < all.len() && all[i] is RemoveRootfs
            && all[j] is RemoveStamp implies i < j by {
        assert(all[i] == roots[i - pins.len()]);
        assert(all[j] == roots[j - pins.len()]);
    }
}

/// A volume no recipe names is removed by a rebuild, and kept and told of
/// otherwise.
pub proof fn unused_volumes_go_with_a_rebuild(bx: BoxView, path: Seq<char>, rebuild: Rebuild)
    ensures
        rebuild == Rebuild::Yes ==> prepare::sweep_step(bx, path, rebuild) == (SweepView::Remove {
            path,
        }),
        rebuild != Rebuild::Yes ==> prepare::sweep_step(bx, path, rebuild) is Keep,
{
}

/// A box can be set up in a directory exactly where no other box there has its
/// name but for the case of its letters.
pub proof fn boxes_are_told_apart_without_case(bx: BoxView, is_dir: bool, existing: Seq<Seq<char>>)
    ensures
        prepare::state_dir_verdict(bx, is_dir, existing) is Ok <==> is_dir && forall|i: int|
            0 <= i < existing.len() && same_but_for_case(#[trigger] existing[i], bx.name)
                ==> existing[i] == bx.name,
{
    lemma_case_variant(bx.name, existing);
}

/// Whether two characters are the same letter of ASCII, small or capital, or the
/// same character.
pub open spec fn same_letter(a: char, b: char) -> bool {
    ||| a == b
    ||| 'a' <= a <= 'z' && a as u32 == b as u32 + 32
    ||| 'a' <= b <= 'z' && b as u32 == a as u32 + 32
}

/// Whether two texts have the same letters, small or capital.
pub open spec fn same_but_for_case(a: Seq<char>, b: Seq<char>) -> bool {
    a.len() == b.len() && forall|i: int| 0 <= i < a.len() ==> same_letter(#[trigger] a[i], b[i])
}

proof fn lemma_case_variant(name: Seq<char>, existing: Seq<Seq<char>>)
    ensures
        prepare::case_variant(name, existing) is None <==> forall|i: int|
            0 <= i < existing.len() && same_but_for_case(#[trigger] existing[i], name)
                ==> existing[i] == name,
    decreases existing.len(),
{
    if existing.len() > 0 {
        let rest = existing.drop_first();
        lemma_case_variant(name, rest);
        lemma_spells_like(existing[0], name);
        if prepare::case_variant(name, existing) is None {
            assert forall|i: int|
                0 <= i < existing.len() && same_but_for_case(#[trigger] existing[i], name) implies existing[i]
                == name by {
                if i > 0 {
                    assert(rest[i - 1] == existing[i]);
                }
            }
        } else if !(existing[0] != name && setup::spells_like(existing[0], name)) {
            let i = choose|i: int|
                0 <= i < rest.len() && same_but_for_case(#[trigger] rest[i], name) && rest[i] != name;
            assert(existing[i + 1] == rest[i]);
        }
    }
}

proof fn lemma_spells_like(a: Seq<char>, b: Seq<char>)
    ensures
        setup::spells_like(a, b) <==> same_but_for_case(a, b),
{
    let x = unicode::ascii_uppercase(a);
    let y = unicode::ascii_uppercase(b);
    assert(x.len() == a.len() && y.len() == b.len());
    if x == y {
        assert forall|i: int| 0 <= i < a.len() implies same_letter(#[trigger] a[i], b[i]) by {
            assert(x[i] == y[i]);
            lemma_same_letter(a[i], b[i]);
        }
    }
    if same_but_for_case(a, b) {
        assert forall|i: int| 0 <= i < a.len() implies x[i] == y[i] by {
            assert(same_letter(a[i], b[i]));
            lemma_same_letter(a[i], b[i]);
        }
        assert(x =~= y);
    }
}

proof fn lemma_same_letter(a: char, b: char)
    ensures
        same_letter(a, b) <==> unicode::ascii_upper(a) == unicode::ascii_upper(b),
{
}

/// What a recipe is suspected of is so: one of the files it depends on lies in a
/// share of one of the boxes, or what a box shares cannot be told.
pub proof fn suspicions_have_a_reason(carriers: Seq<Carrier>, boxes: Seq<Option<Vec<String>>>)
    ensures
        match setup::carriers_authorship(carriers, boxes) {
            None => true,
            Some(AuthorshipView::UnreadablePinnedRecipe) => exists|b: int|
                0 <= b < boxes.len() && #[trigger] boxes[b] is None,
            Some(AuthorshipView::WritableShare { recipe_or_manifest, share }) => exists|
                c: int,
                b: int,
                s: int,
            |
                {
                    &&& 0 <= c < carriers.len()
                    &&& 0 <= b < boxes.len()
                    &&& #[trigger] boxes[b] is Some
                    &&& 0 <= s < boxes[b]->0@.len()
                    &&& (#[trigger] carriers[c]).path@ == recipe_or_manifest
                    &&& (#[trigger] boxes[b]->0@[s])@ == share
                    &&& path::lies_under(carriers[c].followed@, share)
                },
        },
    decreases carriers.len(),
{
    if carriers.len() > 0 {
        let first = carriers[0];
        lemma_carrier(first.path@, first.followed@, boxes);
        let rest = carriers.drop_first();
        suspicions_have_a_reason(rest, boxes);
        match setup::carrier_authorship(first.path@, first.followed@, boxes) {
            Some(AuthorshipView::WritableShare { recipe_or_manifest, share }) => {
                let (b, s) = choose|b: int, s: int|
                    {
                        &&& 0 <= b < boxes.len()
                        &&& #[trigger] boxes[b] is Some
                        &&& 0 <= s < boxes[b]->0@.len()
                        &&& (#[trigger] boxes[b]->0@[s])@ == share
                        &&& path::lies_under(first.followed@, share)
                    };
                assert(carriers[0].path@ == recipe_or_manifest && boxes[b]->0@[s]@ == share);
            },
            Some(_) => {},
            None => {
                if let Some(AuthorshipView::WritableShare { recipe_or_manifest, share }) =
                    setup::carriers_authorship(rest, boxes) {
                    let (c, b, s) = choose|c: int, b: int, s: int|
                        {
                            &&& 0 <= c < rest.len()
                            &&& 0 <= b < boxes.len()
                            &&& #[trigger] boxes[b] is Some
                            &&& 0 <= s < boxes[b]->0@.len()
                            &&& (#[trigger] rest[c]).path@ == recipe_or_manifest
                            &&& (#[trigger] boxes[b]->0@[s])@ == share
                            &&& path::lies_under(rest[c].followed@, share)
                        };
                    assert(carriers[c + 1] == rest[c]);
                    assert(boxes[b]->0@[s]@ == share);
                }
            },
        }
    }
}

proof fn lemma_carrier(path: Seq<char>, followed: Seq<char>, boxes: Seq<Option<Vec<String>>>)
    ensures
        match setup::carrier_authorship(path, followed, boxes) {
            None => true,
            Some(AuthorshipView::UnreadablePinnedRecipe) => exists|b: int|
                0 <= b < boxes.len() && #[trigger] boxes[b] is None,
            Some(AuthorshipView::WritableShare { recipe_or_manifest, share }) => recipe_or_manifest
                == path && exists|b: int, s: int|
                {
                    &&& 0 <= b < boxes.len()
                    &&& #[trigger] boxes[b] is Some
                    &&& 0 <= s < boxes[b]->0@.len()
                    &&& (#[trigger] boxes[b]->0@[s])@ == share
                    &&& path::lies_under(followed, share)
                },
        },
    decreases boxes.len(),
{
    if boxes.len() > 0 {
        let rest = boxes.drop_first();
        lemma_carrier(path, followed, rest);
        match setup::shares_of(boxes[0]) {
            None => {
                assert(boxes[0] is None);
            },
            Some(shares) => {
                mount::laws::shares_are_named_where_a_file_lies(followed, shares);
                match mount::containing_share(followed, shares) {
                    Some(share) => {
                        let s = choose|s: int| 0 <= s < shares.len() && #[trigger] shares[s] == share;
                        assert(boxes[0]->0@[s]@ == share);
                    },
                    None => {
                        match setup::carrier_authorship(path, followed, rest) {
                            Some(AuthorshipView::UnreadablePinnedRecipe) => {
                                let b = choose|b: int| 0 <= b < rest.len() && #[trigger] rest[b] is None;
                                assert(boxes[b + 1] is None);
                            },
                            Some(AuthorshipView::WritableShare { share, .. }) => {
                                let (b, s) = choose|b: int, s: int|
                                    {
                                        &&& 0 <= b < rest.len()
                                        &&& #[trigger] rest[b] is Some
                                        &&& 0 <= s < rest[b]->0@.len()
                                        &&& (#[trigger] rest[b]->0@[s])@ == share
                                        &&& path::lies_under(followed, share)
                                    };
                                assert(boxes[b + 1] == rest[b]);
                                assert(boxes[b + 1]->0@[s]@ == share);
                            },
                            None => {},
                        }
                    },
                }
            },
        }
    }
}

/// The paths of a recipe are pinned along with it: a new recipe, or a setup
/// that renews them, stores the paths that are found now, unless they are the
/// stored ones; any other approval needs them to be those.
pub proof fn paths_are_pinned_along_with_a_recipe(
    bx: BoxView,
    cfg: ConfigView,
    new_pin: Option<RecipeView>,
    facts: PathFacts,
    refresh_pinned_paths: bool,
)
    ensures
        ({
            let pinning = approve::pinning_of(bx, cfg, new_pin, facts, refresh_pinned_paths);
            let followed = env_file::with_real_env_file(cfg, facts.env_file);
            let paths = mount::host_paths(followed->Ok_0);
            let is_same = {
                &&& facts.stored is Ok
                &&& facts.stored->Ok_0 is Some
                &&& mount::same_pins(facts.stored->Ok_0->0@, paths)
            };
            let renews = refresh_pinned_paths || new_pin is Some;
            &&& pinning is Ok <==> followed is Ok && facts.stored is Ok && (is_same || renews)
            &&& pinning is Ok ==> {
                &&& pinning->Ok_0.0 == followed->Ok_0
                &&& pinning->Ok_0.1 == (if is_same {
                    None
                } else {
                    Some(paths)
                })
            }
        }),
{
}

} // verus!
