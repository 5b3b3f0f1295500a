//! What making a box does to the disk, once its recipe is approved.

use crate::error::{self, Error, Refusal};
use crate::render::{self, escape_printable_path};
use crate::setup::approve::{ApprovedRecipe, ApprovedView};
use crate::setup::{self, is_spelled_like};
use crate::state::{self, BoxRef, BoxView, Holder};
use crate::text::{self, same_text, spell};
use vstd::prelude::*;

verus! {

/// Whether a box is made from scratch.
#[derive(Debug, Clone, Copy, PartialEq, Eq, Structural)]
pub enum Rebuild {
    Yes,
    No,
}

/// One step of making a box.
#[derive(Debug)]
pub enum PrepareStep {
    Say(String),
    /// Record the new recipe.
    PinRecipe,
    /// Record its host paths.
    PinPaths,
    RemoveRootfs,
    /// Remove the stamp of a baked root; one that cannot be removed is no
    /// trouble.
    RemoveStamp,
    /// Make sure that there is a root of so many MiB.
    MakeRootfs(u32),
}

#[verifier::ext_equal]
pub enum StepView {
    Say(Seq<char>),
    PinRecipe,
    PinPaths,
    RemoveRootfs,
    RemoveStamp,
    MakeRootfs(u32),
}

impl View for PrepareStep {
    type V = StepView;

    open spec fn view(&self) -> StepView {
        match self {
            PrepareStep::Say(line) => StepView::Say(line@),
            PrepareStep::PinRecipe => StepView::PinRecipe,
            PrepareStep::PinPaths => StepView::PinPaths,
            PrepareStep::RemoveRootfs => StepView::RemoveRootfs,
            PrepareStep::RemoveStamp => StepView::RemoveStamp,
            PrepareStep::MakeRootfs(mib) => StepView::MakeRootfs(*mib),
        }
    }
}

/// What a list of steps shows.
pub open spec fn steps(list: Seq<PrepareStep>) -> Seq<StepView> {
    Seq::new(list.len(), |i: int| list[i]@)
}

/// The steps that pin what was approved.
pub open spec fn pin_steps(approved: ApprovedView, has_recipe: bool) -> Seq<StepView> {
    let recipe = match approved.new_pin {
        None => Seq::empty(),
        Some(pin) => if has_recipe {
            seq![
                StepView::Say(
                    "terra: recipe updated from "@ + render::printable(pin.from)
                        + " (the box keeps its filesystem; `terra "@ + approved.bx.name
                        + " setup --rebuild` rebuilds it)"@,
                ),
                StepView::PinRecipe,
            ]
        } else {
            seq![StepView::PinRecipe]
        },
    };
    if approved.pinned_paths is Some {
        recipe.push(StepView::PinPaths)
    } else {
        recipe
    }
}

/// The steps that make the root: a rebuild takes the old one away, and the
/// stamp that says it was baked.
pub open spec fn root_steps(approved: ApprovedView, rebuild: Rebuild, has_rootfs: bool) -> Seq<
    StepView,
> {
    let removal = if rebuild == Rebuild::Yes && has_rootfs {
        seq![
            StepView::Say(
                "terra: --rebuild: rebuilding "@ + state::shown(approved.bx) + " from scratch"@,
            ),
            StepView::RemoveRootfs,
            StepView::RemoveStamp,
        ]
    } else {
        Seq::empty()
    };
    let creation = if is_fresh(rebuild, has_rootfs) {
        removal.push(
            StepView::Say(
                "terra: creating "@ + state::shown(approved.bx) + " ("@ + text::decimal(
                    approved.cfg.hw.rootfs_mib as nat,
                ) + " MiB)"@,
            ),
        )
    } else {
        removal
    };
    creation.push(StepView::MakeRootfs(approved.cfg.hw.rootfs_mib))
}

/// Whether the root of a box is new once it is made.
pub open spec fn is_fresh(rebuild: Rebuild, has_rootfs: bool) -> bool {
    !has_rootfs || rebuild == Rebuild::Yes
}

/// How a box is made.
#[derive(Debug)]
pub struct Preparation {
    pub steps: Vec<PrepareStep>,
    pub fresh_rootfs: bool,
}

/// The steps that make an approved box, in order; `has_recipe` and
/// `has_rootfs` say what its state holds already.
pub fn plan_preparation(
    approved: &ApprovedRecipe,
    rebuild: Rebuild,
    has_recipe: bool,
    has_rootfs: bool,
) -> (plan: Preparation)
    ensures
        steps(plan.steps@) == pin_steps(approved@, has_recipe) + root_steps(
            approved@,
            rebuild,
            has_rootfs,
        ),
        plan.fresh_rootfs == is_fresh(rebuild, has_rootfs),
{
    let bx = &approved.bx;
    let mut list: Vec<PrepareStep> = Vec::new();
    if let Some(pin) = &approved.new_pin {
        if has_recipe {
            let mut line: String = "terra: recipe updated from ".to_owned();
            line.append(escape_printable_path(pin.from.as_str()).as_str());
            line.append(" (the box keeps its filesystem; `terra ");
            line.append(bx.name());
            line.append(" setup --rebuild` rebuilds it)");
            list.push(PrepareStep::Say(line));
        }
        list.push(PrepareStep::PinRecipe);
    }
    if approved.pinned_paths.is_some() {
        list.push(PrepareStep::PinPaths);
    }
    proof {
        assert(steps(list@) =~= pin_steps(approved@, has_recipe));
    }
    let ghost pinned = steps(list@);
    if rebuild == Rebuild::Yes && has_rootfs {
        let mut line: String = "terra: --rebuild: rebuilding ".to_owned();
        line.append(bx.describe().as_str());
        line.append(" from scratch");
        list.push(PrepareStep::Say(line));
        list.push(PrepareStep::RemoveRootfs);
        list.push(PrepareStep::RemoveStamp);
    }
    let fresh = !has_rootfs || rebuild == Rebuild::Yes;
    if fresh {
        let mut line: String = "terra: creating ".to_owned();
        line.append(bx.describe().as_str());
        line.append(" (");
        line.append(spell(approved.cfg.hw.rootfs_mib as u64).as_str());
        line.append(" MiB)");
        list.push(PrepareStep::Say(line));
    }
    list.push(PrepareStep::MakeRootfs(approved.cfg.hw.rootfs_mib));
    proof {
        assert(steps(list@) =~= pinned + root_steps(approved@, rebuild, has_rootfs));
    }
    Preparation { steps: list, fresh_rootfs: fresh }
}

/// Making a box takes nothing away unless a rebuild was asked for, and a
/// rebuild that takes the root away takes the stamp of its bake with it.
pub proof fn only_a_rebuild_removes(
    approved: ApprovedView,
    rebuild: Rebuild,
    has_recipe: bool,
    has_rootfs: bool,
)
    ensures
        ({
            let all = pin_steps(approved, has_recipe) + root_steps(approved, rebuild, has_rootfs);
            &&& all.contains(StepView::RemoveRootfs) <==> rebuild == Rebuild::Yes && has_rootfs
            &&& all.contains(StepView::RemoveRootfs) <==> all.contains(StepView::RemoveStamp)
            &&& all.last() == StepView::MakeRootfs(approved.cfg.hw.rootfs_mib)
        }),
{
    let pins = pin_steps(approved, has_recipe);
    let roots = root_steps(approved, rebuild, has_rootfs);
    let all = pins + roots;
    if rebuild == Rebuild::Yes && has_rootfs {
        assert(all[(pins.len() + 1) as int] == StepView::RemoveRootfs);
        assert(all[(pins.len() + 2) as int] == StepView::RemoveStamp);
    } else {
        assert forall|i: int| 0 <= i < all.len() implies all[i] != StepView::RemoveRootfs && all[i]
            != StepView::RemoveStamp by {
            if i < pins.len() {
                assert(all[i] == pins[i]);
            } else {
                assert(all[i] == roots[i - pins.len()]);
            }
        }
    }
}

/// What is done about the image of a volume the recipe no longer names.
#[derive(Debug)]
pub enum SweepStep {
    Keep { notice: String },
    Remove { path: String },
}

#[verifier::ext_equal]
pub enum SweepView {
    Keep { notice: Seq<char> },
    Remove { path: Seq<char> },
}

impl View for SweepStep {
    type V = SweepView;

    open spec fn view(&self) -> SweepView {
        match self {
            SweepStep::Keep { notice } => SweepView::Keep { notice: notice@ },
            SweepStep::Remove { path } => SweepView::Remove { path: path@ },
        }
    }
}

pub open spec fn sweep_step(bx: BoxView, path: Seq<char>, rebuild: Rebuild) -> SweepView {
    if rebuild == Rebuild::Yes {
        SweepView::Remove { path }
    } else {
        SweepView::Keep {
            notice: "terra: "@ + path + " holds a volume the recipe no longer names - kept (`terra "@
                + bx.name + " storage prune` removes it, and so does `terra "@ + bx.name
                + " setup --rebuild`)"@,
        }
    }
}

/// What a list of sweeping steps shows.
pub open spec fn sweeps(list: Seq<SweepStep>) -> Seq<SweepView> {
    Seq::new(list.len(), |i: int| list[i]@)
}

/// What is done about the images of volumes the recipe no longer names: data
/// goes only where a rebuild was asked for.
pub fn sweep_or_keep_unused_volumes(bx: &BoxRef, unused: &Vec<String>, rebuild: Rebuild) -> (
    swept: Vec<SweepStep>)
    ensures
        sweeps(swept@) == Seq::new(
            unused@.len(),
            |i: int| sweep_step(bx@, text::texts(unused@)[i], rebuild),
        ),
{
    let mut swept: Vec<SweepStep> = Vec::new();
    let mut i: usize = 0;
    while i < unused.len()
        invariant
            i <= unused@.len(),
            swept@.len() == i,
            forall|k: int|
                0 <= k < i ==> (#[trigger] swept@[k])@ == sweep_step(
                    bx@,
                    text::texts(unused@)[k],
                    rebuild,
                ),
        decreases unused.len() - i,
    {
        let path = unused[i].as_str();
        if rebuild == Rebuild::Yes {
            swept.push(SweepStep::Remove { path: path.to_owned() });
        } else {
            let mut notice: String = "terra: ".to_owned();
            notice.append(path);
            notice.append(" holds a volume the recipe no longer names - kept (`terra ");
            notice.append(bx.name());
            notice.append(" storage prune` removes it, and so does `terra ");
            notice.append(bx.name());
            notice.append(" setup --rebuild`)");
            swept.push(SweepStep::Keep { notice });
        }
        i = i + 1;
    }
    proof {
        assert(sweeps(swept@) =~= Seq::new(
            unused@.len(),
            |i: int| sweep_step(bx@, text::texts(unused@)[i], rebuild),
        ));
    }
    swept
}

/// The first box of a project whose name differs from another's only by case.
pub open spec fn case_variant(name: Seq<char>, existing: Seq<Seq<char>>) -> Option<Seq<char>>
    decreases existing.len(),
{
    if existing.len() == 0 {
        None
    } else if existing[0] != name && setup::spells_like(existing[0], name) {
        Some(existing[0])
    } else {
        case_variant(name, existing.drop_first())
    }
}

fn find_case_variant(name: &str, existing: &Vec<String>) -> (found: Option<String>)
    ensures
        crate::text::text_of(found) == case_variant(name@, text::texts(existing@)),
{
    let ghost all = text::texts(existing@);
    let mut i: usize = 0;
    proof {
        assert(all.skip(0) =~= all);
    }
    while i < existing.len()
        invariant
            i <= existing@.len(),
            all == text::texts(existing@),
            case_variant(name@, all) == case_variant(name@, all.skip(i as int)),
        decreases existing.len() - i,
    {
        proof {
            assert(all.skip(i as int)[0] == existing@[i as int]@);
            assert(all.skip(i as int).drop_first() =~= all.skip(i + 1));
        }
        let other = existing[i].as_str();
        if !same_text(other, name) && is_spelled_like(other, name) {
            return Some(other.to_owned());
        }
        i = i + 1;
    }
    None
}

/// Whether a box can have its state beside the boxes a project has.
pub open spec fn state_dir_verdict(bx: BoxView, is_dir: bool, existing: Seq<Seq<char>>) -> Result<
    (),
    Refusal,
> {
    if !is_dir {
        Err(
            error::refusal(
                bx.project_dir
                    + " is not a directory, so it can have no box (--project names the directory a box belongs to - check the spelling, or create it first)"@,
            ),
        )
    } else {
        match case_variant(bx.name, existing) {
            None => Ok(()),
            Some(other) => Err(
                error::refusal(
                    bx.project_dir + " already has a box called '"@ + other
                        + "', which differs from '"@ + bx.name
                        + "' only by case - a case-insensitive filesystem (APFS, NTFS) gives the two one directory, so they would share a lock, a recipe and a root filesystem (name this one something else, or `terra "@
                        + other + "` for the box that is already there)"@,
                ),
            ),
        }
    }
}

/// Refuses a box of a project that is no directory, and one whose name another
/// box has in another case.
pub fn check_state_dir(bx: &BoxRef, is_dir: bool, existing: &Vec<String>) -> (verdict: Result<
    (),
    Error,
>)
    ensures
        error::outcome(verdict) == state_dir_verdict(bx@, is_dir, text::texts(existing@)),
{
    if !is_dir {
        let mut message: String = bx.project_dir().to_owned();
        message.append(
            " is not a directory, so it can have no box (--project names the directory a box belongs to - check the spelling, or create it first)",
        );
        return Err(Error::new(message));
    }
    match find_case_variant(bx.name(), existing) {
        None => Ok(()),
        Some(other) => {
            let mut message: String = bx.project_dir().to_owned();
            message.append(" already has a box called '");
            message.append(other.as_str());
            message.append("', which differs from '");
            message.append(bx.name());
            message.append(
                "' only by case - a case-insensitive filesystem (APFS, NTFS) gives the two one directory, so they would share a lock, a recipe and a root filesystem (name this one something else, or `terra ",
            );
            message.append(other.as_str());
            message.append("` for the box that is already there)");
            Err(Error::new(message))
        },
    }
}

/// Boxes that were each accepted beside the others never differ by case alone.
pub proof fn accepted_boxes_differ_by_more_than_case(
    bx: BoxView,
    existing: Seq<Seq<char>>,
    other: int,
)
    requires
        state_dir_verdict(bx, true, existing) is Ok,
        0 <= other < existing.len(),
    ensures
        setup::spells_like(existing[other], bx.name) ==> existing[other] == bx.name,
    decreases existing.len(),
{
    if other > 0 {
        assert(existing.drop_first()[other - 1] == existing[other]);
        accepted_boxes_differ_by_more_than_case(bx, existing.drop_first(), other - 1);
    }
}

/// What is held against setting up a box, going by who holds it.
pub open spec fn setup_holder_verdict(bx: BoxView, holder: Holder) -> Result<(), Refusal> {
    match holder {
        Holder::Free => Ok(()),
        Holder::SettingUp => Err(state::being_set_up(bx)),
        Holder::Running => Err(
            error::refusal(
                state::shown(bx) + " is running - `terra "@ + bx.name
                    + " stop` before setting it up again (its recipe is pinned for as long as the VM holds it)"@,
            ),
        ),
    }
}

/// Whether a box can be set up, going by who holds it.
pub fn check_setup_holder(bx: &BoxRef, holder: Holder) -> (verdict: Result<(), Error>)
    ensures
        error::outcome(verdict) == setup_holder_verdict(bx@, holder),
{
    match holder {
        Holder::Free => Ok(()),
        Holder::SettingUp => Err(bx.setup_holds_it()),
        Holder::Running => {
            let mut message: String = bx.describe();
            message.append(" is running - `terra ");
            message.append(bx.name());
            message.append(
                " stop` before setting it up again (its recipe is pinned for as long as the VM holds it)",
            );
            Err(Error::new(message))
        },
    }
}

} // verus!
