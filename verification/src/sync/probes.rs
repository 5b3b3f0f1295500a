//! Trying names on a destination, and taking away everything that was made for
//! it, whatever came of it.

use crate::error::{self, Error, Refusal, refuse};
use crate::host::HostOs;
use crate::ordered::TextMap;
use crate::path::{self, join, parent_of};
use crate::sync::entry::Tree;
use crate::sync::names::{
    self, HostNames, HostNamesView, ProbePlace, ProbeStep, ProbeStepView, ProbedName, PutResult,
    check_put, plan_probes,
};
use crate::sync::scan::{self, check_sync_parent, list_host_path_steps};
use crate::text::{self, same_text};
use vstd::prelude::*;

verus! {

/// What trying names asks for.
#[derive(Debug)]
pub enum ProbeAction {
    /// To tell what is at a path, without following a link.
    Inspect { path: String },
    /// To tell whether there is a directory at a path.
    FindDirectory { path: String },
    /// To open a directory and note its modification time.
    Open { path: String },
    /// To make a directory of a new name in another.
    Stage { parent: String },
    MakeDirectory { path: String },
    /// To read how two directories compare names.
    Compare { one: String, other: String },
    /// To make a file that was not there and write a name into it.
    Put { path: String, name: String },
    /// To remove a directory and all that is in it.
    Remove { path: String },
    /// To give a directory the modification time that was noted.
    Restore { path: String },
}

#[verifier::ext_equal]
pub enum ProbeActionView {
    Inspect { path: Seq<char> },
    FindDirectory { path: Seq<char> },
    Open { path: Seq<char> },
    Stage { parent: Seq<char> },
    MakeDirectory { path: Seq<char> },
    Compare { one: Seq<char>, other: Seq<char> },
    Put { path: Seq<char>, name: Seq<char> },
    Remove { path: Seq<char> },
    Restore { path: Seq<char> },
}

impl View for ProbeAction {
    type V = ProbeActionView;

    open spec fn view(&self) -> ProbeActionView {
        match self {
            ProbeAction::Inspect { path } => ProbeActionView::Inspect { path: path@ },
            ProbeAction::FindDirectory { path } => ProbeActionView::FindDirectory { path: path@ },
            ProbeAction::Open { path } => ProbeActionView::Open { path: path@ },
            ProbeAction::Stage { parent } => ProbeActionView::Stage { parent: parent@ },
            ProbeAction::MakeDirectory { path } => ProbeActionView::MakeDirectory { path: path@ },
            ProbeAction::Compare { one, other } => ProbeActionView::Compare {
                one: one@,
                other: other@,
            },
            ProbeAction::Put { path, name } => ProbeActionView::Put { path: path@, name: name@ },
            ProbeAction::Remove { path } => ProbeActionView::Remove { path: path@ },
            ProbeAction::Restore { path } => ProbeActionView::Restore { path: path@ },
        }
    }
}

/// What was read of how a directory compares names.
#[derive(Debug)]
pub enum CaseRead {
    Flags(u32),
    /// The file system has no such settings.
    Unknown,
    Unread(String),
}

/// What came of what was asked for.
#[derive(Debug)]
pub enum ProbeEvent {
    Done,
    Inspected { is_existing: bool, is_dir: bool },
    IsDirectory(bool),
    /// The path of the directory that was made.
    Staged(String),
    Compared(CaseRead, CaseRead),
    Put(PutResult),
    Failed(String),
}

/// The flag of a directory on Linux that tells no names apart by case.
pub const CASEFOLD_FLAG: u32 = 0x4000_0000;

/// How a directory compares names; `None` where the file system does not say.
pub open spec fn case_setting(read: CaseRead, os: HostOs) -> Result<Option<u32>, Refusal> {
    match read {
        CaseRead::Flags(flags) => Ok(
            Some(
                if os == HostOs::Windows {
                    flags
                } else {
                    flags & CASEFOLD_FLAG
                },
            ),
        ),
        CaseRead::Unknown => Ok(None),
        CaseRead::Unread(why) => Err(
            error::refusal(
                if os == HostOs::Windows {
                    "reading directory case-sensitivity settings"@
                } else {
                    "reading directory case-folding settings"@
                },
            ) + error::refusal(why@),
        ),
    }
}

fn read_case_setting(read: CaseRead, os: HostOs) -> (setting: Result<Option<u32>, Error>)
    ensures
        match setting {
            Ok(setting) => case_setting(read, os) == Ok::<_, Refusal>(setting),
            Err(error) => case_setting(read, os) == Err::<Option<u32>, _>(error@),
        },
{
    match read {
        CaseRead::Flags(flags) => if os == HostOs::Windows {
            Ok(Some(flags))
        } else {
            Ok(Some(flags & CASEFOLD_FLAG))
        },
        CaseRead::Unknown => Ok(None),
        CaseRead::Unread(why) => {
            let what = if os == HostOs::Windows {
                "reading directory case-sensitivity settings"
            } else {
                "reading directory case-folding settings"
            };
            Err(Error::new(why).context(what.to_owned()))
        },
    }
}

/// What is held against a probe, by how two directories compare names: only
/// where they do so alike does the one stand for the other.
pub open spec fn comparison_verdict(one: CaseRead, other: CaseRead, os: HostOs) -> Result<
    (),
    Refusal,
> {
    match (case_setting(one, os), case_setting(other, os)) {
        (Err(refused), _) => Err(refused),
        (_, Err(refused)) => Err(refused),
        (Ok(one), Ok(other)) => if one == other {
            Ok(())
        } else {
            Err(
                error::refusal(
                    "destination directory does not inherit its filename comparison settings; sync into a directory with inherited settings"@,
                ),
            )
        },
    }
}

pub fn verify_comparison_settings(one: CaseRead, other: CaseRead, os: HostOs) -> (verdict: Result<
    (),
    Error,
>)
    ensures
        error::outcome(verdict) == comparison_verdict(one, other, os),
{
    let one = match read_case_setting(one, os) {
        Ok(setting) => setting,
        Err(error) => {
            return Err(error);
        },
    };
    let other = match read_case_setting(other, os) {
        Ok(setting) => setting,
        Err(error) => {
            return Err(error);
        },
    };
    let same = match (one, other) {
        (Some(one), Some(other)) => one == other,
        (None, None) => true,
        _ => false,
    };
    if same {
        Ok(())
    } else {
        Err(
            refuse(
                "destination directory does not inherit its filename comparison settings; sync into a directory with inherited settings",
            ),
        )
    }
}

/// What came of closing a probe: that it could not be removed goes before that
/// the time of its directory could not be put back.
pub open spec fn closing_verdict(removed: Option<Seq<char>>, restored: Option<Seq<char>>) -> Result<
    (),
    Refusal,
> {
    match (removed, restored) {
        (Some(why), _) => Err(
            error::refusal("removing sync name probes"@) + error::refusal(why),
        ),
        (None, Some(why)) => Err(
            error::refusal("restoring directory timestamp after sync name probes"@)
                + error::refusal(why),
        ),
        (None, None) => Ok(()),
    }
}

/// What came of closing a probe, by what went wrong with removing it and with
/// putting back the time of the directory it was made in.
pub fn judge_closing(removed: Option<String>, restored: Option<String>) -> (verdict: Result<
    (),
    Error,
>)
    ensures
        error::outcome(verdict) == closing_verdict(text::text_of(removed), text::text_of(restored)),
{
    match removed {
        Some(why) => Err(Error::new(why).context("removing sync name probes".to_owned())),
        None => match restored {
            Some(why) => Err(
                Error::new(why).context(
                    "restoring directory timestamp after sync name probes".to_owned(),
                ),
            ),
            None => Ok(()),
        },
    }
}

/// A probe that was made: the directory it was made for, the one it lies in, and
/// where it is.
#[derive(Debug)]
struct MadeProbe {
    directory: String,
    parent: String,
    path: String,
}

#[verifier::ext_equal]
pub struct MadeProbeView {
    pub directory: Seq<char>,
    pub parent: Seq<char>,
    pub path: Seq<char>,
}

impl View for MadeProbe {
    type V = MadeProbeView;

    closed spec fn view(&self) -> MadeProbeView {
        MadeProbeView { directory: self.directory@, parent: self.parent@, path: self.path@ }
    }
}

/// What is to be told in the end: why names could not be tried, and what came of
/// taking the probes away.
#[derive(Debug)]
struct Ending {
    failed: Option<Error>,
    closed: Result<(), Error>,
}

#[verifier::ext_equal]
pub struct EndingView {
    pub failed: Option<Refusal>,
    pub closed: Result<(), Refusal>,
}

impl View for Ending {
    type V = EndingView;

    closed spec fn view(&self) -> EndingView {
        EndingView {
            failed: match self.failed {
                Some(error) => Some(error@),
                None => None,
            },
            closed: error::outcome(self.closed),
        }
    }
}

/// How far it has come.
#[derive(Debug)]
enum ProbesStage {
    /// Whether what lies above a directory of the destination is in its way.
    Checking(usize),
    /// Which directory above the destination is there.
    Searching(String),
    Opening(String),
    Staging(String),
    /// The last probe gets a directory for its names.
    Naming,
    /// Whether names are compared there as in the probe itself.
    Comparing,
    /// Whether they are as in the directory the probe lies in.
    ComparingParent,
    Putting,
    /// Every name was tried.
    Ready,
    /// The last of so many probes is removed.
    Removing(usize, Ending),
    /// The time of the directory it lay in is put back; what went wrong with
    /// removing it.
    Restoring(usize, Option<String>, Ending),
    Over(Ending),
}

#[verifier::ext_equal]
pub enum ProbesStageView {
    Checking(int),
    Searching(Seq<char>),
    Opening(Seq<char>),
    Staging(Seq<char>),
    Naming,
    Comparing,
    ComparingParent,
    Putting,
    Ready,
    Removing(int, EndingView),
    Restoring(int, Option<Seq<char>>, EndingView),
    Over(EndingView),
}

impl View for ProbesStage {
    type V = ProbesStageView;

    closed spec fn view(&self) -> ProbesStageView {
        match self {
            ProbesStage::Checking(j) => ProbesStageView::Checking(*j as int),
            ProbesStage::Searching(path) => ProbesStageView::Searching(path@),
            ProbesStage::Opening(path) => ProbesStageView::Opening(path@),
            ProbesStage::Staging(path) => ProbesStageView::Staging(path@),
            ProbesStage::Naming => ProbesStageView::Naming,
            ProbesStage::Comparing => ProbesStageView::Comparing,
            ProbesStage::ComparingParent => ProbesStageView::ComparingParent,
            ProbesStage::Putting => ProbesStageView::Putting,
            ProbesStage::Ready => ProbesStageView::Ready,
            ProbesStage::Removing(left, ending) => ProbesStageView::Removing(
                *left as int,
                ending@,
            ),
            ProbesStage::Restoring(left, trouble, ending) => ProbesStageView::Restoring(
                *left as int,
                text::text_of(*trouble),
                ending@,
            ),
            ProbesStage::Over(ending) => ProbesStageView::Over(ending@),
        }
    }
}

/// Tries the names of a destination, and takes every probe away again.
#[derive(Debug)]
pub struct Probes {
    root: String,
    os: HostOs,
    steps: Vec<ProbeStep>,
    at: usize,
    made: Vec<MadeProbe>,
    stage: ProbesStage,
}

#[verifier::ext_equal]
pub struct ProbesView {
    /// The root of the destination.
    pub root: Seq<char>,
    pub os: HostOs,
    pub steps: Seq<ProbeStepView>,
    /// The step that is under way.
    pub at: int,
    pub made: Seq<MadeProbeView>,
    pub stage: ProbesStageView,
}

impl View for Probes {
    type V = ProbesView;

    closed spec fn view(&self) -> ProbesView {
        ProbesView {
            root: self.root@,
            os: self.os,
            steps: text::views(self.steps@),
            at: self.at as int,
            made: text::views(self.made@),
            stage: self.stage@,
        }
    }
}

/// Whether each step speaks only of probes that were made before it, and there is
/// always something above what is checked.
pub open spec fn steps_in_order(steps: Seq<ProbeStepView>) -> bool {
    forall|k: int|
        0 <= k < steps.len() ==> match #[trigger] steps[k] {
            ProbeStepView::Open { place: ProbePlace::Inside(probe), .. } => probe < names::made(
                steps,
                k,
            ),
            ProbeStepView::Put { probe, .. } => probe < names::made(steps, k),
            ProbeStepView::Check { directory } => directory.len() > 0,
            _ => true,
        }
}

proof fn lemma_way_down(root: Seq<char>, directory: Seq<char>)
    requires
        directory.len() > 0,
    ensures
        scan::host_path_steps(root, directory).len() >= 2,
{
    let names = text::pieces(directory, '/');
    assert(names.len() > 0);
    assert(scan::steps_down(root, names.drop_last()).len() > 0);
}

/// The directory a step speaks of.
pub open spec fn directory_of(step: ProbeStepView) -> Seq<char> {
    match step {
        ProbeStepView::Check { directory } => directory,
        ProbeStepView::Open { directory, .. } => directory,
        ProbeStepView::Put { .. } => Seq::empty(),
    }
}

/// The paths from the root of the destination down to the directory that the
/// step under way speaks of.
pub open spec fn way_to(m: ProbesView) -> Seq<Seq<char>> {
    scan::host_path_steps(m.root, directory_of(m.steps[m.at]))
}

/// Whether it is in a state it can be in.
pub open spec fn probes_stand(m: ProbesView) -> bool {
    let opens = 0 <= m.at < m.steps.len() && m.steps[m.at] is Open;
    &&& steps_in_order(m.steps)
    &&& match m.stage {
        ProbesStageView::Checking(j) => {
            &&& 0 <= m.at < m.steps.len()
            &&& m.steps[m.at] is Check
            &&& m.made.len() == names::made(m.steps, m.at)
            &&& 0 <= j
            &&& j + 1 < way_to(m).len()
        },
        ProbesStageView::Searching(_)
        | ProbesStageView::Opening(_)
        | ProbesStageView::Staging(_) => opens && m.made.len() == names::made(m.steps, m.at),
        ProbesStageView::Naming
        | ProbesStageView::Comparing
        | ProbesStageView::ComparingParent => opens && m.made.len() == names::made(m.steps, m.at) + 1,
        ProbesStageView::Putting => 0 <= m.at < m.steps.len() && m.steps[m.at] is Put && m.made.len()
            == names::made(m.steps, m.at),
        ProbesStageView::Ready => true,
        ProbesStageView::Removing(left, _) => 0 < left <= m.made.len(),
        ProbesStageView::Restoring(left, _, _) => 0 < left <= m.made.len(),
        ProbesStageView::Over(_) => true,
    }
}

pub open spec fn names_dir(probe: MadeProbeView) -> Seq<char> {
    path::placed(probe.path, "names"@)
}

/// What is asked for; nothing while the names that were tried are looked up, and
/// nothing once it is over.
pub open spec fn probes_ask(m: ProbesView) -> Option<ProbeActionView> {
    match m.stage {
        ProbesStageView::Checking(j) => Some(
            ProbeActionView::Inspect {
                path: way_to(m)[j],
            },
        ),
        ProbesStageView::Searching(path) => Some(ProbeActionView::FindDirectory { path }),
        ProbesStageView::Opening(path) => Some(ProbeActionView::Open { path }),
        ProbesStageView::Staging(parent) => Some(ProbeActionView::Stage { parent }),
        ProbesStageView::Naming => Some(
            ProbeActionView::MakeDirectory { path: names_dir(m.made.last()) },
        ),
        ProbesStageView::Comparing => Some(
            ProbeActionView::Compare { one: m.made.last().path, other: names_dir(m.made.last()) },
        ),
        ProbesStageView::ComparingParent => Some(
            ProbeActionView::Compare { one: m.made.last().parent, other: names_dir(m.made.last()) },
        ),
        ProbesStageView::Putting => {
            let name = m.steps[m.at]->name;
            Some(
                ProbeActionView::Put {
                    path: path::placed(names_dir(m.made[m.steps[m.at]->probe as int]), name),
                    name,
                },
            )
        },
        ProbesStageView::Ready => None,
        ProbesStageView::Removing(left, _) => Some(
            ProbeActionView::Remove { path: m.made[left - 1].path },
        ),
        ProbesStageView::Restoring(left, _, _) => Some(
            ProbeActionView::Restore { path: m.made[left - 1].parent },
        ),
        ProbesStageView::Over(_) => None,
    }
}

pub open spec fn probes_at(m: ProbesView, stage: ProbesStageView) -> ProbesView {
    ProbesView { stage, ..m }
}

/// The stage at which so many probes are still to be taken away.
pub open spec fn closing(left: int, ending: EndingView) -> ProbesStageView {
    if left <= 0 {
        ProbesStageView::Over(ending)
    } else {
        ProbesStageView::Removing(left, ending)
    }
}

/// Trying has failed: every probe that was made is taken away, and what goes
/// wrong with that is not told.
pub open spec fn probes_fail(m: ProbesView, why: Refusal) -> ProbesView {
    probes_at(m, closing(m.made.len() as int, EndingView { failed: Some(why), closed: Ok(()) }))
}

/// Turns to a step, or is through with them.
pub open spec fn turned_to(m: ProbesView, at: int) -> ProbesView {
    let next = ProbesView { at, ..m };
    if at >= m.steps.len() {
        probes_at(next, ProbesStageView::Ready)
    } else {
        probes_at(
            next,
            match m.steps[at] {
                ProbeStepView::Check { .. } => ProbesStageView::Checking(0),
                ProbeStepView::Open { place: ProbePlace::Itself, .. } => ProbesStageView::Opening(
                    way_to(next).last(),
                ),
                ProbeStepView::Open { place: ProbePlace::Above, .. } => ProbesStageView::Searching(
                    way_to(next).last(),
                ),
                ProbeStepView::Open { place: ProbePlace::Inside(probe), .. } => {
                    ProbesStageView::Opening(m.made[probe as int].path)
                },
                ProbeStepView::Put { .. } => ProbesStageView::Putting,
            },
        )
    }
}

/// Where it starts.
pub open spec fn probes_of(root: Seq<char>, steps: Seq<ProbeStepView>, os: HostOs) -> ProbesView {
    turned_to(
        ProbesView { root, os, steps, at: 0, made: Seq::empty(), stage: ProbesStageView::Ready },
        0,
    )
}

/// The directory to look for above one that is not there.
pub open spec fn searched_above(m: ProbesView, path: Seq<char>) -> ProbesView {
    match path::parent(path) {
        None => probes_fail(
            m,
            error::refusal("sync destination has no existing parent directory"@),
        ),
        Some(above) => probes_at(
            m,
            ProbesStageView::Searching(
                if above.len() == 0 {
                    "."@
                } else {
                    above
                },
            ),
        ),
    }
}

/// What trying names becomes once it is told what came of what it asked for.
/// What it did not ask for changes nothing.
pub open spec fn probes_after(m: ProbesView, event: ProbeEvent) -> ProbesView {
    match (m.stage, event) {
        (ProbesStageView::Checking(j), ProbeEvent::Inspected { is_existing, is_dir }) => {
            let path = way_to(m)[j];
            if is_existing && !is_dir {
                probes_fail(m, error::refusal("sync parent must be a directory: "@ + path))
            } else if j + 2 < way_to(m).len() {
                probes_at(m, ProbesStageView::Checking(j + 1))
            } else {
                turned_to(m, m.at + 1)
            }
        },
        (ProbesStageView::Checking(j), ProbeEvent::Failed(why)) => {
            let path = way_to(m)[j];
            probes_fail(m, error::refusal("inspecting "@ + path) + error::refusal(why@))
        },
        (ProbesStageView::Searching(path), ProbeEvent::IsDirectory(yes)) => if yes {
            probes_at(m, ProbesStageView::Opening(path))
        } else {
            searched_above(m, path)
        },
        (ProbesStageView::Opening(path), ProbeEvent::Done) => probes_at(
            m,
            ProbesStageView::Staging(path),
        ),
        (ProbesStageView::Opening(_), ProbeEvent::Failed(why)) => probes_fail(
            m,
            error::refusal(why@),
        ),
        (ProbesStageView::Staging(parent), ProbeEvent::Staged(path)) => ProbesView {
            made: m.made.push(
                MadeProbeView { directory: directory_of(m.steps[m.at]), parent, path: path@ },
            ),
            stage: ProbesStageView::Naming,
            ..m
        },
        (ProbesStageView::Staging(parent), ProbeEvent::Failed(why)) => probes_fail(
            m,
            error::refusal(
                "creating sync name probes in "@ + parent
                    + "; the directory must be writable, including for dry runs"@,
            ) + error::refusal(why@),
        ),
        (ProbesStageView::Naming, ProbeEvent::Done) => if m.os == HostOs::MacOs {
            turned_to(m, m.at + 1)
        } else {
            probes_at(m, ProbesStageView::Comparing)
        },
        (ProbesStageView::Comparing, ProbeEvent::Compared(one, other)) => match comparison_verdict(
            one,
            other,
            m.os,
        ) {
            Err(refused) => probes_fail(m, refused),
            Ok(_) => if m.steps[m.at]->place is Itself {
                probes_at(m, ProbesStageView::ComparingParent)
            } else {
                turned_to(m, m.at + 1)
            },
        },
        (ProbesStageView::ComparingParent, ProbeEvent::Compared(one, other)) => {
            match comparison_verdict(one, other, m.os) {
                Err(refused) => probes_fail(m, refused),
                Ok(_) => turned_to(m, m.at + 1),
            }
        },
        (ProbesStageView::Naming, ProbeEvent::Failed(why))
        | (ProbesStageView::Comparing, ProbeEvent::Failed(why))
        | (ProbesStageView::ComparingParent, ProbeEvent::Failed(why)) => probes_fail(
            m,
            error::refusal(why@),
        ),
        (ProbesStageView::Putting, ProbeEvent::Put(came)) => {
            let directory = m.made[m.steps[m.at]->probe as int].directory;
            match names::put_verdict(directory, m.steps[m.at]->name, came) {
                Err(refused) => probes_fail(m, refused),
                Ok(_) => turned_to(m, m.at + 1),
            }
        },
        (ProbesStageView::Removing(left, ending), ProbeEvent::Done) => probes_at(
            m,
            ProbesStageView::Restoring(left, None, ending),
        ),
        (ProbesStageView::Removing(left, ending), ProbeEvent::Failed(why)) => probes_at(
            m,
            ProbesStageView::Restoring(left, Some(why@), ending),
        ),
        (ProbesStageView::Restoring(left, removed, ending), ProbeEvent::Done) => probes_at(
            m,
            closing(left - 1, ended(ending, closing_verdict(removed, None))),
        ),
        (ProbesStageView::Restoring(left, removed, ending), ProbeEvent::Failed(why)) => probes_at(
            m,
            closing(left - 1, ended(ending, closing_verdict(removed, Some(why@)))),
        ),
        _ => m,
    }
}

/// The last probe that could not be closed is the one that is told of.
pub open spec fn ended(ending: EndingView, closed: Result<(), Refusal>) -> EndingView {
    EndingView {
        closed: if closed is Err {
            closed
        } else {
            ending.closed
        },
        ..ending
    }
}

/// Taking the probes away, once the names that were tried were looked up.
pub open spec fn probes_closing(m: ProbesView) -> ProbesView {
    if m.stage is Ready {
        probes_at(
            m,
            closing(m.made.len() as int, EndingView { failed: None, closed: Ok(()) }),
        )
    } else {
        m
    }
}

/// The number of the probe a directory has, the count of all where it has none.
pub open spec fn probe_for(made: Seq<MadeProbeView>, directory: Seq<char>, from: int) -> int
    decreases made.len() - from,
{
    if from < 0 || from >= made.len() {
        made.len() as int
    } else if made[from].directory == directory {
        from
    } else {
        probe_for(made, directory, from + 1)
    }
}

/// Where a name is looked up that stands in a directory; nowhere, where no name
/// of that directory was tried.
pub open spec fn looked_up_at(
    made: Seq<MadeProbeView>,
    directory: Seq<char>,
    name: Seq<char>,
) -> Option<Seq<char>> {
    let probe = probe_for(made, directory, 0);
    if probe < made.len() {
        Some(path::placed(names_dir(made[probe]), name))
    } else {
        None
    }
}

/// What came of it all: the names, or why they could not be tried.
pub open spec fn names_tried(m: ProbesView, answers: names::Answers) -> Option<
    Result<HostNamesView, Refusal>,
> {
    match m.stage {
        ProbesStageView::Over(ending) => Some(
            match ending.failed {
                Some(refused) => Err(refused),
                None => Ok(HostNamesView { answers, closed: ending.closed }),
            },
        ),
        _ => None,
    }
}

impl Probes {
    #[verifier::type_invariant]
    closed spec fn stands(&self) -> bool {
        probes_stand(self@)
    }

    /// Begins to try the names of a destination, by directory; `root_is_dir`
    /// says whether there is a directory at its root.
    pub fn start(
        root: &str,
        names: &TextMap<TextMap<bool>>,
        destination: &Tree,
        root_is_dir: bool,
        os: HostOs,
    ) -> (begun: Probes)
        ensures
            begun@ == probes_of(
                root@,
                names::probing(
                    names@,
                    destination@,
                    root_is_dir,
                    names@.len() as int,
                ).steps,
                os,
            ),
    {
        let steps = plan_probes(names, destination, root_is_dir);
        let made: Vec<MadeProbe> = Vec::new();
        proof {
            assert(text::views(made@) =~= Seq::empty());
        }
        Probes::turn_to(root.to_owned(), os, steps, 0, made)
    }

    /// Turns to the step of a number.
    fn turn_to(root: String, os: HostOs, steps: Vec<ProbeStep>, at: usize, made: Vec<MadeProbe>) -> (
        probes: Probes)
        requires
            steps_in_order(text::views(steps@)),
            at <= steps@.len(),
            made@.len() == names::made(text::views(steps@), at as int),
        ensures
            probes@ == turned_to(
                ProbesView {
                    root: root@,
                    os,
                    steps: text::views(steps@),
                    at: at as int,
                    made: text::views(made@),
                    stage: ProbesStageView::Ready,
                },
                at as int,
            ),
    {
        proof {
            assert(text::views(steps@).len() == steps@.len());
        }
        if at >= steps.len() {
            return Probes { root, os, steps, at, made, stage: ProbesStage::Ready };
        }
        proof {
            assert(text::views(steps@)[at as int] == steps@[at as int]@);
        }
        let stage = match &steps[at] {
            ProbeStep::Check { directory } => {
                proof {
                    lemma_way_down(root@, directory@);
                }
                ProbesStage::Checking(0)
            },
            ProbeStep::Open { directory, place } => {
                let mut way = list_host_path_steps(root.as_str(), directory.as_str());
                proof {
                    assert(text::texts(way@).last() == way@.last()@);
                }
                let last = match way.pop() {
                    Some(path) => path,
                    None => String::new(),
                };
                match place {
                    ProbePlace::Itself => ProbesStage::Opening(last),
                    ProbePlace::Above => ProbesStage::Searching(last),
                    ProbePlace::Inside(probe) => {
                        proof {
                            assert(text::views(made@)[*probe as int] == made@[*probe as int]@);
                        }
                        ProbesStage::Opening(made[*probe].path.as_str().to_owned())
                    },
                }
            },
            ProbeStep::Put { .. } => ProbesStage::Putting,
        };
        Probes { root, os, steps, at, made, stage }
    }

    fn names_of(probe: &MadeProbe) -> (path: String)
        ensures
            path@ == names_dir(probe@),
    {
        join(probe.path.as_str(), "names")
    }

    /// The paths down to the directory that is checked.
    fn way(&self) -> (list: Vec<String>)
        requires
            self@.at < self@.steps.len(),
        ensures
            text::texts(list@) == way_to(self@),
    {
        proof {
            assert(self@.steps[self@.at] == self.steps@[self.at as int]@);
            assert(self@.steps.len() == self.steps@.len());
        }
        let directory = match &self.steps[self.at] {
            ProbeStep::Check { directory } => directory.as_str(),
            ProbeStep::Open { directory, .. } => directory.as_str(),
            ProbeStep::Put { .. } => "",
        };
        proof {
            reveal_strlit("");
            assert(directory@ =~= directory_of(self@.steps[self@.at]));
        }
        list_host_path_steps(self.root.as_str(), directory)
    }

    /// The path that is checked.
    fn checking(&self, j: usize) -> (path: String)
        requires
            self@.at < self@.steps.len(),
            j < way_to(self@).len(),
        ensures
            path@ == way_to(self@)[j as int],
    {
        let list = self.way();
        proof {
            assert(text::texts(list@).len() == list@.len());
            assert(text::texts(list@)[j as int] == list@[j as int]@);
        }
        list[j].as_str().to_owned()
    }

    /// What is to be done next.
    pub fn next(&self) -> (action: Option<ProbeAction>)
        ensures
            match probes_ask(self@) {
                Some(asked) => action is Some && action->0@ == asked,
                None => action is None,
            },
    {
        proof {
            use_type_invariant(self);
            assert(self@.steps.len() == self.steps@.len());
            assert(self@.made.len() == self.made@.len());
            assert(self.at < self.steps@.len() ==> self@.steps[self@.at]
                == self.steps@[self.at as int]@);
            assert(self.made@.len() > 0 ==> self@.made.last() == self.made@.last()@);
        }
        match &self.stage {
            ProbesStage::Checking(j) => Some(ProbeAction::Inspect { path: self.checking(*j) }),
            ProbesStage::Searching(path) => Some(
                ProbeAction::FindDirectory { path: path.as_str().to_owned() },
            ),
            ProbesStage::Opening(path) => Some(ProbeAction::Open { path: path.as_str().to_owned() }),
            ProbesStage::Staging(parent) => Some(
                ProbeAction::Stage { parent: parent.as_str().to_owned() },
            ),
            ProbesStage::Naming => {
                let last = &self.made[self.made.len() - 1];
                Some(ProbeAction::MakeDirectory { path: Probes::names_of(last) })
            },
            ProbesStage::Comparing => {
                let last = &self.made[self.made.len() - 1];
                Some(
                    ProbeAction::Compare {
                        one: last.path.as_str().to_owned(),
                        other: Probes::names_of(last),
                    },
                )
            },
            ProbesStage::ComparingParent => {
                let last = &self.made[self.made.len() - 1];
                Some(
                    ProbeAction::Compare {
                        one: last.parent.as_str().to_owned(),
                        other: Probes::names_of(last),
                    },
                )
            },
            ProbesStage::Putting => match &self.steps[self.at] {
                ProbeStep::Put { probe, name } => {
                    proof {
                        assert(self@.made[*probe as int] == self.made@[*probe as int]@);
                    }
                    let names = Probes::names_of(&self.made[*probe]);
                    Some(
                        ProbeAction::Put {
                            path: join(names.as_str(), name.as_str()),
                            name: name.as_str().to_owned(),
                        },
                    )
                },
                _ => None,
            },
            ProbesStage::Removing(left, _) => Some(
                ProbeAction::Remove { path: self.made[*left - 1].path.as_str().to_owned() },
            ),
            ProbesStage::Restoring(left, _, _) => Some(
                ProbeAction::Restore { path: self.made[*left - 1].parent.as_str().to_owned() },
            ),
            ProbesStage::Ready | ProbesStage::Over(_) => None,
        }
    }

    fn close_from(left: usize, ending: Ending) -> (stage: ProbesStage)
        ensures
            stage@ == closing(left as int, ending@),
    {
        if left == 0 {
            ProbesStage::Over(ending)
        } else {
            ProbesStage::Removing(left, ending)
        }
    }

    fn fail(self, error: Error) -> (next: Probes)
        requires
            steps_in_order(self@.steps),
        ensures
            next@ == probes_fail(self@, error@),
    {
        proof {
            assert(self@.made.len() == self.made@.len());
        }
        let ending = Ending { failed: Some(error), closed: Ok(()) };
        let stage = Probes::close_from(self.made.len(), ending);
        Probes {
            root: self.root,
            os: self.os,
            steps: self.steps,
            at: self.at,
            made: self.made,
            stage,
        }
    }

    /// Turns to the step after the one that is under way.
    fn step(self) -> (next: Probes)
        requires
            steps_in_order(self@.steps),
            self@.at < self@.steps.len(),
            self@.made.len() == names::made(self@.steps, self@.at + 1),
        ensures
            next@ == turned_to(self@, self@.at + 1),
    {
        proof {
            assert(self@.made.len() == self.made@.len());
            assert(self@.steps.len() == self.steps.len());
        }
        Probes::turn_to(self.root, self.os, self.steps, self.at + 1, self.made)
    }

    fn at_stage(self, stage: ProbesStage) -> (next: Probes)
        requires
            probes_stand(probes_at(self@, stage@)),
        ensures
            next@ == probes_at(self@, stage@),
    {
        Probes {
            root: self.root,
            os: self.os,
            steps: self.steps,
            at: self.at,
            made: self.made,
            stage,
        }
    }

    /// Trying names once it is told what came of what it asked for.
    pub fn advance(self, event: ProbeEvent) -> (next: Probes)
        ensures
            next@ == probes_after(self@, event),
    {
        proof {
            use_type_invariant(&self);
            assert(self@.steps.len() == self.steps.len());
            assert(self@.made.len() == self.made.len());
            assert(self.at < self.steps@.len() ==> self@.steps[self@.at]
                == self.steps@[self.at as int]@);
        }
        match &self.stage {
            ProbesStage::Removing(_, _) | ProbesStage::Restoring(_, _, _) => self.close_one(event),
            ProbesStage::Checking(_) | ProbesStage::Searching(_) => self.look(event),
            ProbesStage::Opening(_) | ProbesStage::Staging(_) => self.make(event),
            ProbesStage::Naming | ProbesStage::Comparing | ProbesStage::ComparingParent => {
                self.fit_out(event)
            },
            ProbesStage::Putting => self.put(event),
            ProbesStage::Ready | ProbesStage::Over(_) => self,
        }
    }

    /// Takes in what is above the directory a probe is made for.
    fn look(self, event: ProbeEvent) -> (next: Probes)
        requires
            self@.stage is Checking || self@.stage is Searching,
        ensures
            next@ == probes_after(self@, event),
    {
        proof {
            use_type_invariant(&self);
            assert(self@.steps.len() == self.steps.len());
            assert(self@.made.len() == self.made.len());
            assert(self@.steps[self@.at] == self.steps@[self.at as int]@);
        }
        match (&self.stage, event) {
            (ProbesStage::Checking(j), ProbeEvent::Inspected { is_existing, is_dir }) => {
                let j: usize = *j;
                let path = self.checking(j);
                if let Err(error) = check_sync_parent(path.as_str(), is_existing, is_dir) {
                    return self.fail(error);
                }
                let way = self.way();
                proof {
                    assert(text::texts(way@).len() == way.len());
                }
                if way.len() - j > 2 {
                    self.at_stage(ProbesStage::Checking(j + 1))
                } else {
                    self.step()
                }
            },
            (ProbesStage::Checking(j), ProbeEvent::Failed(why)) => {
                let mut what: String = "inspecting ".to_owned();
                what.append(self.checking(*j).as_str());
                self.fail(Error::new(why).context(what))
            },
            (ProbesStage::Searching(path), ProbeEvent::IsDirectory(yes)) => {
                if yes {
                    let found = path.as_str().to_owned();
                    return self.at_stage(ProbesStage::Opening(found));
                }
                match parent_of(path.as_str()) {
                    None => self.fail(refuse("sync destination has no existing parent directory")),
                    Some(above) => if above.as_str().unicode_len() == 0 {
                        self.at_stage(ProbesStage::Searching(".".to_owned()))
                    } else {
                        self.at_stage(ProbesStage::Searching(above))
                    },
                }
            },
            _ => self,
        }
    }

    /// Takes in what came of making a probe.
    fn make(self, event: ProbeEvent) -> (next: Probes)
        requires
            self@.stage is Opening || self@.stage is Staging,
        ensures
            next@ == probes_after(self@, event),
    {
        proof {
            use_type_invariant(&self);
            assert(self@.steps.len() == self.steps.len());
            assert(self@.made.len() == self.made.len());
            assert(self@.steps[self@.at] == self.steps@[self.at as int]@);
        }
        match (&self.stage, event) {
            (ProbesStage::Opening(path), ProbeEvent::Done) => {
                let parent = path.as_str().to_owned();
                self.at_stage(ProbesStage::Staging(parent))
            },
            (ProbesStage::Opening(_), ProbeEvent::Failed(why)) => self.fail(Error::new(why)),
            (ProbesStage::Staging(parent), ProbeEvent::Staged(path)) => {
                let directory = match &self.steps[self.at] {
                    ProbeStep::Open { directory, .. } => directory.as_str().to_owned(),
                    _ => String::new(),
                };
                let probe = MadeProbe { directory, parent: parent.as_str().to_owned(), path };
                let mut made = self.made;
                let ghost before = made@;
                made.push(probe);
                proof {
                    assert(text::views(made@) =~= text::views(before).push(probe@));
                }
                Probes {
                    root: self.root,
                    os: self.os,
                    steps: self.steps,
                    at: self.at,
                    made,
                    stage: ProbesStage::Naming,
                }
            },
            (ProbesStage::Staging(parent), ProbeEvent::Failed(why)) => {
                let mut what: String = "creating sync name probes in ".to_owned();
                what.append(parent.as_str());
                what.append("; the directory must be writable, including for dry runs");
                self.fail(Error::new(why).context(what))
            },
            _ => self,
        }
    }

    /// Takes in what came of giving a probe its directory and comparing it.
    fn fit_out(self, event: ProbeEvent) -> (next: Probes)
        requires
            self@.stage is Naming || self@.stage is Comparing || self@.stage is ComparingParent,
        ensures
            next@ == probes_after(self@, event),
    {
        proof {
            use_type_invariant(&self);
            assert(self@.steps.len() == self.steps.len());
            assert(self@.made.len() == self.made.len());
            assert(self@.steps[self@.at] == self.steps@[self.at as int]@);
        }
        match (&self.stage, event) {
            (ProbesStage::Naming, ProbeEvent::Done) => if self.os == HostOs::MacOs {
                self.step()
            } else {
                self.at_stage(ProbesStage::Comparing)
            },
            (ProbesStage::Comparing, ProbeEvent::Compared(one, other)) => {
                if let Err(error) = verify_comparison_settings(one, other, self.os) {
                    return self.fail(error);
                }
                let is_itself = match &self.steps[self.at] {
                    ProbeStep::Open { place: ProbePlace::Itself, .. } => true,
                    _ => false,
                };
                if is_itself {
                    self.at_stage(ProbesStage::ComparingParent)
                } else {
                    self.step()
                }
            },
            (ProbesStage::ComparingParent, ProbeEvent::Compared(one, other)) => {
                match verify_comparison_settings(one, other, self.os) {
                    Ok(_) => self.step(),
                    Err(error) => self.fail(error),
                }
            },
            (_, ProbeEvent::Failed(why)) => self.fail(Error::new(why)),
            _ => self,
        }
    }

    /// Takes in what came of trying a name.
    fn put(self, event: ProbeEvent) -> (next: Probes)
        requires
            self@.stage is Putting,
        ensures
            next@ == probes_after(self@, event),
    {
        proof {
            use_type_invariant(&self);
            assert(self@.steps.len() == self.steps.len());
            assert(self@.made.len() == self.made.len());
            assert(self@.steps[self@.at] == self.steps@[self.at as int]@);
        }
        match (&self.steps[self.at], event) {
            (ProbeStep::Put { probe, name }, ProbeEvent::Put(came)) => {
                proof {
                    assert(self@.made[*probe as int] == self.made@[*probe as int]@);
                }
                let verdict = check_put(
                    self.made[*probe].directory.as_str(),
                    name.as_str(),
                    came,
                );
                match verdict {
                    Ok(_) => self.step(),
                    Err(error) => self.fail(error),
                }
            },
            _ => self,
        }
    }

    /// Takes in what came of taking a probe away.
    fn close_one(self, event: ProbeEvent) -> (next: Probes)
        requires
            self@.stage is Removing || self@.stage is Restoring,
        ensures
            next@ == probes_after(self@, event),
    {
        proof {
            use_type_invariant(&self);
            assert(self@.made.len() == self.made.len());
        }
        let trouble = match event {
            ProbeEvent::Done => None,
            ProbeEvent::Failed(why) => Some(why),
            _ => {
                return self;
            },
        };
        let stage = match self.stage {
            ProbesStage::Removing(left, ending) => ProbesStage::Restoring(left, trouble, ending),
            ProbesStage::Restoring(left, removed, ending) => {
                let closed = match judge_closing(removed, trouble) {
                    Ok(_) => ending.closed,
                    Err(error) => Err(error),
                };
                Probes::close_from(left - 1, Ending { failed: ending.failed, closed })
            },
            other => other,
        };
        Probes {
            root: self.root,
            os: self.os,
            steps: self.steps,
            at: self.at,
            made: self.made,
            stage,
        }
    }

    /// Whether every name was tried, so that names can be looked up.
    pub fn is_ready(&self) -> (yes: bool)
        ensures
            yes == (self@.stage is Ready),
    {
        matches!(self.stage, ProbesStage::Ready)
    }

    /// Where a name is looked up that stands in a directory; `None` where no
    /// name of that directory was tried, so that it is what it is.
    pub fn lookup_path(&self, directory: &str, name: &str) -> (path: Option<String>)
        ensures
            text::text_of(path) == looked_up_at(self@.made, directory@, name@),
    {
        let mut i: usize = 0;
        while i < self.made.len()
            invariant
                i <= self.made@.len(),
                probe_for(self@.made, directory@, 0) == probe_for(
                    self@.made,
                    directory@,
                    i as int,
                ),
            decreases self.made.len() - i,
        {
            proof {
                assert(self@.made[i as int] == self.made@[i as int]@);
            }
            if same_text(self.made[i].directory.as_str(), directory) {
                return Some(join(Probes::names_of(&self.made[i]).as_str(), name));
            }
            i = i + 1;
        }
        None
    }

    /// Begins to take the probes away.
    pub fn close(self) -> (next: Probes)
        ensures
            next@ == probes_closing(self@),
    {
        proof {
            use_type_invariant(&self);
            assert(self@.made.len() == self.made.len());
        }
        if !self.is_ready() {
            return self;
        }
        let stage = Probes::close_from(self.made.len(), Ending { failed: None, closed: Ok(()) });
        Probes {
            root: self.root,
            os: self.os,
            steps: self.steps,
            at: self.at,
            made: self.made,
            stage,
        }
    }

    /// The names, by what was found where they were looked up; `None` while
    /// there is something to be done.
    pub fn into_names(self, answers: TextMap<TextMap<ProbedName>>) -> (names: Option<
        Result<HostNames, Error>,
    >)
        ensures
            match names_tried(self@, answers@) {
                None => names is None,
                Some(expected) => names is Some && names::tried(names->0) == expected,
            },
    {
        match self.stage {
            ProbesStage::Over(ending) => match ending.failed {
                Some(error) => Some(Err(error)),
                None => Some(Ok(HostNames { answers, closed: ending.closed })),
            },
            _ => None,
        }
    }
}

/// What was made on a disk and is still to be undone: the probes that are there,
/// and the directories whose time is still to be put back, the oldest first.
#[verifier::ext_equal]
pub struct Undone {
    pub probes: Seq<Seq<char>>,
    pub times: Seq<Seq<char>>,
}

/// What goes on with probes: they are told what came of what they asked for, or
/// the names were looked up.
pub enum ProbeMove {
    Told(ProbeEvent),
    LookedUp,
}

pub open spec fn moved(m: ProbesView, step: ProbeMove) -> ProbesView {
    match step {
        ProbeMove::Told(event) => probes_after(m, event),
        ProbeMove::LookedUp => probes_closing(m),
    }
}

/// What is still to be undone after a move. Only the newest probe is ever
/// removed, and only the newest time put back; each is asked for once, whatever
/// comes of it.
pub open spec fn undoes(m: ProbesView, before: Undone, step: ProbeMove, after: Undone) -> bool {
    match (probes_ask(m), step) {
        (Some(ProbeActionView::Stage { parent }), ProbeMove::Told(ProbeEvent::Staged(path))) => after
            == (Undone { probes: before.probes.push(path@), times: before.times.push(parent) }),
        (Some(ProbeActionView::Remove { path }), ProbeMove::Told(event)) => if answers(event) {
            &&& before.probes.len() > 0
            &&& path == before.probes.last()
            &&& after == (Undone { probes: before.probes.drop_last(), ..before })
        } else {
            after == before
        },
        (Some(ProbeActionView::Restore { path }), ProbeMove::Told(event)) => if answers(event) {
            &&& before.times.len() > 0
            &&& path == before.times.last()
            &&& after == (Undone { times: before.times.drop_last(), ..before })
        } else {
            after == before
        },
        _ => after == before,
    }
}

/// Whether an event says what came of an action that is done or not.
pub open spec fn answers(event: ProbeEvent) -> bool {
    event is Done || event is Failed
}

/// What is still to be undone, by how far it has come.
pub open spec fn still_undone(m: ProbesView) -> Undone {
    let probes = |n: int| Seq::new(n as nat, |i: int| m.made[i].path);
    let times = |n: int| Seq::new(n as nat, |i: int| m.made[i].parent);
    match m.stage {
        ProbesStageView::Removing(left, _) => Undone { probes: probes(left), times: times(left) },
        ProbesStageView::Restoring(left, _, _) => Undone {
            probes: probes(left - 1),
            times: times(left),
        },
        ProbesStageView::Over(_) => Undone { probes: Seq::empty(), times: Seq::empty() },
        _ => Undone { probes: probes(m.made.len() as int), times: times(m.made.len() as int) },
    }
}

proof fn lemma_turned_to(m: ProbesView, at: int)
    requires
        steps_in_order(m.steps),
        0 <= at <= m.steps.len(),
        m.made.len() == names::made(m.steps, at),
    ensures
        probes_stand(turned_to(m, at)),
{
    if at < m.steps.len() && m.steps[at] is Check {
        lemma_way_down(m.root, directory_of(m.steps[at]));
    }
}

proof fn lemma_still_undone(m: ProbesView, step: ProbeMove)
    requires
        probes_stand(m),
    ensures
        probes_stand(moved(m, step)),
        undoes(m, still_undone(m), step, still_undone(moved(m, step))),
{
    let next = moved(m, step);
    if !(next.stage is Removing) && next.at == m.at + 1 {
        lemma_turned_to(m, m.at + 1);
    }
    let before = still_undone(m);
    let after = still_undone(next);
    match m.stage {
        ProbesStageView::Removing(left, _) => {
            if next.stage is Restoring {
                assert(after.probes =~= before.probes.drop_last());
            }
        },
        ProbesStageView::Restoring(left, _, _) => {
            if !(next.stage is Restoring) {
                assert(after.times =~= before.times.drop_last());
                assert(after.probes =~= before.probes);
            }
        },
        ProbesStageView::Staging(parent) => {
            if let ProbeMove::Told(ProbeEvent::Staged(path)) = step {
                assert(after.probes =~= before.probes.push(path@));
                assert(after.times =~= before.times.push(parent));
            } else {
                assert(after =~= before);
            }
        },
        _ => {
            assert(after =~= before);
        },
    }
}

/// Names tried from the start on.
pub open spec fn probes_run(
    root: Seq<char>,
    steps: Seq<ProbeStepView>,
    os: HostOs,
    stages: Seq<ProbesView>,
    moves: Seq<ProbeMove>,
) -> bool {
    &&& stages.len() == moves.len() + 1
    &&& stages[0] == probes_of(root, steps, os)
    &&& forall|k: int|
        0 <= k < moves.len() ==> stages[k + 1] == moved(stages[k], #[trigger] moves[k])
}

/// Trying names leaves nothing to be undone, whatever comes of any of it: what
/// is made is made one by one, only the newest is ever removed, and once it is
/// over every probe was to be removed, and the time of every directory that held
/// one put back.
pub proof fn probes_are_all_taken_away(
    root: Seq<char>,
    steps: Seq<ProbeStepView>,
    os: HostOs,
    stages: Seq<ProbesView>,
    moves: Seq<ProbeMove>,
    k: int,
)
    requires
        steps_in_order(steps),
        probes_run(root, steps, os, stages, moves),
        0 <= k <= moves.len(),
    ensures
        probes_stand(stages[k]),
        k == 0 ==> still_undone(stages[k]) == (Undone {
            probes: Seq::empty(),
            times: Seq::empty(),
        }),
        k > 0 ==> undoes(
            stages[k - 1],
            still_undone(stages[k - 1]),
            moves[k - 1],
            still_undone(stages[k]),
        ),
        stages[k].stage is Over ==> still_undone(stages[k]) == (Undone {
            probes: Seq::empty(),
            times: Seq::empty(),
        }),
    decreases k,
{
    if k == 0 {
        lemma_turned_to(ProbesView { at: 0, made: Seq::empty(), ..stages[0] }, 0);
        assert(still_undone(stages[0]) =~= Undone { probes: Seq::empty(), times: Seq::empty() });
    } else {
        probes_are_all_taken_away(root, steps, os, stages, moves, k - 1);
        let step = moves[k - 1];
        lemma_still_undone(stages[k - 1], step);
    }
}

/// What went wrong, by an answer.
pub open spec fn trouble(event: ProbeEvent) -> Option<Seq<char>> {
    match event {
        ProbeEvent::Failed(why) => Some(why@),
        _ => None,
    }
}

/// Probes being taken away, told for each what came of removing it and of
/// putting back the time of its directory.
pub open spec fn closed_with(m: ProbesView, told: Seq<(ProbeEvent, ProbeEvent)>) -> ProbesView
    decreases told.len(),
{
    if told.len() == 0 {
        m
    } else {
        let before = closed_with(m, told.drop_last());
        probes_after(probes_after(before, told.last().0), told.last().1)
    }
}

/// The trouble that is told of: that with the last probe that had any.
pub open spec fn last_trouble(told: Seq<(ProbeEvent, ProbeEvent)>) -> Result<(), Refusal>
    decreases told.len(),
{
    if told.len() == 0 {
        Ok(())
    } else {
        let last = closing_verdict(trouble(told.last().0), trouble(told.last().1));
        if last is Err {
            last
        } else {
            last_trouble(told.drop_last())
        }
    }
}

/// Probes are taken away one by one, the newest first: each is removed, and then
/// the time of its directory put back even if that failed. No trouble stops it,
/// and the last is told of.
pub proof fn probes_are_closed_newest_first(
    m: ProbesView,
    ending: EndingView,
    told: Seq<(ProbeEvent, ProbeEvent)>,
)
    requires
        m.stage == closing(m.made.len() as int, ending),
        ending.closed is Ok,
        told.len() <= m.made.len(),
        forall|k: int|
            0 <= k < told.len() ==> answers((#[trigger] told[k]).0) && answers(told[k].1),
    ensures
        ({
            let next = closed_with(m, told);
            let left = m.made.len() - told.len();
            &&& next.made == m.made
            &&& next.stage == closing(
                left,
                EndingView { closed: last_trouble(told), ..ending },
            )
            &&& left > 0 ==> probes_ask(next) == Some(
                ProbeActionView::Remove { path: m.made[left - 1].path },
            )
            &&& left > 0 ==> forall|event: ProbeEvent| #[trigger]
                answers(event) ==> probes_ask(probes_after(next, event)) == Some(
                    ProbeActionView::Restore { path: m.made[left - 1].parent },
                )
        }),
    decreases told.len(),
{
    if told.len() == 0 {
        if let Ok(nothing) = ending.closed {
            assert(nothing == ());
        }
        assert(ending =~= EndingView { closed: last_trouble(told), ..ending });
    } else {
        let before = told.drop_last();
        assert forall|k: int| 0 <= k < before.len() implies answers((#[trigger] before[k]).0)
            && answers(before[k].1) by {
            assert(before[k] == told[k]);
        }
        probes_are_closed_newest_first(m, ending, before);
        let last = told[told.len() - 1];
        assert(answers(last.0) && answers(last.1));
        let so_far = EndingView { closed: last_trouble(before), ..ending };
        assert(ended(so_far, closing_verdict(trouble(last.0), trouble(last.1))) =~= EndingView {
            closed: last_trouble(told),
            ..ending
        });
    }
}

} // verus!
