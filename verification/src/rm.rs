//! Throwing a box away: what of it goes, when it may, and that a removal that
//! fails part-way puts everything back.

use crate::error::{self, Error, Refusal, refuse};
use crate::path::{self, file_name_of, join};
use crate::state::{self, BoxRef, BoxView, PID_FILE, RECIPE_FILE};
use crate::stop::StopOutcome;
use crate::text::{self, same_text};
use vstd::prelude::*;

verus! {

/// Refuses to remove a box whose state is not there.
pub fn check_there(bx: &BoxRef, exists_there: bool) -> (verdict: Result<(), Error>)
    ensures
        error::outcome(verdict) == (if exists_there {
            Ok(())
        } else {
            Err(
                error::refusal(
                    "no box '"@ + bx@.name + "' in "@ + bx@.project_dir
                        + " to remove - `terra ls` shows what is there"@,
                ),
            )
        }),
{
    if exists_there {
        return Ok(());
    }
    let mut message: String = "no box '".to_owned();
    message.append(bx.name());
    message.append("' in ");
    message.append(bx.project_dir());
    message.append(" to remove - `terra ls` shows what is there");
    Err(Error::new(message))
}

/// Whether a forced removal has to hold the lock.
#[derive(Debug)]
pub enum RemovalLock {
    Take,
    /// The process that holds it will never let go.
    GoWithout { notice: String },
}

/// Whether a box may go after a stop: with its lock, or without it and with
/// something to say.
pub open spec fn removal_lock(bx: BoxView, stopped: Result<StopOutcome, Refusal>) -> Result<
    Option<Seq<char>>,
    Refusal,
> {
    match stopped {
        Err(refused) => Err(refused),
        Ok(StopOutcome::Wedged) => Ok(
            Some(
                "terra: "@ + state::shown(bx) + " survived SIGKILL - removing its files anyway"@,
            ),
        ),
        Ok(StopOutcome::IdentityUnknown) => Err(
            error::refusal(
                state::shown(bx)
                    + " is still held but its VM process identity is unknown - nothing removed"@,
            ),
        ),
        Ok(_) => Ok(None),
    }
}

/// What the end of a stop means for the removal that asked for it: only a VM
/// that survived being killed is removed without the lock.
pub fn lock_after_stop(bx: &BoxRef, stopped: Result<StopOutcome, Error>) -> (lock: Result<
    RemovalLock,
    Error,
>)
    ensures
        removal_lock(bx@, error::outcome(stopped)) == (match lock {
            Ok(RemovalLock::Take) => Ok(None),
            Ok(RemovalLock::GoWithout { notice }) => Ok(Some(notice@)),
            Err(error) => Err(error@),
        }),
{
    match stopped {
        Err(error) => Err(error),
        Ok(StopOutcome::Wedged) => {
            let mut notice: String = "terra: ".to_owned();
            notice.append(bx.describe().as_str());
            notice.append(" survived SIGKILL - removing its files anyway");
            Ok(RemovalLock::GoWithout { notice })
        },
        Ok(StopOutcome::IdentityUnknown) => {
            let mut message: String = bx.describe();
            message.append(
                " is still held but its VM process identity is unknown - nothing removed",
            );
            Err(Error::new(message))
        },
        Ok(_) => Ok(RemovalLock::Take),
    }
}

/// What is said where the lock was gone by the time the box had stopped.
pub fn lock_was_taken(bx: &BoxRef, contended: Error) -> (error: Error)
    ensures
        error@ == error::refusal(
            "another terra took "@ + state::shown(bx@) + " as it stopped - nothing removed"@,
        ) + contended@,
{
    let mut message: String = "another terra took ".to_owned();
    message.append(bx.describe().as_str());
    message.append(" as it stopped - nothing removed");
    contended.context(message)
}

/// Whether a file of a box's state goes: all but the one the lock is on and,
/// where the recipe is kept, the recipe and its paths.
pub open spec fn goes(name: Seq<char>, kept_recipe: bool, pinned_paths_file: Seq<char>) -> bool {
    name != PID_FILE@ && !(kept_recipe && (name == RECIPE_FILE@ || name == pinned_paths_file))
}

/// The files that go, by name.
pub open spec fn going(names: Seq<Seq<char>>, kept_recipe: bool, pinned_paths_file: Seq<char>) -> Seq<
    Seq<char>,
>
    decreases names.len(),
{
    if names.len() == 0 {
        Seq::empty()
    } else {
        let before = going(names.drop_last(), kept_recipe, pinned_paths_file);
        if goes(names.last(), kept_recipe, pinned_paths_file) {
            before.push(names.last())
        } else {
            before
        }
    }
}

/// The paths a removal takes, of the files in a box's state directory.
pub fn choose_paths(
    bx: &BoxRef,
    names: &Vec<String>,
    kept_recipe: bool,
    pinned_paths_file: &str,
) -> (paths: Vec<String>)
    ensures
        ({
            let chosen = going(text::texts(names@), kept_recipe, pinned_paths_file@);
            text::texts(paths@) == Seq::new(chosen.len(), |i: int| path::placed(bx@.dir, chosen[i]))
        }),
{
    let ghost all = text::texts(names@);
    let ghost chosen = going(all.take(0), kept_recipe, pinned_paths_file@);
    let mut paths: Vec<String> = Vec::new();
    let mut i: usize = 0;
    proof {
        assert(all.take(0) =~= Seq::empty());
        assert(text::texts(paths@) =~= Seq::new(chosen.len(), |i: int| path::placed(bx@.dir, chosen[i])));
    }
    while i < names.len()
        invariant
            i <= names@.len(),
            all == text::texts(names@),
            chosen == going(all.take(i as int), kept_recipe, pinned_paths_file@),
            text::texts(paths@) == Seq::new(chosen.len(), |i: int| path::placed(bx@.dir, chosen[i])),
        decreases names.len() - i,
    {
        let ghost before = paths@;
        let ghost taken = chosen;
        proof {
            assert(all.take(i + 1).drop_last() =~= all.take(i as int));
            assert(all.take(i + 1).last() == names@[i as int]@);
            chosen = going(all.take(i + 1), kept_recipe, pinned_paths_file@);
        }
        let name = names[i].as_str();
        let kept = kept_recipe && (same_text(name, RECIPE_FILE) || same_text(
            name,
            pinned_paths_file,
        ));
        if !same_text(name, PID_FILE) && !kept {
            paths.push(join(bx.dir(), name));
            proof {
                text::lemma_texts_push(before, paths@.last());
                assert(chosen == taken.push(name@));
                assert(text::texts(paths@) =~= Seq::new(
                    chosen.len(),
                    |i: int| path::placed(bx@.dir, chosen[i]),
                ));
            }
        }
        i = i + 1;
    }
    proof {
        assert(all.take(i as int) =~= all);
    }
    paths
}

/// A removal without a purge leaves the recipe it was told to keep, and the
/// lock file while the lock is held.
pub proof fn kept_files_stay(names: Seq<Seq<char>>, kept_recipe: bool, pinned_paths_file: Seq<char>)
    ensures
        ({
            let chosen = going(names, kept_recipe, pinned_paths_file);
            &&& !chosen.contains(PID_FILE@)
            &&& kept_recipe ==> !chosen.contains(RECIPE_FILE@) && !chosen.contains(
                pinned_paths_file,
            )
            &&& forall|name: Seq<char>| #[trigger]
                names.contains(name) && goes(name, kept_recipe, pinned_paths_file)
                    ==> chosen.contains(name)
        }),
    decreases names.len(),
{
    let chosen = going(names, kept_recipe, pinned_paths_file);
    if names.len() > 0 {
        let init = names.drop_last();
        let before = going(init, kept_recipe, pinned_paths_file);
        kept_files_stay(init, kept_recipe, pinned_paths_file);
        assert forall|name: Seq<char>| chosen.contains(name) implies before.contains(name) || (name
            == names.last() && goes(name, kept_recipe, pinned_paths_file)) by {
            let k = choose|k: int| 0 <= k < chosen.len() && chosen[k] == name;
            if k < before.len() {
                assert(before[k] == name);
            }
        }
        assert forall|name: Seq<char>| #[trigger]
            names.contains(name) && goes(
                name,
                kept_recipe,
                pinned_paths_file,
            ) implies chosen.contains(name) by {
            let k = choose|k: int| 0 <= k < names.len() && names[k] == name;
            if k < init.len() {
                assert(init[k] == name);
                assert(init.contains(name));
                assert(before.contains(name));
                let j = choose|j: int| 0 <= j < before.len() && before[j] == name;
                assert(chosen[j] == name);
            } else {
                assert(chosen.last() == name);
                assert(chosen[chosen.len() - 1] == name);
            }
        }
    }
}

/// What a removal asks for.
#[derive(Debug)]
pub enum RemovalAction {
    Rename { from: String, to: String },
    /// Remove the directory things are moved to, if it is empty; whether that
    /// works makes no difference.
    RemoveDir { path: String },
}

#[verifier::ext_equal]
pub enum RemovalActionView {
    Rename { from: Seq<char>, to: Seq<char> },
    RemoveDir { path: Seq<char> },
}

impl View for RemovalAction {
    type V = RemovalActionView;

    open spec fn view(&self) -> RemovalActionView {
        match self {
            RemovalAction::Rename { from, to } => RemovalActionView::Rename {
                from: from@,
                to: to@,
            },
            RemovalAction::RemoveDir { path } => RemovalActionView::RemoveDir { path: path@ },
        }
    }
}

/// How far a removal has come.
#[derive(Debug)]
enum RemovalStage {
    Moving(usize),
    /// Going back after the move of `failed` did not work.
    Returning { next: usize, failed: usize, why: String },
    Dropping { failed: usize, why: String },
    Finished(Result<(), Error>),
}

#[verifier::ext_equal]
pub enum RemovalStageView {
    Moving(int),
    Returning { next: int, failed: int, why: Seq<char> },
    Dropping { failed: int, why: Seq<char> },
    Finished(Result<(), Refusal>),
}

impl View for RemovalStage {
    type V = RemovalStageView;

    closed spec fn view(&self) -> RemovalStageView {
        match self {
            RemovalStage::Moving(i) => RemovalStageView::Moving(*i as int),
            RemovalStage::Returning { next, failed, why } => RemovalStageView::Returning {
                next: *next as int,
                failed: *failed as int,
                why: why@,
            },
            RemovalStage::Dropping { failed, why } => RemovalStageView::Dropping {
                failed: *failed as int,
                why: why@,
            },
            RemovalStage::Finished(Ok(())) => RemovalStageView::Finished(Ok(())),
            RemovalStage::Finished(Err(error)) => RemovalStageView::Finished(Err(error@)),
        }
    }
}

/// Moves the files of a box aside, all or none.
#[derive(Debug)]
pub struct Removal {
    paths: Vec<String>,
    removed_dir: String,
    stage: RemovalStage,
}

#[verifier::ext_equal]
pub struct RemovalView {
    pub paths: Seq<Seq<char>>,
    pub removed_dir: Seq<char>,
    pub stage: RemovalStageView,
}

impl View for Removal {
    type V = RemovalView;

    closed spec fn view(&self) -> RemovalView {
        RemovalView {
            paths: text::texts(self.paths@),
            removed_dir: self.removed_dir@,
            stage: self.stage@,
        }
    }
}

/// Where a file is moved to.
pub open spec fn aside(m: RemovalView, i: int) -> Seq<char> {
    path::placed(m.removed_dir, path::file_name(m.paths[i])->0)
}

/// The stage at which a removal turns to the file of a number.
pub open spec fn removal_from(m: RemovalView, i: int) -> RemovalStageView {
    if i >= m.paths.len() {
        RemovalStageView::Finished(Ok(()))
    } else if path::file_name(m.paths[i]) is None {
        RemovalStageView::Finished(Err(error::refusal("entry has no file name"@)))
    } else {
        RemovalStageView::Moving(i)
    }
}

/// The stage at which a removal that failed goes back before the file of a
/// number.
pub open spec fn removal_returns(i: int, failed: int, why: Seq<char>) -> RemovalStageView {
    if i == 0 {
        RemovalStageView::Dropping { failed, why }
    } else {
        RemovalStageView::Returning { next: i - 1, failed, why }
    }
}

/// Whether a removal is in a state it can be in.
pub open spec fn removal_stands(m: RemovalView) -> bool {
    let n = m.paths.len();
    match m.stage {
        RemovalStageView::Moving(i) => 0 <= i < n && forall|j: int|
            0 <= j <= i ==> path::file_name(#[trigger] m.paths[j]) is Some,
        RemovalStageView::Returning { next, failed, .. } => 0 <= next < failed < n && forall|j: int|
            0 <= j <= failed ==> path::file_name(#[trigger] m.paths[j]) is Some,
        RemovalStageView::Dropping { failed, .. } => 0 <= failed < n,
        RemovalStageView::Finished(_) => true,
    }
}

/// What a removal asks for; `None` once it is over.
pub open spec fn removal_asks(m: RemovalView) -> Option<RemovalActionView> {
    match m.stage {
        RemovalStageView::Moving(i) => Some(
            RemovalActionView::Rename { from: m.paths[i], to: aside(m, i) },
        ),
        RemovalStageView::Returning { next, .. } => Some(
            RemovalActionView::Rename { from: aside(m, next), to: m.paths[next] },
        ),
        RemovalStageView::Dropping { .. } => Some(
            RemovalActionView::RemoveDir { path: m.removed_dir },
        ),
        RemovalStageView::Finished(_) => None,
    }
}

/// The stage a removal is in once it is told why what it asked for did not
/// work, if it did not.
pub open spec fn removal_stage_after(m: RemovalView, failure: Option<Seq<char>>) -> RemovalStageView {
    match m.stage {
        RemovalStageView::Moving(i) => match failure {
            None => removal_from(m, i + 1),
            Some(why) => removal_returns(i, i, why),
        },
        RemovalStageView::Returning { next, failed, why } => match failure {
            None => removal_returns(next, failed, why),
            Some(trouble) => RemovalStageView::Finished(
                Err(
                    error::refusal(
                        "removal failed: "@ + why + "; rollback failed: restore "@ + m.paths[next]
                            + " from "@ + aside(m, next),
                    ) + error::refusal(trouble),
                ),
            ),
        },
        RemovalStageView::Dropping { failed, why } => RemovalStageView::Finished(
            Err(error::refusal("staging removal of "@ + m.paths[failed]) + error::refusal(why)),
        ),
        RemovalStageView::Finished(_) => m.stage,
    }
}

pub open spec fn removal_after(m: RemovalView, failure: Option<Seq<char>>) -> RemovalView {
    RemovalView { stage: removal_stage_after(m, failure), ..m }
}

impl Removal {
    #[verifier::type_invariant]
    closed spec fn stands(&self) -> bool {
        removal_stands(self@)
    }

    /// The stage at which the file of a number is turned to.
    fn from(paths: &Vec<String>, i: usize) -> (stage: RemovalStage)
        ensures
            stage@ == (if i >= paths@.len() {
                RemovalStageView::Finished(Ok(()))
            } else if path::file_name(paths@[i as int]@) is None {
                RemovalStageView::Finished(Err(error::refusal("entry has no file name"@)))
            } else {
                RemovalStageView::Moving(i as int)
            }),
    {
        if i >= paths.len() {
            return RemovalStage::Finished(Ok(()));
        }
        match file_name_of(paths[i].as_str()) {
            Some(_) => RemovalStage::Moving(i),
            None => RemovalStage::Finished(Err(refuse("entry has no file name"))),
        }
    }

    fn going_back(i: usize, failed: usize, why: String) -> (stage: RemovalStage)
        ensures
            stage@ == removal_returns(i as int, failed as int, why@),
    {
        if i == 0 {
            RemovalStage::Dropping { failed, why }
        } else {
            RemovalStage::Returning { next: i - 1, failed, why }
        }
    }

    /// A removal of some paths, by way of a directory beside them.
    pub fn start(paths: Vec<String>, removed_dir: &str) -> (removal: Removal)
        ensures
            ({
                let m = RemovalView {
                    paths: text::texts(paths@),
                    removed_dir: removed_dir@,
                    stage: RemovalStageView::Finished(Ok(())),
                };
                removal@ == (RemovalView { stage: removal_from(m, 0), ..m })
            }),
    {
        let stage = Removal::from(&paths, 0);
        Removal { paths, removed_dir: removed_dir.to_owned(), stage }
    }

    fn aside(&self, i: usize) -> (path: String)
        requires
            i < self@.paths.len(),
            path::file_name(self@.paths[i as int]) is Some,
        ensures
            path@ == aside(self@, i as int),
    {
        match file_name_of(self.paths[i].as_str()) {
            Some(name) => join(self.removed_dir.as_str(), name.as_str()),
            None => String::new(),
        }
    }

    /// What is to be done next.
    pub fn next(&self) -> (action: Option<RemovalAction>)
        ensures
            match removal_asks(self@) {
                Some(asked) => action is Some && action->0@ == asked,
                None => action is None,
            },
    {
        proof {
            use_type_invariant(self);
        }
        match &self.stage {
            RemovalStage::Moving(i) => {
                proof {
                    assert(path::file_name(self@.paths[*i as int]) is Some);
                }
                Some(
                    RemovalAction::Rename {
                        from: self.paths[*i].as_str().to_owned(),
                        to: self.aside(*i),
                    },
                )
            },
            RemovalStage::Returning { next, .. } => {
                proof {
                    assert(path::file_name(self@.paths[*next as int]) is Some);
                }
                Some(
                    RemovalAction::Rename {
                        from: self.aside(*next),
                        to: self.paths[*next].as_str().to_owned(),
                    },
                )
            },
            RemovalStage::Dropping { .. } => Some(
                RemovalAction::RemoveDir { path: self.removed_dir.as_str().to_owned() },
            ),
            RemovalStage::Finished(_) => None,
        }
    }

    /// The removal once it is told why what it asked for did not work, if it
    /// did not.
    pub fn advance(self, failure: Option<String>) -> (next: Removal)
        ensures
            next@ == removal_after(self@, crate::text::text_of(failure)),
    {
        proof {
            use_type_invariant(&self);
            assert(self@.paths.len() == self.paths.len());
        }
        let stage = match &self.stage {
            RemovalStage::Moving(i) => match failure {
                None => Removal::from(&self.paths, *i + 1),
                Some(why) => Removal::going_back(*i, *i, why),
            },
            RemovalStage::Returning { next, failed, why } => match failure {
                None => Removal::going_back(*next, *failed, why.as_str().to_owned()),
                Some(trouble) => {
                    proof {
                        assert(path::file_name(self@.paths[*next as int]) is Some);
                    }
                    let mut message: String = "removal failed: ".to_owned();
                    message.append(why.as_str());
                    message.append("; rollback failed: restore ");
                    message.append(self.paths[*next].as_str());
                    message.append(" from ");
                    message.append(self.aside(*next).as_str());
                    RemovalStage::Finished(Err(Error::new(trouble).context(message)))
                },
            },
            RemovalStage::Dropping { failed, why } => {
                let mut message: String = "staging removal of ".to_owned();
                message.append(self.paths[*failed].as_str());
                RemovalStage::Finished(
                    Err(Error::new(why.as_str().to_owned()).context(message)),
                )
            },
            RemovalStage::Finished(_) => {
                return self;
            },
        };
        Removal { paths: self.paths, removed_dir: self.removed_dir, stage }
    }

    /// How the removal ended; `None` while it is under way.
    pub fn into_result(self) -> (result: Option<Result<(), Error>>)
        ensures
            match self@.stage {
                RemovalStageView::Finished(Ok(())) => result is Some && result->0 is Ok,
                RemovalStageView::Finished(Err(error)) => result is Some && result->0 is Err
                    && result->0->Err_0@ == error,
                _ => result is None,
            },
    {
        match self.stage {
            RemovalStage::Finished(result) => Some(result),
            _ => None,
        }
    }
}

/// What becomes of the files of a disk; what did not work changed nothing.
pub open spec fn moved(
    before: Map<Seq<char>, Seq<u8>>,
    action: RemovalActionView,
    failure: Option<Seq<char>>,
    after: Map<Seq<char>, Seq<u8>>,
) -> bool {
    match action {
        RemovalActionView::Rename { from, to } => if failure is Some {
            after == before
        } else {
            before.contains_key(from) && after == before.remove(from).insert(to, before[from])
        },
        RemovalActionView::RemoveDir { .. } => after == before,
    }
}

/// Whether no two of the paths of a removal meet.
pub open spec fn kept_apart(m: RemovalView) -> bool {
    let n = m.paths.len();
    &&& m.paths.no_duplicates()
    &&& forall|i: int, j: int|
        0 <= i < n && 0 <= j < n && i != j ==> #[trigger] aside(m, i) != #[trigger] aside(m, j)
    &&& forall|i: int, j: int|
        0 <= i < n && 0 <= j < n ==> #[trigger] m.paths[i] != #[trigger] aside(m, j)
}

/// A file is where it was when the removal began.
pub open spec fn in_place(
    m: RemovalView,
    first: Map<Seq<char>, Seq<u8>>,
    disk: Map<Seq<char>, Seq<u8>>,
    i: int,
) -> bool {
    disk.contains_key(m.paths[i]) == first.contains_key(m.paths[i]) && (first.contains_key(
        m.paths[i],
    ) ==> disk[m.paths[i]] == first[m.paths[i]])
}

/// A file has been moved aside.
pub open spec fn put_aside(
    m: RemovalView,
    first: Map<Seq<char>, Seq<u8>>,
    disk: Map<Seq<char>, Seq<u8>>,
    i: int,
) -> bool {
    &&& first.contains_key(m.paths[i])
    &&& !disk.contains_key(m.paths[i])
    &&& disk.contains_key(aside(m, i))
    &&& disk[aside(m, i)] == first[m.paths[i]]
}

/// What holds of the files while a removal is under way.
pub open spec fn removal_holds(
    m: RemovalView,
    first: Map<Seq<char>, Seq<u8>>,
    disk: Map<Seq<char>, Seq<u8>>,
) -> bool {
    let n = m.paths.len();
    &&& removal_stands(m)
    &&& forall|j: int|
        0 <= j < n ==> #[trigger] in_place(m, first, disk, j) || put_aside(m, first, disk, j)
    &&& match m.stage {
        RemovalStageView::Moving(i) => {
            &&& forall|j: int| 0 <= j < i ==> #[trigger] put_aside(m, first, disk, j)
            &&& forall|j: int| i <= j < n ==> #[trigger] in_place(m, first, disk, j)
        },
        RemovalStageView::Returning { next, .. } => {
            &&& forall|j: int| 0 <= j <= next ==> #[trigger] put_aside(m, first, disk, j)
            &&& forall|j: int| next < j < n ==> #[trigger] in_place(m, first, disk, j)
        },
        RemovalStageView::Dropping { .. } => forall|j: int|
            0 <= j < n ==> #[trigger] in_place(m, first, disk, j),
        RemovalStageView::Finished(Ok(_)) => forall|j: int|
            0 <= j < n ==> #[trigger] put_aside(m, first, disk, j),
        RemovalStageView::Finished(Err(_)) => true,
    }
}

/// At every step of a removal every file is where it was or aside, whole; one
/// that fails and can go back leaves all of them where they were.
pub proof fn removals_take_all_or_nothing(
    m: RemovalView,
    first: Map<Seq<char>, Seq<u8>>,
    before: Map<Seq<char>, Seq<u8>>,
    failure: Option<Seq<char>>,
    after: Map<Seq<char>, Seq<u8>>,
)
    requires
        kept_apart(m),
        forall|j: int| 0 <= j < m.paths.len() ==> path::file_name(#[trigger] m.paths[j]) is Some,
        removal_holds(m, first, before),
        removal_asks(m) is Some,
        moved(before, removal_asks(m)->0, failure, after),
    ensures
        removal_holds(removal_after(m, failure), first, after),
        m.stage is Dropping ==> forall|j: int|
            0 <= j < m.paths.len() ==> #[trigger] in_place(m, first, after, j),
        removal_after(m, failure).stage == RemovalStageView::Finished(Ok(())) ==> forall|j: int|
            0 <= j < m.paths.len() ==> #[trigger] put_aside(m, first, after, j),
{
    let n = m.paths.len();
    let next = removal_after(m, failure);
    let at = match m.stage {
        RemovalStageView::Moving(i) => i,
        RemovalStageView::Returning { next, .. } => next,
        _ => -1,
    };
    assert forall|j: int| 0 <= j < n implies aside(next, j) == #[trigger] aside(m, j) by {}
    assert forall|j: int| 0 <= j < n && j != at && put_aside(m, first, before, j) implies #[trigger] put_aside(
        next,
        first,
        after,
        j,
    ) && put_aside(m, first, after, j) by {
        if 0 <= at < n {
            assert(m.paths[j] != aside(m, at));
            assert(aside(m, j) != aside(m, at));
            assert(m.paths[at] != aside(m, j));
            assert(m.paths[j] != m.paths[at]);
        }
    }
    assert forall|j: int| 0 <= j < n && j != at && in_place(m, first, before, j) implies #[trigger] in_place(
        next,
        first,
        after,
        j,
    ) && in_place(m, first, after, j) by {
        if 0 <= at < n {
            assert(m.paths[j] != aside(m, at));
            assert(m.paths[j] != m.paths[at]);
        }
    }
    match m.stage {
        RemovalStageView::Moving(i) => {
            assert(in_place(m, first, before, i));
            assert(m.paths[i] != aside(m, i));
            if failure is None {
                assert(put_aside(next, first, after, i));
                assert(put_aside(m, first, after, i));
            } else {
                assert(in_place(next, first, after, i));
            }
        },
        RemovalStageView::Returning { next: k, .. } => {
            assert(put_aside(m, first, before, k));
            assert(m.paths[k] != aside(m, k));
            if failure is None {
                assert(in_place(next, first, after, k));
            } else {
                assert(put_aside(next, first, after, k));
            }
        },
        RemovalStageView::Dropping { .. } => {
            assert forall|j: int| 0 <= j < n implies #[trigger] in_place(m, first, after, j)
                && in_place(next, first, after, j) by {
                assert(in_place(m, first, before, j));
            }
        },
        RemovalStageView::Finished(_) => {},
    }
    assert forall|j: int| 0 <= j < n implies #[trigger] in_place(next, first, after, j)
        || put_aside(next, first, after, j) by {
        assert(in_place(m, first, before, j) || put_aside(m, first, before, j));
    }
    assert forall|j: int| 0 <= j < n && put_aside(next, first, after, j) implies #[trigger] put_aside(
        m,
        first,
        after,
        j,
    ) by {}
}

/// What is said of a box that was removed.
pub fn report_removal(bx: &BoxRef, kept_recipe: bool) -> (line: String)
    ensures
        line@ == (if kept_recipe {
            "terra: removed "@ + state::shown(bx@) + " (kept "@ + RECIPE_FILE@ + ")"@
        } else {
            "terra: removed "@ + bx@.dir
        }),
{
    let mut line: String = "terra: removed ".to_owned();
    if kept_recipe {
        line.append(bx.describe().as_str());
        line.append(" (kept ");
        line.append(RECIPE_FILE);
        line.append(")");
    } else {
        line.append(bx.dir());
    }
    line
}

} // verus!
