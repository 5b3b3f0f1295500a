//! The names a destination has to keep apart, directory by directory, and how
//! its file system is asked whether it does.

use crate::error::{self, Error, Refusal};
use crate::ordered::{self, TextMap};
use crate::path;
use crate::sync::entry::{SyncEntryKind, Tree, TreeView};
use crate::text::{self, chars_of, same_text, text_between};
use vstd::prelude::*;

verus! {

/// The names in one directory.
pub type Names = Seq<(Seq<char>, bool)>;

/// The names in every directory, by the path of the directory.
pub type NamesByDirectory = Seq<(Seq<char>, Names)>;

/// A path as its directory and its name; the root is the empty directory.
pub open spec fn in_directory(path: Seq<char>) -> (Seq<char>, Seq<char>) {
    let slash = path::last_at(path, '/', path.len() as int);
    if slash < 0 {
        (Seq::empty(), path)
    } else {
        (path.take(slash), path.skip(slash + 1))
    }
}

fn split_directory(path: &str) -> (parts: (String, String))
    ensures
        (parts.0@, parts.1@) == in_directory(path@),
{
    let chars = chars_of(path);
    let mut slash: usize = chars.len();
    while slash > 0 && chars[slash - 1] != '/'
        invariant
            slash <= chars@.len(),
            chars@ == path@,
            path::last_at(path@, '/', path@.len() as int) == path::last_at(path@, '/', slash as int),
        decreases slash,
    {
        slash = slash - 1;
    }
    if slash == 0 {
        return (String::new(), path.to_owned());
    }
    let directory = text_between(&chars, 0, slash - 1);
    let name = text_between(&chars, slash, chars.len());
    proof {
        assert(directory@ =~= path@.take(slash - 1));
        assert(name@ =~= path@.skip(slash as int));
    }
    (directory, name)
}

/// The names with that of one path more; the root has none.
pub open spec fn with_path(names: NamesByDirectory, path: Seq<char>) -> NamesByDirectory {
    if path.len() == 0 {
        names
    } else {
        let (directory, name) = in_directory(path);
        let inside = match ordered::lookup(names, directory) {
            Some(inside) => inside,
            None => Seq::empty(),
        };
        ordered::with_entry(names, directory, ordered::with_entry(inside, name, true))
    }
}

/// The names with those of the first `n` paths of a tree.
pub open spec fn with_tree(names: NamesByDirectory, entries: TreeView, n: int) -> NamesByDirectory
    decreases n,
{
    if n <= 0 {
        names
    } else {
        with_path(with_tree(names, entries, n - 1), entries[n - 1].0)
    }
}

/// The names of two trees together.
pub open spec fn names_of(source: TreeView, destination: TreeView) -> NamesByDirectory {
    with_tree(
        with_tree(Seq::empty(), source, source.len() as int),
        destination,
        destination.len() as int,
    )
}

fn add_tree(names: &mut TextMap<TextMap<bool>>, entries: &Tree)
    ensures
        final(names)@ == with_tree(old(names)@, entries@, entries@.len() as int),
{
    let n: usize = entries.len();
    let mut i: usize = 0;
    while i < n
        invariant
            i <= n == entries@.len(),
            names@ == with_tree(old(names)@, entries@, i as int),
        decreases n - i,
    {
        let path = entries.key_at(i);
        if path.unicode_len() > 0 {
            let ghost before = names@;
            let (directory, name) = split_directory(path);
            let emptied: TextMap<bool> = TextMap::new();
            let ghost none = emptied@;
            let mut inside = match names.insert(directory.as_str().to_owned(), emptied) {
                Some(inside) => inside,
                None => TextMap::new(),
            };
            inside.insert(name, true);
            let ghost now = inside@;
            proof {
                ordered::lemma_with_entry_twice(before, directory@, none, now);
            }
            names.insert(directory, inside);
        }
        i = i + 1;
    }
}

/// The names that must not become one on the destination, by directory and in
/// order.
pub fn list_names(source: &Tree, destination: &Tree) -> (names: TextMap<TextMap<bool>>)
    ensures
        names@ == names_of(source@, destination@),
{
    let mut names: TextMap<TextMap<bool>> = TextMap::new();
    add_tree(&mut names, source);
    add_tree(&mut names, destination);
    names
}

/// Where the names of a directory are tried: in a directory of their own,
/// that keeps names apart as the one they are meant for would.
#[derive(Debug, Clone, Copy, PartialEq, Eq, Structural)]
pub enum ProbePlace {
    /// In the directory itself, which is there.
    Itself,
    /// In the nearest directory above the root of the destination.
    Above,
    /// In what an earlier probe made.
    Inside(usize),
}

/// One thing to be done to try names.
#[derive(Debug)]
pub enum ProbeStep {
    /// What lies above a directory must not be in its way.
    Check { directory: String },
    /// A probe is made for a directory; they are counted from zero.
    Open { directory: String, place: ProbePlace },
    /// A name is put into a probe, where nothing may answer to it yet.
    Put { probe: usize, name: String },
}

#[verifier::ext_equal]
pub enum ProbeStepView {
    Check { directory: Seq<char> },
    Open { directory: Seq<char>, place: ProbePlace },
    Put { probe: usize, name: Seq<char> },
}

impl View for ProbeStep {
    type V = ProbeStepView;

    open spec fn view(&self) -> ProbeStepView {
        match self {
            ProbeStep::Check { directory } => ProbeStepView::Check { directory: directory@ },
            ProbeStep::Open { directory, place } => ProbeStepView::Open {
                directory: directory@,
                place: *place,
            },
            ProbeStep::Put { probe, name } => ProbeStepView::Put { probe: *probe, name: name@ },
        }
    }
}

/// What was planned so far: the directories that have a probe, by number, and
/// every step.
#[verifier::ext_equal]
pub struct ProbingView {
    pub directories: Seq<Seq<char>>,
    pub steps: Seq<ProbeStepView>,
}

/// The number of a directory's probe, the count of all where it has none.
pub open spec fn probe_of(directories: Seq<Seq<char>>, directory: Seq<char>, from: int) -> int
    decreases directories.len() - from,
{
    if from < 0 || from >= directories.len() {
        directories.len() as int
    } else if directories[from] == directory {
        from
    } else {
        probe_of(directories, directory, from + 1)
    }
}

/// The plan with a probe more.
pub open spec fn opened(plan: ProbingView, directory: Seq<char>, place: ProbePlace) -> ProbingView {
    ProbingView {
        directories: plan.directories.push(directory),
        steps: plan.steps.push(ProbeStepView::Open { directory, place }),
    }
}

/// The plan with a look at what lies above a directory.
pub open spec fn checked(plan: ProbingView, directory: Seq<char>) -> ProbingView {
    ProbingView { steps: plan.steps.push(ProbeStepView::Check { directory }), ..plan }
}

/// The plan with a probe for a directory, and for what lies above it where the
/// directory is not there yet.
pub open spec fn with_directory(
    plan: ProbingView,
    directory: Seq<char>,
    destination: TreeView,
    root_is_dir: bool,
) -> ProbingView
    decreases directory.len(),
{
    let is_existing = if directory.len() == 0 {
        root_is_dir
    } else {
        ordered::lookup(destination, directory) matches Some(entry) && entry.kind
            == SyncEntryKind::Directory
    };
    if probe_of(plan.directories, directory, 0) < plan.directories.len() {
        plan
    } else if directory.len() == 0 {
        opened(
            plan,
            directory,
            if is_existing {
                ProbePlace::Itself
            } else {
                ProbePlace::Above
            },
        )
    } else if is_existing {
        opened(checked(plan, directory), directory, ProbePlace::Itself)
    } else {
        proof {
            crate::path::lemma_last_at(directory, '/', directory.len() as int);
        }
        let parent = in_directory(directory).0;
        let above = with_directory(checked(plan, directory), parent, destination, root_is_dir);
        opened(
            above,
            directory,
            ProbePlace::Inside(probe_of(above.directories, parent, 0) as usize),
        )
    }
}

/// The plan with the first `n` of some names put into a probe.
pub open spec fn with_names(plan: ProbingView, probe: usize, names: Names, n: int) -> ProbingView
    decreases n,
{
    if n <= 0 {
        plan
    } else {
        let before = with_names(plan, probe, names, n - 1);
        ProbingView {
            steps: before.steps.push(ProbeStepView::Put { probe, name: names[n - 1].0 }),
            ..before
        }
    }
}

/// The plan for the first `n` directories: each gets its probe, and its names
/// go into it.
pub open spec fn probing(
    names: NamesByDirectory,
    destination: TreeView,
    root_is_dir: bool,
    n: int,
) -> ProbingView
    decreases n,
{
    if n <= 0 {
        ProbingView { directories: Seq::empty(), steps: Seq::empty() }
    } else {
        let (directory, inside) = names[n - 1];
        let before = probing(names, destination, root_is_dir, n - 1);
        let plan = with_directory(before, directory, destination, root_is_dir);
        with_names(
            plan,
            probe_of(plan.directories, directory, 0) as usize,
            inside,
            inside.len() as int,
        )
    }
}

proof fn lemma_probe_of(directories: Seq<Seq<char>>, directory: Seq<char>, from: int)
    requires
        0 <= from <= directories.len(),
    ensures
        from <= probe_of(directories, directory, from) <= directories.len(),
        probe_of(directories, directory, from) < directories.len() ==> directories[probe_of(
            directories,
            directory,
            from,
        )] == directory,
        forall|i: int|
            from <= i < probe_of(directories, directory, from) ==> directories[i] != directory,
    decreases directories.len() - from,
{
    if from < directories.len() && directories[from] != directory {
        lemma_probe_of(directories, directory, from + 1);
    }
}

proof fn lemma_has_probe(
    plan: ProbingView,
    directory: Seq<char>,
    destination: TreeView,
    root_is_dir: bool,
)
    ensures
        ({
            let more = with_directory(plan, directory, destination, root_is_dir);
            probe_of(more.directories, directory, 0) < more.directories.len()
        }),
{
    let more = with_directory(plan, directory, destination, root_is_dir);
    lemma_probe_of(more.directories, directory, 0);
    if probe_of(plan.directories, directory, 0) >= plan.directories.len() {
        assert(more.directories.last() == directory);
        assert(more.directories[more.directories.len() - 1] == directory);
    }
}

/// A plan being made.
struct Probing {
    directories: Vec<String>,
    steps: Vec<ProbeStep>,
}

impl View for Probing {
    type V = ProbingView;

    closed spec fn view(&self) -> ProbingView {
        ProbingView {
            directories: text::texts(self.directories@),
            steps: text::views(self.steps@),
        }
    }
}

impl Probing {
    fn probe_of(&self, directory: &str) -> (probe: usize)
        ensures
            probe == probe_of(self@.directories, directory@, 0),
            self@.directories.len() <= usize::MAX,
    {
        let mut i: usize = 0;
        while i < self.directories.len()
            invariant
                i <= self.directories@.len(),
                probe_of(self@.directories, directory@, 0) == probe_of(
                    self@.directories,
                    directory@,
                    i as int,
                ),
            decreases self.directories.len() - i,
        {
            proof {
                assert(self@.directories[i as int] == self.directories@[i as int]@);
            }
            if same_text(self.directories[i].as_str(), directory) {
                return i;
            }
            i = i + 1;
        }
        i
    }

    fn check(&mut self, directory: &str)
        ensures
            final(self)@ == checked(old(self)@, directory@),
    {
        let ghost steps = self.steps@;
        self.steps.push(ProbeStep::Check { directory: directory.to_owned() });
        proof {
            assert(text::views(self.steps@) =~= text::views(steps).push(self.steps@.last()@));
        }
    }

    fn open(&mut self, directory: &str, place: ProbePlace)
        ensures
            final(self)@ == opened(old(self)@, directory@, place),
    {
        let ghost directories = self.directories@;
        let ghost steps = self.steps@;
        self.directories.push(directory.to_owned());
        self.steps.push(ProbeStep::Open { directory: directory.to_owned(), place });
        proof {
            crate::text::lemma_texts_push(directories, self.directories@.last());
            assert(text::views(self.steps@) =~= text::views(steps).push(self.steps@.last()@));
        }
    }

    fn add_directory(&mut self, directory: &str, destination: &Tree, root_is_dir: bool)
        ensures
            final(self)@ == with_directory(old(self)@, directory@, destination@, root_is_dir),
        decreases directory@.len(),
    {
        if self.probe_of(directory) < self.directories.len() {
            return;
        }
        let is_root = directory.unicode_len() == 0;
        let is_existing = if is_root {
            root_is_dir
        } else {
            match destination.get(directory) {
                Some(entry) => entry.kind == SyncEntryKind::Directory,
                None => false,
            }
        };
        if is_root {
            let place = if is_existing { ProbePlace::Itself } else { ProbePlace::Above };
            self.open(directory, place);
            return;
        }
        self.check(directory);
        if is_existing {
            self.open(directory, ProbePlace::Itself);
        } else {
            let (parent, _) = split_directory(directory);
            proof {
                crate::path::lemma_last_at(directory@, '/', directory@.len() as int);
            }
            self.add_directory(parent.as_str(), destination, root_is_dir);
            let above: usize = self.probe_of(parent.as_str());
            self.open(directory, ProbePlace::Inside(above));
        }
    }

    fn put_names(&mut self, probe: usize, names: &TextMap<bool>)
        ensures
            final(self)@ == with_names(old(self)@, probe, names@, names@.len() as int),
    {
        let n: usize = names.len();
        let mut i: usize = 0;
        while i < n
            invariant
                i <= n == names@.len(),
                self@ == with_names(old(self)@, probe, names@, i as int),
            decreases n - i,
        {
            let ghost steps = self.steps@;
            self.steps.push(ProbeStep::Put { probe, name: names.key_at(i).to_owned() });
            proof {
                assert(text::views(self.steps@) =~= text::views(steps).push(self.steps@.last()@));
            }
            i = i + 1;
        }
    }
}

/// How the names are tried, step by step; `root_is_dir` says whether there is a
/// directory at the root of the destination.
pub fn plan_probes(names: &TextMap<TextMap<bool>>, destination: &Tree, root_is_dir: bool) -> (steps: Vec<
    ProbeStep,
>)
    ensures
        text::views(steps@) == probing(
            names@,
            destination@,
            root_is_dir,
            names@.len() as int,
        ).steps,
        probes_in_order(probing(names@, destination@, root_is_dir, names@.len() as int)),
{
    let mut plan = Probing { directories: Vec::new(), steps: Vec::new() };
    let n: usize = names.len();
    let mut i: usize = 0;
    proof {
        assert(plan@ =~= probing(names@, destination@, root_is_dir, 0));
    }
    while i < n
        invariant
            i <= n == names@.len(),
            plan@ == probing(names@, destination@, root_is_dir, i as int),
        decreases n - i,
    {
        let directory = names.key_at(i);
        plan.add_directory(directory, destination, root_is_dir);
        let probe: usize = plan.probe_of(directory);
        plan.put_names(probe, names.value_at(i));
        i = i + 1;
    }
    proof {
        assert(plan.directories.len() == plan@.directories.len());
        probes_are_made_before_they_are_used(names@, destination@, root_is_dir, n as int);
    }
    plan.steps
}

/// What came of putting a name into a probe.
#[derive(Debug)]
pub enum PutResult {
    Put,
    /// Something answers to it already: the name that was put there.
    Taken(String),
    /// Something answers to it already, and cannot be read.
    Unread(String),
    /// It was made, and its name could not be written into it.
    Unwritten(String),
    Failed(String),
}

/// What is held against a name in the directory it is tried for.
pub open spec fn put_verdict(directory: Seq<char>, name: Seq<char>, came: PutResult) -> Result<
    (),
    Refusal,
> {
    let context = error::refusal("checking sync names in '"@ + directory + "'"@);
    match came {
        PutResult::Put => Ok(()),
        PutResult::Taken(previous) => Err(
            context + error::refusal(
                "sync names '"@ + previous@ + "' and '"@ + name
                    + "' identify the same destination entry; rename one before syncing"@,
            ),
        ),
        PutResult::Unread(why) => Err(context + error::refusal(why@)),
        PutResult::Unwritten(why) => Err(
            context + error::refusal("writing a sync name probe"@) + error::refusal(why@),
        ),
        PutResult::Failed(why) => Err(
            context + error::refusal(
                "filename '"@ + name + "' cannot be created on the destination filesystem"@,
            ) + error::refusal(why@),
        ),
    }
}

/// Refuses a name that the destination does not keep apart from another, or
/// cannot hold.
pub fn check_put(directory: &str, name: &str, came: PutResult) -> (verdict: Result<(), Error>)
    ensures
        error::outcome(verdict) == put_verdict(directory@, name@, came),
{
    let refused = match came {
        PutResult::Put => {
            return Ok(());
        },
        PutResult::Taken(previous) => {
            let mut message: String = "sync names '".to_owned();
            message.append(previous.as_str());
            message.append("' and '");
            message.append(name);
            message.append("' identify the same destination entry; rename one before syncing");
            Error::new(message)
        },
        PutResult::Unread(why) => Error::new(why),
        PutResult::Unwritten(why) => Error::new(why).context("writing a sync name probe".to_owned()),
        PutResult::Failed(why) => {
            let mut message: String = "filename '".to_owned();
            message.append(name);
            message.append("' cannot be created on the destination filesystem");
            Error::new(why).context(message)
        },
    };
    let mut message: String = "checking sync names in '".to_owned();
    message.append(directory);
    message.append("'");
    let verdict: Result<(), Error> = Err(refused.context(message));
    proof {
        assert(error::outcome(verdict)->Err_0 =~= put_verdict(directory@, name@, came)->Err_0);
    }
    verdict
}

/// What the file system of the destination makes of a name: the name that was
/// put into the probe and answers to it, or why that could not be read.
#[derive(Debug)]
pub enum ProbedName {
    Named(String),
    Unread(String),
}

#[verifier::ext_equal]
pub enum ProbedNameView {
    Named(Seq<char>),
    Unread(Seq<char>),
}

impl View for ProbedName {
    type V = ProbedNameView;

    open spec fn view(&self) -> ProbedNameView {
        match self {
            ProbedName::Named(name) => ProbedNameView::Named(name@),
            ProbedName::Unread(why) => ProbedNameView::Unread(why@),
        }
    }
}

/// What the probes answer, by directory and then by the name that is looked
/// up. Where they have no answer, nothing that was put there answers to it.
pub type Answers = Seq<(Seq<char>, Seq<(Seq<char>, ProbedNameView)>)>;

/// What a name in a directory is on the destination: the name of what answers
/// to it there, and the name itself where nothing does.
pub open spec fn name_on_host(answers: Answers, directory: Seq<char>, name: Seq<char>) -> Result<
    Seq<char>,
    Refusal,
> {
    match ordered::lookup(answers, directory) {
        None => Ok(name),
        Some(inside) => match ordered::lookup(inside, name) {
            None => Ok(name),
            Some(ProbedNameView::Named(found)) => Ok(found),
            Some(ProbedNameView::Unread(why)) => Err(
                error::refusal("resolving a sync filename on the destination filesystem"@)
                    + error::refusal(why),
            ),
        },
    }
}

pub fn resolve_component(
    answers: &TextMap<TextMap<ProbedName>>,
    parent: &str,
    component: &str,
) -> (name: Result<String, Error>)
    ensures
        match name {
            Ok(name) => name_on_host(answers@, parent@, component@) == Ok::<_, Refusal>(name@),
            Err(error) => name_on_host(answers@, parent@, component@) == Err::<Seq<char>, _>(error@),
        },
{
    match answers.get(parent) {
        None => Ok(component.to_owned()),
        Some(inside) => match inside.get(component) {
            None => Ok(component.to_owned()),
            Some(ProbedName::Named(found)) => Ok(found.as_str().to_owned()),
            Some(ProbedName::Unread(why)) => Err(
                Error::new(why.as_str().to_owned()).context(
                    "resolving a sync filename on the destination filesystem".to_owned(),
                ),
            ),
        },
    }
}

/// The names of a destination once they were tried: what its file system
/// answers, and what came of taking the probes away.
#[derive(Debug)]
pub struct HostNames {
    pub answers: TextMap<TextMap<ProbedName>>,
    pub closed: Result<(), Error>,
}

#[verifier::ext_equal]
pub struct HostNamesView {
    pub answers: Answers,
    pub closed: Result<(), Refusal>,
}

impl View for HostNames {
    type V = HostNamesView;

    open spec fn view(&self) -> HostNamesView {
        HostNamesView { answers: self.answers@, closed: error::outcome(self.closed) }
    }
}

/// The names of a destination, or why they could not be tried.
pub open spec fn tried(names: Result<HostNames, Error>) -> Result<HostNamesView, Refusal> {
    match names {
        Ok(names) => Ok(names@),
        Err(error) => Err(error@),
    }
}

/// How many probes the first `n` steps make.
pub open spec fn made(steps: Seq<ProbeStepView>, n: int) -> nat
    decreases n,
{
    if n <= 0 {
        0
    } else if steps[n - 1] is Open {
        made(steps, n - 1) + 1
    } else {
        made(steps, n - 1)
    }
}

/// Whether no directory has two probes, each step speaks only of probes that were
/// made before it, and only what has something above it is checked.
pub open spec fn probes_in_order(plan: ProbingView) -> bool {
    &&& forall|i: int, j: int|
        0 <= i < j < plan.directories.len() ==> plan.directories[i] != plan.directories[j]
    &&& made(plan.steps, plan.steps.len() as int) == plan.directories.len()
    &&& forall|k: int|
        0 <= k < plan.steps.len() ==> match #[trigger] plan.steps[k] {
            ProbeStepView::Open { place: ProbePlace::Inside(probe), .. } => probe < made(
                plan.steps,
                k,
            ),
            ProbeStepView::Put { probe, .. } => probe < made(plan.steps, k),
            ProbeStepView::Check { directory } => directory.len() > 0,
            _ => true,
        }
}

proof fn lemma_made(steps: Seq<ProbeStepView>, step: ProbeStepView, n: int)
    requires
        0 <= n <= steps.len(),
    ensures
        made(steps.push(step), n) == made(steps, n),
    decreases n,
{
    if n > 0 {
        lemma_made(steps, step, n - 1);
    }
}

proof fn lemma_one_more_step(plan: ProbingView, more: ProbingView, step: ProbeStepView)
    requires
        probes_in_order(plan),
        more.steps == plan.steps.push(step),
        match step {
            ProbeStepView::Open { directory, place } => {
                &&& more.directories == plan.directories.push(directory)
                &&& probe_of(plan.directories, directory, 0) >= plan.directories.len()
                &&& place matches ProbePlace::Inside(probe) ==> probe < plan.directories.len()
            },
            ProbeStepView::Put { probe, .. } => more.directories == plan.directories && probe
                < plan.directories.len(),
            ProbeStepView::Check { directory } => more.directories == plan.directories
                && directory.len() > 0,
        },
    ensures
        probes_in_order(more),
{
    if let ProbeStepView::Open { directory, .. } = step {
        lemma_probe_of(plan.directories, directory, 0);
    }
    lemma_made(plan.steps, step, plan.steps.len() as int);
    assert forall|k: int| 0 <= k < more.steps.len() implies match #[trigger] more.steps[k] {
        ProbeStepView::Open { place: ProbePlace::Inside(probe), .. } => probe < made(
            more.steps,
            k,
        ),
        ProbeStepView::Put { probe, .. } => probe < made(more.steps, k),
        ProbeStepView::Check { directory } => directory.len() > 0,
        _ => true,
    } by {
        lemma_made(plan.steps, step, k);
        if k < plan.steps.len() {
            assert(more.steps[k] == plan.steps[k]);
        }
    }
}

proof fn lemma_directory_in_order(
    plan: ProbingView,
    directory: Seq<char>,
    destination: TreeView,
    root_is_dir: bool,
)
    requires
        probes_in_order(plan),
        with_directory(plan, directory, destination, root_is_dir).directories.len() <= usize::MAX,
    ensures
        ({
            let more = with_directory(plan, directory, destination, root_is_dir);
            &&& probes_in_order(more)
            &&& plan.directories.len() <= more.directories.len()
            &&& forall|i: int|
                0 <= i < more.directories.len() ==> (if i < plan.directories.len() {
                    #[trigger] more.directories[i] == plan.directories[i]
                } else {
                    more.directories[i].len() <= directory.len()
                })
        }),
    decreases directory.len(),
{
    let more = with_directory(plan, directory, destination, root_is_dir);
    let is_existing = if directory.len() == 0 {
        root_is_dir
    } else {
        ordered::lookup(destination, directory) matches Some(entry) && entry.kind
            == SyncEntryKind::Directory
    };
    if probe_of(plan.directories, directory, 0) >= plan.directories.len() {
        let looked = checked(plan, directory);
        if directory.len() > 0 {
            lemma_one_more_step(plan, looked, ProbeStepView::Check { directory });
        }
        if directory.len() == 0 {
            let place = if is_existing {
                ProbePlace::Itself
            } else {
                ProbePlace::Above
            };
            lemma_one_more_step(plan, more, ProbeStepView::Open { directory, place });
        } else if is_existing {
            lemma_one_more_step(
                looked,
                more,
                ProbeStepView::Open { directory, place: ProbePlace::Itself },
            );
        } else {
            crate::path::lemma_last_at(directory, '/', directory.len() as int);
            let parent = in_directory(directory).0;
            let above = with_directory(looked, parent, destination, root_is_dir);
            assert(more.directories.len() == above.directories.len() + 1);
            lemma_directory_in_order(looked, parent, destination, root_is_dir);
            lemma_has_probe(looked, parent, destination, root_is_dir);
            lemma_probe_of(above.directories, parent, 0);
            lemma_probe_of(above.directories, directory, 0);
            lemma_probe_of(plan.directories, directory, 0);
            let place = ProbePlace::Inside(probe_of(above.directories, parent, 0) as usize);
            let at = probe_of(above.directories, directory, 0);
            if at < above.directories.len() {
                assert(above.directories[at] == directory);
                if at < plan.directories.len() {
                    assert(plan.directories[at] == directory);
                }
            }
            lemma_one_more_step(above, more, ProbeStepView::Open { directory, place });
        }
    }
}

proof fn lemma_names_in_order(plan: ProbingView, probe: usize, names: Names, n: int)
    requires
        probes_in_order(plan),
        probe < plan.directories.len(),
        0 <= n <= names.len(),
    ensures
        probes_in_order(with_names(plan, probe, names, n)),
        with_names(plan, probe, names, n).directories == plan.directories,
    decreases n,
{
    if n > 0 {
        lemma_names_in_order(plan, probe, names, n - 1);
        lemma_one_more_step(
            with_names(plan, probe, names, n - 1),
            with_names(plan, probe, names, n),
            ProbeStepView::Put { probe, name: names[n - 1].0 },
        );
    }
}

/// Names are only ever tried where there is something to try them in: a probe
/// lies in one that was made before it, a name goes into one that was, and no
/// directory has two.
pub proof fn probes_are_made_before_they_are_used(
    names: NamesByDirectory,
    destination: TreeView,
    root_is_dir: bool,
    n: int,
)
    requires
        0 <= n <= names.len(),
        probing(names, destination, root_is_dir, n).directories.len() <= usize::MAX,
    ensures
        probes_in_order(probing(names, destination, root_is_dir, n)),
    decreases n,
{
    if n > 0 {
        let (directory, inside) = names[n - 1];
        let before = probing(names, destination, root_is_dir, n - 1);
        let plan = with_directory(before, directory, destination, root_is_dir);
        let probe = probe_of(plan.directories, directory, 0) as usize;
        lemma_names_keep_directories(plan, probe, inside, inside.len() as int);
        lemma_directories_grow(before, directory, destination, root_is_dir);
        probes_are_made_before_they_are_used(names, destination, root_is_dir, n - 1);
        lemma_directory_in_order(before, directory, destination, root_is_dir);
        lemma_has_probe(before, directory, destination, root_is_dir);
        lemma_probe_of(plan.directories, directory, 0);
        lemma_names_in_order(plan, probe, inside, inside.len() as int);
    }
}

proof fn lemma_names_keep_directories(plan: ProbingView, probe: usize, names: Names, n: int)
    ensures
        with_names(plan, probe, names, n).directories == plan.directories,
    decreases n,
{
    if n > 0 {
        lemma_names_keep_directories(plan, probe, names, n - 1);
    }
}

proof fn lemma_directories_grow(
    plan: ProbingView,
    directory: Seq<char>,
    destination: TreeView,
    root_is_dir: bool,
)
    ensures
        plan.directories.len() <= with_directory(
            plan,
            directory,
            destination,
            root_is_dir,
        ).directories.len(),
    decreases directory.len(),
{
    if directory.len() > 0 {
        crate::path::lemma_last_at(directory, '/', directory.len() as int);
        lemma_directories_grow(
            checked(plan, directory),
            in_directory(directory).0,
            destination,
            root_is_dir,
        );
    }
}

} // verus!
