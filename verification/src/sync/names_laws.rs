//! What is tried out on the host before files of a box are written there.

use vstd::prelude::*;

use crate::error::Refusal;
use crate::host::HostOs;
use crate::ordered;
use crate::path;
use crate::sync::entry::TreeView;
use crate::sync::names::{
    self, Answers, Names, NamesByDirectory, ProbeStepView, ProbedNameView, ProbingView, PutResult,
};
use crate::sync::probes::{
    self, CaseRead, MadeProbeView, ProbeActionView, ProbeEvent, ProbeMove, ProbesStageView,
    ProbesView,
};
use crate::sync::scan;
use crate::text;

verus! {

/// A path is in the directory that is written before its last slash, under
/// what is written behind it; without a slash it is in the topmost one.
pub proof fn paths_end_in_their_name(directory: Seq<char>, name: Seq<char>)
    requires
        !name.contains('/'),
    ensures
        names::in_directory(directory.push('/') + name) == (directory, name),
        names::in_directory(name) == (Seq::<char>::empty(), name),
{
    let path = directory.push('/') + name;
    path::lemma_last_at(path, '/', path.len() as int);
    let slash = path::last_at(path, '/', path.len() as int);
    assert(path[directory.len() as int] == '/');
    assert(slash == directory.len()) by {
        if slash > directory.len() {
            assert(path[slash] == name[slash - directory.len() - 1]);
        }
    }
    assert(path.take(slash) =~= directory);
    assert(path.skip(slash + 1) =~= name);
    path::lemma_last_at(name, '/', name.len() as int);
    let none = path::last_at(name, '/', name.len() as int);
    if none >= 0 {
        assert(name[none] == '/');
    }
}

/// Whether a name is listed for a directory.
pub open spec fn lists(names: NamesByDirectory, directory: Seq<char>, name: Seq<char>) -> bool {
    match ordered::lookup(names, directory) {
        Some(inside) => ordered::has_key(inside, name),
        None => false,
    }
}

/// Whether one of the first paths of a tree ends in a name in a directory.
pub open spec fn holds(entries: TreeView, n: int, directory: Seq<char>, name: Seq<char>) -> bool {
    exists|i: int|
        0 <= i < n && (#[trigger] entries[i]).0.len() > 0 && names::in_directory(entries[i].0) == (
            directory,
            name,
        )
}

spec fn orderly(names: NamesByDirectory) -> bool {
    &&& ordered::keys_in_order(names)
    &&& forall|directory: Seq<char>|
        match #[trigger] ordered::lookup(names, directory) {
            Some(inside) => ordered::keys_in_order(inside),
            None => true,
        }
}

proof fn lemma_with_path(
    names: NamesByDirectory,
    path: Seq<char>,
    directory: Seq<char>,
    name: Seq<char>,
)
    requires
        orderly(names),
    ensures
        orderly(names::with_path(names, path)),
        lists(names::with_path(names, path), directory, name) <==> lists(names, directory, name)
            || path.len() > 0 && names::in_directory(path) == (directory, name),
{
    if path.len() > 0 {
        let (above, last) = names::in_directory(path);
        let inside = match ordered::lookup(names, above) {
            Some(inside) => inside,
            None => Seq::empty(),
        };
        let more = ordered::with_entry(inside, last, true);
        ordered::lemma_lookup_with_entry(inside, last, true, name);
        assert forall|other: Seq<char>|
            match #[trigger] ordered::lookup(ordered::with_entry(names, above, more), other) {
                Some(inside) => ordered::keys_in_order(inside),
                None => true,
            } by {
            ordered::lemma_lookup_with_entry(names, above, more, other);
            assert(match ordered::lookup(names, other) {
                Some(inside) => ordered::keys_in_order(inside),
                None => true,
            });
        }
        ordered::lemma_lookup_with_entry(names, above, more, directory);
    }
}

proof fn lemma_with_tree(
    names: NamesByDirectory,
    entries: TreeView,
    n: int,
    directory: Seq<char>,
    name: Seq<char>,
)
    requires
        orderly(names),
        0 <= n <= entries.len(),
    ensures
        orderly(names::with_tree(names, entries, n)),
        lists(names::with_tree(names, entries, n), directory, name) <==> lists(
            names,
            directory,
            name,
        ) || holds(entries, n, directory, name),
    decreases n,
{
    if n > 0 {
        lemma_with_tree(names, entries, n - 1, directory, name);
        lemma_with_path(
            names::with_tree(names, entries, n - 1),
            entries[n - 1].0,
            directory,
            name,
        );
        if holds(entries, n, directory, name) && !holds(entries, n - 1, directory, name) {
            let i = choose|i: int|
                0 <= i < n && (#[trigger] entries[i]).0.len() > 0 && names::in_directory(
                    entries[i].0,
                ) == (directory, name);
            assert(i == n - 1);
        }
        if names::in_directory(entries[n - 1].0) == (directory, name) && entries[n - 1].0.len()
            > 0 {
            assert(holds(entries, n, directory, name));
        }
    }
}

/// Every name of both trees is listed for the directory that it stands in, and
/// no other name is.
pub proof fn every_name_is_listed(
    source: TreeView,
    destination: TreeView,
    directory: Seq<char>,
    name: Seq<char>,
)
    ensures
        lists(names::names_of(source, destination), directory, name) <==> holds(
            source,
            source.len() as int,
            directory,
            name,
        ) || holds(destination, destination.len() as int, directory, name),
{
    let none: NamesByDirectory = Seq::empty();
    assert(orderly(none));
    lemma_with_tree(none, source, source.len() as int, directory, name);
    lemma_with_tree(
        names::with_tree(none, source, source.len() as int),
        destination,
        destination.len() as int,
        directory,
        name,
    );
}

/// Whether a plan puts a name into a probe for a directory.
pub open spec fn tries(plan: ProbingView, directory: Seq<char>, name: Seq<char>) -> bool {
    exists|k: int| 0 <= k < plan.steps.len() && puts(plan, #[trigger] plan.steps[k], directory, name)
}

/// Whether a step puts a name into a probe for a directory.
pub open spec fn puts(
    plan: ProbingView,
    step: ProbeStepView,
    directory: Seq<char>,
    name: Seq<char>,
) -> bool {
    match step {
        ProbeStepView::Put { probe, name: put } => {
            &&& put == name
            &&& probe < plan.directories.len()
            &&& plan.directories[probe as int] == directory
        },
        _ => false,
    }
}

spec fn is_put(step: ProbeStepView) -> bool {
    step is Put
}

proof fn lemma_directory_put_nothing(
    plan: ProbingView,
    directory: Seq<char>,
    destination: TreeView,
    root_is_dir: bool,
)
    ensures
        ({
            let more = names::with_directory(plan, directory, destination, root_is_dir);
            &&& plan.directories.len() <= more.directories.len()
            &&& plan.steps.len() <= more.steps.len()
            &&& more.directories.take(plan.directories.len() as int) == plan.directories
            &&& more.steps.take(plan.steps.len() as int) == plan.steps
            &&& forall|k: int|
                plan.steps.len() <= k < more.steps.len() ==> !is_put(#[trigger] more.steps[k])
            &&& names::probe_of(more.directories, directory, 0) < more.directories.len()
            &&& 0 <= names::probe_of(more.directories, directory, 0)
            &&& more.directories[names::probe_of(more.directories, directory, 0)] == directory
        }),
    decreases directory.len(),
{
    let more = names::with_directory(plan, directory, destination, root_is_dir);
    lemma_found(plan.directories, directory, 0);
    if names::probe_of(plan.directories, directory, 0) < plan.directories.len() {
        assert(more.directories.take(plan.directories.len() as int) =~= plan.directories);
        assert(more.steps.take(plan.steps.len() as int) =~= plan.steps);
    } else {
        if directory.len() > 0 {
            path::lemma_last_at(directory, '/', directory.len() as int);
            lemma_directory_put_nothing(
                names::checked(plan, directory),
                names::in_directory(directory).0,
                destination,
                root_is_dir,
            );
            let checked = names::checked(plan, directory);
            let above = names::with_directory(
                checked,
                names::in_directory(directory).0,
                destination,
                root_is_dir,
            );
            assert(above.steps.take(checked.steps.len() as int)[plan.steps.len() as int]
                == checked.steps[plan.steps.len() as int]);
            assert(above.steps.take(plan.steps.len() as int) =~= above.steps.take(
                checked.steps.len() as int,
            ).take(plan.steps.len() as int));
            assert(checked.steps.take(plan.steps.len() as int) =~= plan.steps);
            assert forall|k: int| plan.steps.len() <= k < more.steps.len() implies !is_put(
                #[trigger] more.steps[k],
            ) by {
                if k == plan.steps.len() {
                } else if k < above.steps.len() {
                    assert(!is_put(above.steps[k]));
                }
            }
            if more.directories.len() == above.directories.len() + 1 {
                assert(more.directories.take(plan.directories.len() as int)
                    =~= above.directories.take(plan.directories.len() as int));
            }
        }
        assert(more.directories.take(plan.directories.len() as int) =~= plan.directories);
        assert(more.steps.take(plan.steps.len() as int) =~= plan.steps);
        assert(more.directories.last() == directory);
        lemma_found(more.directories, directory, 0);
        assert(more.directories[more.directories.len() - 1] == directory);
    }
}

proof fn lemma_found(directories: Seq<Seq<char>>, directory: Seq<char>, from: int)
    requires
        0 <= from <= directories.len(),
    ensures
        from <= names::probe_of(directories, directory, from) <= directories.len(),
        names::probe_of(directories, directory, from) < directories.len()
            ==> directories[names::probe_of(directories, directory, from)] == directory,
        names::probe_of(directories, directory, from) == directories.len() ==> forall|i: int|
            from <= i < directories.len() ==> directories[i] != directory,
    decreases directories.len() - from,
{
    if from < directories.len() && directories[from] != directory {
        lemma_found(directories, directory, from + 1);
    }
}

proof fn lemma_names_put(plan: ProbingView, probe: usize, names: Names, n: int)
    requires
        0 <= n <= names.len(),
    ensures
        ({
            let more = names::with_names(plan, probe, names, n);
            &&& more.directories == plan.directories
            &&& more.steps.len() == plan.steps.len() + n
            &&& more.steps.take(plan.steps.len() as int) == plan.steps
            &&& forall|j: int|
                plan.steps.len() <= j < plan.steps.len() + n ==> #[trigger] more.steps[j]
                    == (ProbeStepView::Put { probe, name: names[j - plan.steps.len()].0 })
        }),
    decreases n,
{
    if n > 0 {
        lemma_names_put(plan, probe, names, n - 1);
        let before = names::with_names(plan, probe, names, n - 1);
        let more = names::with_names(plan, probe, names, n);
        assert(more.steps.take(plan.steps.len() as int) =~= before.steps.take(
            plan.steps.len() as int,
        ));
    } else {
        assert(plan.steps.take(plan.steps.len() as int) =~= plan.steps);
    }
}

/// Whether a name stands among the first directories of a listing.
pub open spec fn stands_listed(
    names: NamesByDirectory,
    n: int,
    directory: Seq<char>,
    name: Seq<char>,
) -> bool {
    exists|i: int, j: int|
        {
            &&& 0 <= i < n
            &&& 0 <= j < names[i].1.len()
            &&& names[i].0 == directory
            &&& (#[trigger] names[i].1[j]).0 == name
        }
}

proof fn lemma_probing(
    names: NamesByDirectory,
    destination: TreeView,
    root_is_dir: bool,
    n: int,
    directory: Seq<char>,
    name: Seq<char>,
)
    requires
        0 <= n <= names.len(),
        names::probing(names, destination, root_is_dir, n).directories.len() <= usize::MAX,
    ensures
        tries(names::probing(names, destination, root_is_dir, n), directory, name)
            <==> stands_listed(names, n, directory, name),
    decreases n,
{
    if n > 0 {
        let before = names::probing(names, destination, root_is_dir, n - 1);
        let (last, inside) = names[n - 1];
        let plan = names::with_directory(before, last, destination, root_is_dir);
        let probe = names::probe_of(plan.directories, last, 0);
        let after = names::probing(names, destination, root_is_dir, n);
        lemma_directory_put_nothing(before, last, destination, root_is_dir);
        lemma_names_put(plan, probe as usize, inside, inside.len() as int);
        lemma_probing(names, destination, root_is_dir, n - 1, directory, name);
        assert(after == names::with_names(plan, probe as usize, inside, inside.len() as int));
        assert forall|k: int| 0 <= k < before.steps.len() implies #[trigger] after.steps[k]
            == before.steps[k] by {
            assert(after.steps.take(plan.steps.len() as int)[k] == plan.steps[k]);
            assert(plan.steps.take(before.steps.len() as int)[k] == before.steps[k]);
        }
        assert forall|p: int| 0 <= p < before.directories.len() implies #[trigger] after.directories[p]
            == before.directories[p] by {
            assert(plan.directories.take(before.directories.len() as int)[p]
                == before.directories[p]);
        }
        if tries(before, directory, name) {
            let k = choose|k: int|
                0 <= k < before.steps.len() && puts(
                    before,
                    #[trigger] before.steps[k],
                    directory,
                    name,
                );
            assert(puts(after, after.steps[k], directory, name));
        }
        if stands_listed(names, n, directory, name) && !stands_listed(
            names,
            n - 1,
            directory,
            name,
        ) {
            let (i, j) = choose|i: int, j: int|
                {
                    &&& 0 <= i < n
                    &&& 0 <= j < names[i].1.len()
                    &&& names[i].0 == directory
                    &&& (#[trigger] names[i].1[j]).0 == name
                };
            assert(i == n - 1);
            let k = plan.steps.len() + j;
            assert(after.steps[k] == (ProbeStepView::Put {
                probe: probe as usize,
                name: inside[k - plan.steps.len()].0,
            }));
            assert(puts(after, after.steps[k], directory, name));
        }
        if tries(after, directory, name) {
            let k = choose|k: int|
                0 <= k < after.steps.len() && puts(
                    after,
                    #[trigger] after.steps[k],
                    directory,
                    name,
                );
            if k < before.steps.len() {
                lemma_puts_were_made(names, destination, root_is_dir, n - 1, k);
                assert(puts(before, before.steps[k], directory, name));
                assert(stands_listed(names, n - 1, directory, name));
            } else if k < plan.steps.len() {
                assert(after.steps.take(plan.steps.len() as int)[k] == plan.steps[k]);
                assert(!is_put(plan.steps[k]));
            } else {
                let j = k - plan.steps.len();
                assert(names[n - 1].1[j].0 == name);
                assert(stands_listed(names, n, directory, name));
            }
        }
    }
}

proof fn lemma_puts_were_made(
    names: NamesByDirectory,
    destination: TreeView,
    root_is_dir: bool,
    n: int,
    k: int,
)
    requires
        0 <= n <= names.len(),
        names::probing(names, destination, root_is_dir, n).directories.len() <= usize::MAX,
        0 <= k < names::probing(names, destination, root_is_dir, n).steps.len(),
    ensures
        ({
            let plan = names::probing(names, destination, root_is_dir, n);
            plan.steps[k] matches ProbeStepView::Put { probe, .. } ==> probe
                < plan.directories.len()
        }),
    decreases n,
{
    if n > 0 {
        let before = names::probing(names, destination, root_is_dir, n - 1);
        let (last, inside) = names[n - 1];
        let plan = names::with_directory(before, last, destination, root_is_dir);
        let probe = names::probe_of(plan.directories, last, 0);
        let after = names::probing(names, destination, root_is_dir, n);
        lemma_directory_put_nothing(before, last, destination, root_is_dir);
        lemma_names_put(plan, probe as usize, inside, inside.len() as int);
        if k < plan.steps.len() {
            assert(after.steps.take(plan.steps.len() as int)[k] == plan.steps[k]);
            if k < before.steps.len() {
                assert(plan.steps.take(before.steps.len() as int)[k] == before.steps[k]);
                lemma_puts_were_made(names, destination, root_is_dir, n - 1, k);
            } else {
                assert(!is_put(plan.steps[k]));
            }
        }
    }
}

/// Every name that is listed is put into a probe for its directory, and no
/// other name into any.
pub proof fn every_listed_name_is_tried(
    names: NamesByDirectory,
    destination: TreeView,
    root_is_dir: bool,
    directory: Seq<char>,
    name: Seq<char>,
)
    requires
        names::probing(names, destination, root_is_dir, names.len() as int).directories.len()
            <= usize::MAX,
    ensures
        tries(
            names::probing(names, destination, root_is_dir, names.len() as int),
            directory,
            name,
        ) <==> stands_listed(names, names.len() as int, directory, name),
{
    lemma_probing(names, destination, root_is_dir, names.len() as int, directory, name);
}

/// A name that was looked up is what the host answered; one that nobody asked
/// about is what it is; one that could not be read is refused.
pub proof fn names_are_what_the_host_answers(
    answers: Answers,
    directory: Seq<char>,
    name: Seq<char>,
    found: Seq<char>,
)
    ensures
        !ordered::has_key(answers, directory) ==> names::name_on_host(answers, directory, name)
            == Ok::<_, Refusal>(name),
        ordered::has_key(answers, directory) ==> {
            let inside = ordered::lookup(answers, directory)->0;
            &&& !ordered::has_key(inside, name) ==> names::name_on_host(answers, directory, name)
                == Ok::<_, Refusal>(name)
            &&& ordered::lookup(inside, name) == Some(ProbedNameView::Named(found))
                ==> names::name_on_host(answers, directory, name) == Ok::<_, Refusal>(found)
            &&& (ordered::lookup(inside, name) matches Some(ProbedNameView::Unread(_)))
                ==> names::name_on_host(answers, directory, name) is Err
        },
{
}

/// A directory and the probe in it must tell names apart alike: on Windows
/// their flags must be the same, elsewhere the flag that folds case, and a
/// file system that does not say stands only beside one that does not
/// either. Settings that cannot be read are refused.
pub proof fn probes_compare_names_as_their_directory_does(
    one: CaseRead,
    other: CaseRead,
    os: HostOs,
)
    ensures
        probes::comparison_verdict(one, other, os) is Ok <==> match (one, other) {
            (CaseRead::Flags(a), CaseRead::Flags(b)) => if os == HostOs::Windows {
                a == b
            } else {
                a & 0x4000_0000 == b & 0x4000_0000
            },
            (CaseRead::Unknown, CaseRead::Unknown) => true,
            _ => false,
        },
{
}

/// The probes are closed well where they could be removed and the time of
/// their directory was set back.
pub proof fn probes_close_well_where_nothing_went_wrong(
    removed: Option<Seq<char>>,
    restored: Option<Seq<char>>,
)
    ensures
        probes::closing_verdict(removed, restored) is Ok <==> removed is None && restored is None,
{
}

/// Whether a probing has turned back: it takes its probes away, and what went
/// wrong is kept.
pub open spec fn turned_back(m: ProbesView) -> bool {
    match m.stage {
        ProbesStageView::Removing(_, ending) => ending.failed is Some,
        ProbesStageView::Over(ending) => ending.failed is Some,
        _ => false,
    }
}

/// A name that was put into its probe lets a probing go on to the next step;
/// one that something else answers to already, that cannot be read or cannot
/// be made turns it back.
pub proof fn names_that_clash_are_noticed(m: ProbesView, came: PutResult)
    requires
        m.stage is Putting,
    ensures
        ({
            let next = probes::probes_after(m, ProbeEvent::Put(came));
            &&& came is Put ==> next.at == m.at + 1 && next.made == m.made && !turned_back(next)
            &&& !(came is Put) ==> turned_back(next) && next.at == m.at
        }),
{
}

/// Where a directory is to be, something else is in the way: that turns a
/// probing back. Nothing at all there is no obstacle, nor is a directory.
pub proof fn only_directories_lead_on(m: ProbesView, is_existing: bool, is_dir: bool)
    requires
        m.stage is Checking,
    ensures
        turned_back(probes::probes_after(m, ProbeEvent::Inspected { is_existing, is_dir }))
            <==> is_existing && !is_dir,
{
}

/// A probe is made where the directory is found; where there is none the
/// search goes up, one step at a time.
pub proof fn probes_are_made_in_the_nearest_directory(m: ProbesView, path: Seq<char>)
    requires
        m.stage == ProbesStageView::Searching(path),
    ensures
        ({
            let found = probes::probes_after(m, ProbeEvent::IsDirectory(true));
            let above = probes::probes_after(m, ProbeEvent::IsDirectory(false));
            &&& probes::probes_ask(found) == Some(ProbeActionView::Open { path })
            &&& probes::probes_ask(probes::probes_after(found, ProbeEvent::Done)) == Some(
                ProbeActionView::Stage { parent: path },
            )
            &&& path::parent(path) is None ==> turned_back(above)
            &&& path::parent(path) is Some && path::parent(path)->0.len() > 0
                ==> probes::probes_ask(above) == Some(
                ProbeActionView::FindDirectory { path: path::parent(path)->0 },
            )
        }),
{
}

spec fn keeps_step(m: ProbesView) -> bool {
    let inside = 0 <= m.at < m.steps.len();
    match m.stage {
        ProbesStageView::Checking(_) => inside && m.steps[m.at] is Check,
        ProbesStageView::Searching(_)
        | ProbesStageView::Opening(_)
        | ProbesStageView::Staging(_)
        | ProbesStageView::Naming
        | ProbesStageView::Comparing
        | ProbesStageView::ComparingParent => inside && m.steps[m.at] is Open,
        ProbesStageView::Putting => inside && m.steps[m.at] is Put,
        ProbesStageView::Ready => m.at >= m.steps.len(),
        _ => true,
    }
}

/// Whether, before a point of a run, a step was under way and its name went
/// into the probe.
pub open spec fn was_put(stages: Seq<ProbesView>, moves: Seq<ProbeMove>, k: int, step: int) -> bool {
    exists|j: int|
        {
            &&& 0 <= j < k
            &&& stages[j].at == step
            &&& (#[trigger] moves[j] matches ProbeMove::Told(ProbeEvent::Put(came)) && came is Put)
        }
}

proof fn lemma_steps_done(
    root: Seq<char>,
    steps: Seq<ProbeStepView>,
    os: HostOs,
    stages: Seq<ProbesView>,
    moves: Seq<ProbeMove>,
    k: int,
)
    requires
        probes::probes_run(root, steps, os, stages, moves),
        0 <= k <= moves.len(),
    ensures
        stages[k].steps == steps,
        0 <= stages[k].at,
        keeps_step(stages[k]),
        forall|i: int|
            0 <= i < stages[k].at && i < steps.len() && (#[trigger] steps[i]) is Put ==> was_put(
                stages,
                moves,
                k,
                i,
            ),
    decreases k,
{
    if k > 0 {
        lemma_steps_done(root, steps, os, stages, moves, k - 1);
        let before = stages[k - 1];
        let after = stages[k];
        assert(after == probes::moved(before, moves[k - 1]));
        assert forall|i: int|
            0 <= i < after.at && i < steps.len() && (#[trigger] steps[i]) is Put implies was_put(
            stages,
            moves,
            k,
            i,
        ) by {
            if i < before.at {
                assert(was_put(stages, moves, k - 1, i));
                let j = choose|j: int|
                    {
                        &&& 0 <= j < k - 1
                        &&& stages[j].at == i
                        &&& (#[trigger] moves[j] matches ProbeMove::Told(ProbeEvent::Put(came)) && came is Put)
                    };
                assert(0 <= j < k && stages[j].at == i);
            } else {
                assert(i == before.at);
                assert(before.stage is Putting);
                assert(stages[k - 1].at == i);
                assert(moves[k - 1] matches ProbeMove::Told(ProbeEvent::Put(came)) && came is Put);
            }
        }
    }
}

/// Once the probes are ready, every name of the plan went into its probe, and
/// every one of them was the first to be found there.
pub proof fn ready_probes_hold_every_name(
    root: Seq<char>,
    steps: Seq<ProbeStepView>,
    os: HostOs,
    stages: Seq<ProbesView>,
    moves: Seq<ProbeMove>,
    k: int,
    step: int,
)
    requires
        probes::probes_run(root, steps, os, stages, moves),
        0 <= k <= moves.len(),
        stages[k].stage is Ready,
        0 <= step < steps.len(),
        steps[step] is Put,
    ensures
        was_put(stages, moves, k, step),
{
    lemma_steps_done(root, steps, os, stages, moves, k);
    assert(steps[step] is Put);
}

/// A name goes into the probe of its step, below the directory set apart for
/// names.
pub proof fn names_are_put_into_their_probe(m: ProbesView, probe: usize, name: Seq<char>)
    requires
        m.stage is Putting,
        m.steps[m.at] == (ProbeStepView::Put { probe, name }),
        m.made[probe as int].path.len() > 0,
        m.made[probe as int].path.last() != '/',
        name.len() > 0,
        name[0] != '/',
    ensures
        probes::probes_ask(m) == Some(
            ProbeActionView::Put { path: m.made[probe as int].path + "/names/"@ + name, name },
        ),
{
    reveal_strlit("/names/");
    reveal_strlit("names");
    let path = m.made[probe as int].path;
    crate::basics::paths_are_put_behind_directories(path, "names"@);
    let inside = path::placed(path, "names"@);
    assert(inside.last() == 's');
    crate::basics::paths_are_put_behind_directories(inside, name);
    assert(inside + seq!['/'] + name =~= path + "/names/"@ + name);
}

proof fn lemma_probe_for(made: Seq<MadeProbeView>, directory: Seq<char>, from: int)
    requires
        0 <= from <= made.len(),
    ensures
        from <= probes::probe_for(made, directory, from) <= made.len(),
        probes::probe_for(made, directory, from) < made.len() ==> made[probes::probe_for(
            made,
            directory,
            from,
        )].directory == directory,
        forall|i: int|
            from <= i < probes::probe_for(made, directory, from) ==> made[i].directory
                != directory,
    decreases made.len() - from,
{
    if from < made.len() && made[from].directory != directory {
        lemma_probe_for(made, directory, from + 1);
    }
}

/// A name is looked up in the first probe that was made for its directory;
/// where none was, it is not looked up.
pub proof fn names_are_looked_up_where_they_were_put(
    made: Seq<MadeProbeView>,
    directory: Seq<char>,
    name: Seq<char>,
    probe: int,
)
    requires
        name.len() > 0,
        name[0] != '/',
    ensures
        (forall|i: int| 0 <= i < made.len() ==> (#[trigger] made[i]).directory != directory)
            <==> probes::looked_up_at(made, directory, name) is None,
        0 <= probe < made.len() && made[probe].directory == directory && (forall|i: int|
            0 <= i < probe ==> (#[trigger] made[i]).directory != directory)
            && made[probe].path.len() > 0 && made[probe].path.last() != '/'
            ==> probes::looked_up_at(made, directory, name) == Some(
            made[probe].path + "/names/"@ + name,
        ),
{
    lemma_probe_for(made, directory, 0);
    let found = probes::probe_for(made, directory, 0);
    if found < made.len() {
        assert(made[found].directory == directory);
    }
    if 0 <= probe < made.len() && made[probe].directory == directory && (forall|i: int|
        0 <= i < probe ==> (#[trigger] made[i]).directory != directory) && made[probe].path.len()
        > 0 && made[probe].path.last() != '/' {
        assert(found == probe);
        reveal_strlit("/names/");
        reveal_strlit("names");
        let path = made[probe].path;
        crate::basics::paths_are_put_behind_directories(path, "names"@);
        let inside = path::placed(path, "names"@);
        assert(inside.last() == 's');
        crate::basics::paths_are_put_behind_directories(inside, name);
        assert(inside + seq!['/'] + name =~= path + "/names/"@ + name);
    }
}

/// What comes of a probing that is over: what went wrong, or the answers and
/// how it was closed. Before that nothing does.
pub proof fn probings_come_to_what_happened(m: ProbesView, answers: Answers, refused: Refusal)
    ensures
        probes::names_tried(m, answers) is Some <==> m.stage is Over,
        m.stage matches ProbesStageView::Over(ending) ==> {
            &&& ending.failed == Some(refused) ==> probes::names_tried(m, answers) == Some(
                Err::<names::HostNamesView, _>(refused),
            )
            &&& ending.failed is None ==> {
                &&& probes::names_tried(m, answers)->0 is Ok
                &&& probes::names_tried(m, answers)->0->Ok_0.answers == answers
                &&& probes::names_tried(m, answers)->0->Ok_0.closed == ending.closed
            }
        },
{
}

proof fn lemma_steps_down(root: Seq<char>, names: Seq<Seq<char>>, i: int)
    requires
        0 <= i < names.len(),
    ensures
        scan::steps_down(root, names).len() == names.len() + 1,
        scan::steps_down(root, names)[0] == root,
        scan::steps_down(root, names)[i + 1] == path::placed(
            scan::steps_down(root, names)[i],
            names[i],
        ),
    decreases names.len(),
{
    let above = scan::steps_down(root, names.drop_last());
    if names.len() > 1 {
        lemma_steps_down(root, names.drop_last(), if i < names.len() - 1 { i } else { 0 });
    }
    assert(above.len() == names.len());
}

/// The way to a path leads from the root one name at a time; to the root
/// itself it is the root alone.
pub proof fn ways_lead_down_name_by_name(root: Seq<char>, relative: Seq<char>, i: int)
    ensures
        relative.len() == 0 ==> scan::host_path_steps(root, relative) == seq![root],
        relative.len() > 0 ==> {
            let way = scan::host_path_steps(root, relative);
            let names = text::pieces(relative, '/');
            &&& way.len() == names.len() + 1
            &&& way[0] == root
            &&& 0 <= i < names.len() ==> way[i + 1] == path::placed(way[i], names[i])
        },
{
    if relative.len() > 0 {
        let names = text::pieces(relative, '/');
        text::lemma_pieces_nonempty(relative, '/');
        lemma_steps_down(root, names, if 0 <= i < names.len() { i } else { 0 });
    }
}

/// A probe that was made has a directory for names in it, and that must compare
/// names as the probe does, and where the probe stands for a directory itself as
/// that directory does; a Mac has no settings to compare.
pub proof fn probes_are_compared_before_they_are_used(
    m: ProbesView,
    parent: Seq<char>,
    path: String,
    one: CaseRead,
    other: CaseRead,
)
    requires
        0 <= m.at < m.steps.len(),
        m.steps[m.at] is Open,
    ensures
        ({
            let staging = ProbesView { stage: ProbesStageView::Staging(parent), ..m };
            let made = probes::probes_after(staging, ProbeEvent::Staged(path));
            let named = probes::probes_after(made, ProbeEvent::Done);
            let names = path::placed(path@, "names"@);
            let compared = probes::probes_after(named, ProbeEvent::Compared(one, other));
            &&& made.made == m.made.push(
                MadeProbeView {
                    directory: match m.steps[m.at] {
                        ProbeStepView::Open { directory, .. } => directory,
                        _ => Seq::empty(),
                    },
                    parent,
                    path: path@,
                },
            )
            &&& probes::probes_ask(made) == Some(ProbeActionView::MakeDirectory { path: names })
            &&& m.os == HostOs::MacOs ==> named.at == m.at + 1 && !turned_back(named)
            &&& m.os != HostOs::MacOs ==> {
                &&& probes::probes_ask(named) == Some(
                    ProbeActionView::Compare { one: path@, other: names },
                )
                &&& turned_back(compared) <==> probes::comparison_verdict(one, other, m.os) is Err
                &&& probes::comparison_verdict(one, other, m.os) is Ok ==> {
                    &&& (m.steps[m.at] matches ProbeStepView::Open {
                        place: names::ProbePlace::Itself,
                        ..
                    }) ==> probes::probes_ask(compared) == Some(
                        ProbeActionView::Compare { one: parent, other: names },
                    )
                    &&& !(m.steps[m.at] matches ProbeStepView::Open {
                        place: names::ProbePlace::Itself,
                        ..
                    }) ==> compared.at == m.at + 1
                }
            }
        }),
{
}

} // verus!
