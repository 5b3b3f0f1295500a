//! Which names a destination has to be asked for before the links of a
//! transfer are checked.

use crate::error::Refusal;
use crate::host::HostOs;
use crate::ordered;
use crate::sync::entry::{SyncRules, Tree, TreeView};
use crate::sync::links::{self, BranchView, Links, MAX_SYNC_LINK_WORK_BYTES, TargetsView};
use crate::sync::names::{self, Answers};
use crate::sync::security;
use crate::text::{self, split_text};
use vstd::prelude::*;

verus! {

/// The steps of the targets of the links among the first `n` entries.
pub open spec fn link_steps(tree: TreeView, n: int) -> Seq<Seq<char>>
    decreases n,
{
    if n <= 0 {
        Seq::empty()
    } else {
        link_steps(tree, n - 1) + (match tree[n - 1].1.link_target {
            Some(target) => text::pieces(target, '/'),
            None => Seq::empty(),
        })
    }
}

/// The names to be looked up in every directory that is tried: each step of
/// each link, of both trees.
pub open spec fn lookups(source: TreeView, destination: TreeView) -> Seq<Seq<char>> {
    link_steps(source, source.len() as int) + link_steps(destination, destination.len() as int)
}

fn append_link_steps(list: &mut Vec<String>, tree: &Tree)
    ensures
        text::texts(final(list)@) == text::texts(old(list)@) + link_steps(tree@, tree@.len() as int),
{
    let ghost start = text::texts(list@);
    let n: usize = tree.len();
    let mut i: usize = 0;
    proof {
        assert(text::texts(list@) =~= start + link_steps(tree@, 0));
    }
    while i < n
        invariant
            i <= n == tree@.len(),
            text::texts(list@) == start + link_steps(tree@, i as int),
        decreases n - i,
    {
        let ghost before = text::texts(list@);
        if let Some(target) = &tree.value_at(i).link_target {
            let mut steps = split_text(target.as_str(), '/');
            let ghost more = text::texts(steps@);
            list.append(&mut steps);
            proof {
                assert(text::texts(list@) =~= before + more);
            }
        }
        proof {
            assert(text::texts(list@) =~= start + link_steps(tree@, i + 1));
        }
        i = i + 1;
    }
}

/// The names a destination is asked for, in every directory whose names are
/// tried. A dot or two among them mean no name and are never asked for.
pub fn list_lookups(source: &Tree, destination: &Tree) -> (steps: Vec<String>)
    ensures
        text::texts(steps@) == lookups(source@, destination@),
{
    let mut steps: Vec<String> = Vec::new();
    append_link_steps(&mut steps, source);
    append_link_steps(&mut steps, destination);
    proof {
        assert(text::texts(steps@) =~= lookups(source@, destination@));
    }
    steps
}

/// Whether two sets of answers say the same of some names, wherever they are
/// looked up.
pub open spec fn agree(a: Answers, b: Answers, list: Seq<Seq<char>>) -> bool {
    forall|directory: Seq<char>, name: Seq<char>|
        list.contains(name) ==> #[trigger] names::name_on_host(a, directory, name)
            == names::name_on_host(b, directory, name)
}

spec fn covers(list: Seq<Seq<char>>, steps: Seq<Seq<char>>) -> bool {
    forall|i: int| 0 <= i < steps.len() ==> list.contains(#[trigger] steps[i])
}

spec fn covers_target(list: Seq<Seq<char>>, target: Option<Seq<char>>) -> bool {
    match target {
        Some(target) => covers(list, text::pieces(target, '/')),
        None => true,
    }
}

spec fn covers_links(list: Seq<Seq<char>>, links: Links) -> bool {
    forall|key: Seq<char>|
        match #[trigger] ordered::lookup(links, key) {
            Some(targets) => covers_target(list, targets.incoming) && covers_target(
                list,
                targets.existing,
            ),
            None => true,
        }
}

proof fn lemma_steps_of(tree: TreeView, n: int, i: int)
    requires
        0 <= i < n <= tree.len(),
    ensures
        covers_target(link_steps(tree, n), tree[i].1.link_target),
    decreases n,
{
    let list = link_steps(tree, n);
    let before = link_steps(tree, n - 1);
    if let Some(target) = tree[i].1.link_target {
        let steps = text::pieces(target, '/');
        assert forall|k: int| 0 <= k < steps.len() implies list.contains(#[trigger] steps[k]) by {
            if i < n - 1 {
                lemma_steps_of(tree, n - 1, i);
                assert(before.contains(steps[k]));
                let at = choose|at: int| 0 <= at < before.len() && before[at] == steps[k];
                assert(list[at] == steps[k]);
            } else {
                assert(list[before.len() + k] == steps[k]);
            }
        }
    }
}

/// Every target a tree has under a path is covered.
proof fn lemma_target_covered(source: TreeView, destination: TreeView, path: Seq<char>)
    ensures
        covers_target(lookups(source, destination), links::target_at(source, path)),
        covers_target(lookups(source, destination), links::target_at(destination, path)),
{
    let list = lookups(source, destination);
    let first = link_steps(source, source.len() as int);
    let second = link_steps(destination, destination.len() as int);
    ordered::lemma_lookup(source, path);
    ordered::lemma_lookup(destination, path);
    if let Some(entry) = ordered::lookup(source, path) {
        let i = choose|i: int| 0 <= i < source.len() && #[trigger] source[i] == (path, entry);
        lemma_steps_of(source, source.len() as int, i);
        if let Some(target) = entry.link_target {
            let steps = text::pieces(target, '/');
            assert forall|k: int| 0 <= k < steps.len() implies list.contains(#[trigger] steps[k]) by {
                assert(first.contains(steps[k]));
                let at = choose|at: int| 0 <= at < first.len() && first[at] == steps[k];
                assert(list[at] == steps[k]);
            }
        }
    }
    if let Some(entry) = ordered::lookup(destination, path) {
        let i = choose|i: int|
            0 <= i < destination.len() && #[trigger] destination[i] == (path, entry);
        lemma_steps_of(destination, destination.len() as int, i);
        if let Some(target) = entry.link_target {
            let steps = text::pieces(target, '/');
            assert forall|k: int| 0 <= k < steps.len() implies list.contains(#[trigger] steps[k]) by {
                assert(second.contains(steps[k]));
                let at = choose|at: int| 0 <= at < second.len() && second[at] == steps[k];
                assert(list[first.len() + at] == steps[k]);
            }
        }
    }
}

proof fn lemma_links_covered(
    links: Links,
    entries: TreeView,
    n: int,
    source: TreeView,
    destination: TreeView,
    host: HostOs,
)
    requires
        ordered::keys_in_order(links),
        covers_links(lookups(source, destination), links),
    ensures
        ordered::keys_in_order(links::links_among(links, entries, n, source, destination, host)),
        covers_links(
            lookups(source, destination),
            links::links_among(links, entries, n, source, destination, host),
        ),
    decreases n,
{
    if n > 0 {
        let list = lookups(source, destination);
        lemma_links_covered(links, entries, n - 1, source, destination, host);
        let before = links::links_among(links, entries, n - 1, source, destination, host);
        let all = links::links_among(links, entries, n, source, destination, host);
        let (path, entry) = entries[n - 1];
        if entry.link_target is Some {
            let key = security::lookup_key(host, path);
            let targets = TargetsView {
                incoming: links::target_at(source, path),
                existing: links::target_at(destination, path),
            };
            lemma_target_covered(source, destination, path);
            ordered::lemma_lookup_with_entry(before, key, targets, key);
            assert forall|other: Seq<char>|
                (match #[trigger] ordered::lookup(all, other) {
                    Some(found) => covers_target(list, found.incoming) && covers_target(
                        list,
                        found.existing,
                    ),
                    None => true,
                }) by {
                ordered::lemma_lookup_with_entry(before, key, targets, other);
                assert(ordered::lookup(before, other) is None || ordered::lookup(before, other)
                    is Some);
            }
        }
    }
}

spec fn covers_branches(list: Seq<Seq<char>>, branches: Seq<BranchView>) -> bool {
    forall|i: int| 0 <= i < branches.len() ==> covers(list, (#[trigger] branches[i]).pending)
}

proof fn lemma_covers_push(list: Seq<Seq<char>>, branches: Seq<BranchView>, more: BranchView)
    requires
        covers_branches(list, branches),
        covers(list, more.pending),
    ensures
        covers_branches(list, branches.push(more)),
{
    let all = branches.push(more);
    assert forall|i: int| 0 <= i < all.len() implies covers(list, (#[trigger] all[i]).pending) by {
        if i < branches.len() {
            assert(all[i] == branches[i]);
        }
    }
}

/// A branch led on by a target that is covered is covered.
proof fn lemma_covers_taken(
    list: Seq<Seq<char>>,
    branch: BranchView,
    name: Seq<char>,
    target: Option<Seq<char>>,
    remaining: nat,
    rules: SyncRules,
)
    requires
        covers(list, branch.pending),
        covers_target(list, target),
        links::taken(branch, name, target, remaining, rules).0 is Ok,
    ensures
        covers(list, links::taken(branch, name, target, remaining, rules).0->Ok_0.pending),
{
    if let Some(link) = target {
        let steps = text::pieces(link, '/');
        let pending = steps + branch.pending;
        assert forall|k: int| 0 <= k < pending.len() implies list.contains(#[trigger] pending[k]) by {
            if k < steps.len() {
                assert(pending[k] == steps[k]);
            } else {
                assert(pending[k] == branch.pending[k - steps.len()]);
            }
        }
    }
}

#[verifier::spinoff_prover]
#[verifier::rlimit(60)]
proof fn lemma_walks_agree(
    list: Seq<Seq<char>>,
    branches: Seq<BranchView>,
    remaining: nat,
    links: Links,
    a: Answers,
    b: Answers,
    rules: SyncRules,
)
    requires
        agree(a, b, list),
        covers_links(list, links),
        covers_branches(list, branches),
    ensures
        links::walk(branches, remaining, links, a, rules) == links::walk(
            branches,
            remaining,
            links,
            b,
            rules,
        ),
    decreases remaining, branches.len(),
{
    if branches.len() > 0 {
        let branch = branches.last();
        let others = branches.drop_last();
        assert(covers_branches(list, others)) by {
            assert forall|i: int| 0 <= i < others.len() implies covers(
                list,
                (#[trigger] others[i]).pending,
            ) by {
                assert(others[i] == branches[i]);
            }
        }
        assert(covers(list, branches[branches.len() - 1].pending));
        if branch.pending.len() == 0 {
            lemma_walks_agree(list, others, remaining, links, a, b, rules);
        } else {
            let component = branch.pending[0];
            let pending = branch.pending.drop_first();
            assert(covers(list, pending)) by {
                assert forall|k: int| 0 <= k < pending.len() implies list.contains(
                    #[trigger] pending[k],
                ) by {
                    assert(pending[k] == branch.pending[k + 1]);
                }
            }
            if remaining >= text::utf8_len(component) + 1 {
                let left = (remaining - text::utf8_len(component) - 1) as nat;
                if component.len() == 0 || component == seq!['.'] {
                    let next = BranchView { pending, ..branch };
                    lemma_covers_push(list, others, next);
                    lemma_walks_agree(list, others.push(next), left, links, a, b, rules);
                } else if component == seq!['.', '.'] {
                    let next = BranchView {
                        resolved: branch.resolved.drop_last(),
                        pending,
                        followed: branch.followed,
                    };
                    lemma_covers_push(list, others, next);
                    lemma_walks_agree(list, others.push(next), left, links, a, b, rules);
                } else {
                    let parent = text::joined(branch.resolved, "/"@);
                    assert(list.contains(component));
                    assert(names::name_on_host(a, parent, component) == names::name_on_host(
                        b,
                        parent,
                        component,
                    ));
                    if let Ok(found) = names::name_on_host(a, parent, component) {
                        lemma_found_agree(
                            list,
                            others,
                            BranchView {
                                resolved: branch.resolved.push(found),
                                pending,
                                followed: branch.followed,
                            },
                            left,
                            remaining,
                            links,
                            a,
                            b,
                            rules,
                        );
                    }
                }
            }
        }
    }
}

/// What a walk makes of a branch that has come to a name.
spec fn walk_on(
    others: Seq<BranchView>,
    next: BranchView,
    left: nat,
    links: Links,
    names: Answers,
    rules: SyncRules,
) -> (Result<(), Refusal>, nat) {
    let name = text::joined(next.resolved, "/"@);
    if left < text::utf8_len(name) {
        (Err(links::work_limit()), left)
    } else {
        let left = (left - text::utf8_len(name)) as nat;
        match ordered::lookup(links, security::lookup_key(rules.host, name)) {
            None => links::walk(others.push(next), left, links, names, rules),
            Some(targets) => {
                let (first, left) = links::taken(next, name, targets.incoming, left, rules);
                match first {
                    Err(refused) => (Err(refused), left),
                    Ok(one) => if targets.existing == targets.incoming {
                        links::walk(others.push(one), left, links, names, rules)
                    } else {
                        let (second, left) = links::taken(
                            next,
                            name,
                            targets.existing,
                            left,
                            rules,
                        );
                        match second {
                            Err(refused) => (Err(refused), left),
                            Ok(two) => links::walk(
                                others.push(one).push(two),
                                left,
                                links,
                                names,
                                rules,
                            ),
                        }
                    },
                }
            },
        }
    }
}

proof fn lemma_found_agree(
    list: Seq<Seq<char>>,
    others: Seq<BranchView>,
    next: BranchView,
    left: nat,
    remaining: nat,
    links: Links,
    a: Answers,
    b: Answers,
    rules: SyncRules,
)
    requires
        agree(a, b, list),
        covers_links(list, links),
        covers_branches(list, others),
        covers(list, next.pending),
        left < remaining,
    ensures
        walk_on(others, next, left, links, a, rules) == walk_on(others, next, left, links, b, rules),
    decreases remaining, 0nat,
{
    let name = text::joined(next.resolved, "/"@);
    let key = security::lookup_key(rules.host, name);
    if left >= text::utf8_len(name) {
        let left = (left - text::utf8_len(name)) as nat;
        match ordered::lookup(links, key) {
            None => {
                lemma_covers_push(list, others, next);
                lemma_walks_agree(list, others.push(next), left, links, a, b, rules);
            },
            Some(targets) => {
                let (first, left_one) = links::taken(next, name, targets.incoming, left, rules);
                if let Ok(one) = first {
                    lemma_covers_taken(list, next, name, targets.incoming, left, rules);
                    lemma_covers_push(list, others, one);
                    if targets.existing == targets.incoming {
                        lemma_walks_agree(list, others.push(one), left_one, links, a, b, rules);
                    } else {
                        let (second, left_two) = links::taken(
                            next,
                            name,
                            targets.existing,
                            left_one,
                            rules,
                        );
                        if let Ok(two) = second {
                            lemma_covers_taken(list, next, name, targets.existing, left_one, rules);
                            lemma_covers_push(list, others.push(one), two);
                            lemma_walks_agree(
                                list,
                                others.push(one).push(two),
                                left_two,
                                links,
                                a,
                                b,
                                rules,
                            );
                        }
                    }
                }
            },
        }
    }
}

proof fn lemma_links_agree(
    source: TreeView,
    destination: TreeView,
    n: int,
    links: Links,
    a: Answers,
    b: Answers,
    remaining: nat,
    rules: SyncRules,
)
    requires
        agree(a, b, lookups(source, destination)),
        covers_links(lookups(source, destination), links),
        n <= source.len(),
    ensures
        links::resolved_among(source, n, links, a, remaining, rules) == links::resolved_among(
            source,
            n,
            links,
            b,
            remaining,
            rules,
        ),
    decreases n,
{
    if n > 0 {
        lemma_links_agree(source, destination, n - 1, links, a, b, remaining, rules);
        let list = lookups(source, destination);
        let first = link_steps(source, source.len() as int);
        let (path, entry) = source[n - 1];
        if let Some(target) = entry.link_target {
            lemma_steps_of(source, source.len() as int, n - 1);
            let branch = links::first_branch(path, target);
            assert forall|k: int| 0 <= k < branch.pending.len() implies list.contains(
                #[trigger] branch.pending[k],
            ) by {
                assert(first.contains(branch.pending[k]));
                let at = choose|at: int| 0 <= at < first.len() && first[at] == branch.pending[k];
                assert(list[at] == branch.pending[k]);
            }
            let left = links::resolved_among(source, n - 1, links, a, remaining, rules).1;
            let cost = text::utf8_len(path) + text::utf8_len(target) + 1;
            if left >= cost {
                lemma_walks_agree(list, seq![branch], (left - cost) as nat, links, a, b, rules);
            }
        }
    }
}

/// What the destination makes of the steps of the links is all that counts:
/// answers that agree on those lead to the same verdict, whatever they say of
/// other names.
pub proof fn lookups_decide_on_links(
    source: TreeView,
    destination: TreeView,
    a: Answers,
    b: Answers,
    rules: SyncRules,
)
    requires
        agree(a, b, lookups(source, destination)),
    ensures
        links::download_links(source, destination, a, rules) == links::download_links(
            source,
            destination,
            b,
            rules,
        ),
{
    let host = rules.host;
    let none: Links = Seq::empty();
    assert(covers_links(lookups(source, destination), none));
    lemma_links_covered(none, source, source.len() as int, source, destination, host);
    let incoming = links::links_among(none, source, source.len() as int, source, destination, host);
    lemma_links_covered(
        incoming,
        destination,
        destination.len() as int,
        source,
        destination,
        host,
    );
    lemma_links_agree(
        source,
        destination,
        source.len() as int,
        links::all_links(source, destination, host),
        a,
        b,
        MAX_SYNC_LINK_WORK_BYTES as nat,
        rules,
    );
}

} // verus!
