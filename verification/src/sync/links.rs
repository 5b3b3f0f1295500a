//! Symbolic links that come out of a box: none of them may lead outside the
//! directory it is written into, alone or through others.

use crate::error::{self, Error, Refusal, refuse};
use crate::host::HostOs;
use crate::ordered::{self, TextMap};
use crate::path::{self, components_of, starts_at_root};
use crate::sync::entry::{SyncRules, Tree, TreeView};
use crate::sync::names::{self, Answers, ProbedName, resolve_component};
use crate::sync::security::{self, manifest_lookup_key, validate_windows_name};
use crate::text::{
    self, byte_len, clone_optional_text, clone_texts, contains_char, join_texts, same_optional_text,
    same_text, split_text,
};
use vstd::prelude::*;

verus! {

/// The work that resolving all links of one transfer may take, in bytes.
pub const MAX_SYNC_LINK_WORK_BYTES: usize = 64 * 1024 * 1024;

/// The most links one path may be followed through.
pub const MAX_FOLLOWED_LINKS: u32 = 40;

/// How deep a path stands below its root.
pub open spec fn parent_depth(path: Seq<char>) -> int {
    if path::components(path).len() == 0 {
        0
    } else {
        path::components(path).len() - 1
    }
}

/// How deep the names of a relative target lead, starting so deep; `None`
/// where they lead above the root.
pub open spec fn depth_after(names: Seq<Seq<char>>, depth: int) -> Option<int>
    decreases names.len(),
{
    if names.len() == 0 {
        Some(depth)
    } else {
        match depth_after(names.drop_last(), depth) {
            None => None,
            Some(d) => if names.last().len() == 0 || names.last() == seq!['.'] {
                Some(d)
            } else if names.last() == seq!['.', '.'] {
                if d > 0 { Some(d - 1) } else { None }
            } else {
                Some(d + 1)
            },
        }
    }
}

/// What is held against the target of one link.
pub open spec fn target_verdict(path: Seq<char>, target: Seq<char>, rules: SyncRules) -> Result<
    (),
    Refusal,
> {
    if target.len() == 0 {
        Err(error::refusal("symlink target cannot be empty"@))
    } else if text::utf8_len(target) > rules.max_path_bytes {
        Err(error::refusal("symlink target exceeds maximum length"@))
    } else if target.contains('\0') {
        Err(error::refusal("symlink target contains NUL bytes"@))
    } else if path::is_absolute(target) {
        Err(error::refusal("rejecting absolute symlink target '"@ + target + "' from guest"@))
    } else if rules.host == HostOs::Windows && (target[0] == '\\' || target.contains(':')) {
        Err(
            error::refusal(
                "rejecting Windows absolute/drive symlink target '"@ + target + "' from guest"@,
            ),
        )
    } else if depth_after(text::pieces(target, '/'), parent_depth(path)) is None {
        Err(
            error::refusal(
                "rejecting symlink '"@ + path + "' -> '"@ + target
                    + "' that escapes destination root"@,
            ),
        )
    } else {
        Ok(())
    }
}

proof fn lemma_depth_lost(names: Seq<Seq<char>>, depth: int, n: int)
    requires
        0 <= n <= names.len(),
        depth_after(names.take(n), depth) is None,
    ensures
        depth_after(names, depth) is None,
    decreases names.len() - n,
{
    if n < names.len() {
        assert(names.take(n + 1).drop_last() =~= names.take(n));
        lemma_depth_lost(names, depth, n + 1);
    } else {
        assert(names.take(n) =~= names);
    }
}

fn stays_below(names: &Vec<String>, depth: usize) -> (yes: bool)
    ensures
        yes == depth_after(text::texts(names@), depth as int) is Some,
{
    let ghost all = text::texts(names@);
    let mut current: u128 = depth as u128;
    let mut i: usize = 0;
    proof {
        reveal_strlit(".");
        reveal_strlit("..");
        assert("."@ =~= seq!['.']);
        assert(".."@ =~= seq!['.', '.']);
        assert(all.take(0) =~= Seq::empty());
    }
    while i < names.len()
        invariant
            i <= names@.len(),
            all == text::texts(names@),
            "."@ == seq!['.'],
            ".."@ == seq!['.', '.'],
            current <= depth + i,
            depth_after(all.take(i as int), depth as int) == Some(current as int),
        decreases names.len() - i,
    {
        proof {
            assert(all.take(i + 1).drop_last() =~= all.take(i as int));
            assert(all.take(i + 1).last() == names@[i as int]@);
        }
        let name = names[i].as_str();
        if name.unicode_len() == 0 || same_text(name, ".") {
        } else if same_text(name, "..") {
            if current == 0 {
                proof {
                    lemma_depth_lost(all, depth as int, i + 1);
                }
                return false;
            }
            current = current - 1;
        } else {
            current = current + 1;
        }
        i = i + 1;
    }
    proof {
        assert(all.take(i as int) =~= all);
    }
    true
}

pub fn validate_download_symlink_target(entry_rel_path: &str, target: &str, rules: &SyncRules) -> (
    verdict: Result<(), Error>)
    ensures
        error::outcome(verdict) == target_verdict(entry_rel_path@, target@, *rules),
{
    if target.unicode_len() == 0 {
        return Err(refuse("symlink target cannot be empty"));
    }
    if byte_len(target) > rules.max_path_bytes {
        return Err(refuse("symlink target exceeds maximum length"));
    }
    if contains_char(target, '\0') {
        return Err(refuse("symlink target contains NUL bytes"));
    }
    if starts_at_root(target) {
        let mut message: String = "rejecting absolute symlink target '".to_owned();
        message.append(target);
        message.append("' from guest");
        return Err(Error::new(message));
    }
    if rules.host == HostOs::Windows && (target.get_char(0) == '\\' || contains_char(target, ':')) {
        let mut message: String = "rejecting Windows absolute/drive symlink target '".to_owned();
        message.append(target);
        message.append("' from guest");
        return Err(Error::new(message));
    }
    let steps = components_of(entry_rel_path);
    proof {
        assert(crate::path::steps(steps@).len() == steps@.len());
    }
    let depth: usize = if steps.len() == 0 { 0 } else { steps.len() - 1 };
    let names = split_text(target, '/');
    if !stays_below(&names, depth) {
        let mut message: String = "rejecting symlink '".to_owned();
        message.append(entry_rel_path);
        message.append("' -> '");
        message.append(target);
        message.append("' that escapes destination root");
        return Err(Error::new(message));
    }
    Ok(())
}

/// Takes work off the budget, which stays as it is where it is too small.
pub fn spend_link_work(remaining: &mut usize, bytes: u128) -> (spent: Result<(), Error>)
    ensures
        bytes <= *old(remaining) ==> spent is Ok && *final(remaining) == *old(remaining) - bytes,
        bytes > *old(remaining) ==> spent is Err && spent->Err_0@ == work_limit()
            && *final(remaining) == *old(remaining),
{
    if bytes <= *remaining as u128 {
        *remaining = *remaining - bytes as usize;
        Ok(())
    } else {
        Err(refuse("symlink resolution exceeded its work limit; sync a smaller subtree"))
    }
}

pub open spec fn work_limit() -> Refusal {
    error::refusal("symlink resolution exceeded its work limit; sync a smaller subtree"@)
}

/// Where a link leads: as it comes out of the box, and as it stands on the
/// host.
#[derive(Debug)]
pub struct LinkTargets {
    pub incoming: Option<String>,
    pub existing: Option<String>,
}

#[verifier::ext_equal]
pub struct TargetsView {
    pub incoming: Option<Seq<char>>,
    pub existing: Option<Seq<char>>,
}

impl View for LinkTargets {
    type V = TargetsView;

    open spec fn view(&self) -> TargetsView {
        TargetsView { incoming: text::text_of(self.incoming), existing: text::text_of(self.existing) }
    }
}

/// The links of a transfer by the key the host looks them up by.
pub type Links = Seq<(Seq<char>, TargetsView)>;

/// One way a path may be resolved, part of it done.
#[derive(Debug)]
pub struct Branch {
    resolved: Vec<String>,
    pending: Vec<String>,
    followed: u32,
}

/// The names resolved so far, those still to come, and the links followed.
#[verifier::ext_equal]
pub struct BranchView {
    pub resolved: Seq<Seq<char>>,
    pub pending: Seq<Seq<char>>,
    pub followed: int,
}

impl View for Branch {
    type V = BranchView;

    closed spec fn view(&self) -> BranchView {
        BranchView {
            resolved: text::texts(self.resolved@),
            pending: text::texts(self.pending@),
            followed: self.followed as int,
        }
    }
}

/// The bytes of a list of names, each with its separator.
pub open spec fn names_bytes(names: Seq<Seq<char>>) -> nat
    decreases names.len(),
{
    if names.len() == 0 {
        0
    } else {
        names_bytes(names.drop_last()) + text::utf8_len(names.last()) + 1
    }
}

/// A branch that has just reached a link, taken along one of its targets, or
/// past it where there is none; and the work left.
pub open spec fn taken(
    branch: BranchView,
    name: Seq<char>,
    target: Option<Seq<char>>,
    remaining: nat,
    rules: SyncRules,
) -> (Result<BranchView, Refusal>, nat) {
    let cost = text::utf8_len(name) + names_bytes(branch.pending) + (match target {
        Some(link) => text::utf8_len(link),
        None => 0,
    }) + 1;
    if remaining < cost {
        (Err(work_limit()), remaining)
    } else {
        let left = (remaining - cost) as nat;
        match target {
            None => (Ok(branch), left),
            Some(link) => if branch.followed + 1 > MAX_FOLLOWED_LINKS {
                (Err(error::refusal("guest symlink chain is cyclic or too deep"@)), left)
            } else {
                match target_verdict(name, link, rules) {
                    Err(refused) => (Err(refused), left),
                    Ok(_) => (Ok(through(branch, link)), left),
                }
            },
        }
    }
}

/// A branch that stands on a link, led on by its target.
pub open spec fn through(branch: BranchView, link: Seq<char>) -> BranchView {
    BranchView {
        resolved: branch.resolved.drop_last(),
        pending: text::pieces(link, '/') + branch.pending,
        followed: branch.followed + 1,
    }
}

/// What becomes of a list of branches, the last first: whether each of them
/// can be resolved without leaving the root, and the work left.
pub open spec fn walk(
    branches: Seq<BranchView>,
    remaining: nat,
    links: Links,
    names: Answers,
    rules: SyncRules,
) -> (Result<(), Refusal>, nat)
    decreases remaining, branches.len(),
{
    if branches.len() == 0 {
        (Ok(()), remaining)
    } else {
        let branch = branches.last();
        let others = branches.drop_last();
        if branch.pending.len() == 0 {
            walk(others, remaining, links, names, rules)
        } else {
            let component = branch.pending[0];
            let pending = branch.pending.drop_first();
            if remaining < text::utf8_len(component) + 1 {
                (Err(work_limit()), remaining)
            } else {
                let left = (remaining - text::utf8_len(component) - 1) as nat;
                if component.len() == 0 || component == seq!['.'] {
                    walk(others.push(BranchView { pending, ..branch }), left, links, names, rules)
                } else if component == seq!['.', '.'] {
                    if branch.resolved.len() == 0 {
                        (Err(error::refusal("guest symlink chain escapes destination root"@)), left)
                    } else {
                        walk(
                            others.push(
                                BranchView {
                                    resolved: branch.resolved.drop_last(),
                                    pending,
                                    followed: branch.followed,
                                },
                            ),
                            left,
                            links,
                            names,
                            rules,
                        )
                    }
                } else if rules.host == HostOs::Windows && security::windows_name(component) is Err {
                    (security::windows_name(component), left)
                } else {
                    match names::name_on_host(names, text::joined(branch.resolved, "/"@), component) {
                        Err(refused) => (Err(refused), left),
                        Ok(found) => {
                            let next = BranchView {
                                resolved: branch.resolved.push(found),
                                pending,
                                followed: branch.followed,
                            };
                            let name = text::joined(next.resolved, "/"@);
                            if left < text::utf8_len(name) {
                                (Err(work_limit()), left)
                            } else {
                                let left = (left - text::utf8_len(name)) as nat;
                                match ordered::lookup(links, security::lookup_key(rules.host, name)) {
                                    None => walk(others.push(next), left, links, names, rules),
                                    Some(targets) => {
                                        let (first, left) = taken(
                                            next,
                                            name,
                                            targets.incoming,
                                            left,
                                            rules,
                                        );
                                        match first {
                                            Err(refused) => (Err(refused), left),
                                            Ok(one) => if targets.existing == targets.incoming {
                                                walk(others.push(one), left, links, names, rules)
                                            } else {
                                                let (second, left) = taken(
                                                    next,
                                                    name,
                                                    targets.existing,
                                                    left,
                                                    rules,
                                                );
                                                match second {
                                                    Err(refused) => (Err(refused), left),
                                                    Ok(two) => walk(
                                                        others.push(one).push(two),
                                                        left,
                                                        links,
                                                        names,
                                                        rules,
                                                    ),
                                                }
                                            },
                                        }
                                    },
                                }
                            }
                        },
                    }
                }
            }
        }
    }
}

/// The branch a link starts: its target, read in the directory it stands in.
pub open spec fn first_branch(path: Seq<char>, target: Seq<char>) -> BranchView {
    BranchView {
        resolved: text::pieces(path, '/').drop_last(),
        pending: text::pieces(target, '/'),
        followed: 0,
    }
}

/// What becomes of one link, and the work left.
pub open spec fn resolutions(
    path: Seq<char>,
    target: Seq<char>,
    links: Links,
    names: Answers,
    remaining: nat,
    rules: SyncRules,
) -> (Result<(), Refusal>, nat) {
    match target_verdict(path, target, rules) {
        Err(refused) => (Err(refused), remaining),
        Ok(_) => {
            let cost = text::utf8_len(path) + text::utf8_len(target) + 1;
            if remaining < cost {
                (Err(work_limit()), remaining)
            } else {
                walk(seq![first_branch(path, target)], (remaining - cost) as nat, links, names, rules)
            }
        },
    }
}

/// The bytes of the names on top of `base`, or a number past every budget
/// that is not above them.
fn cost_of(names: &Vec<String>, base: u128) -> (cost: u128)
    requires
        base <= 4 * (usize::MAX as u128),
    ensures
        cost == base + names_bytes(text::texts(names@)) || (cost > usize::MAX && cost <= base
            + names_bytes(text::texts(names@))),
{
    let ghost all = text::texts(names@);
    let mut cost: u128 = base;
    let mut i: usize = 0;
    proof {
        assert(all.take(0) =~= Seq::empty());
    }
    while i < names.len() && cost <= usize::MAX as u128
        invariant
            i <= names@.len(),
            all == text::texts(names@),
            cost <= 6 * (usize::MAX as u128) + 1,
            cost == base + names_bytes(all.take(i as int)),
        decreases names.len() - i,
    {
        proof {
            assert(all.take(i + 1).drop_last() =~= all.take(i as int));
            assert(all.take(i + 1).last() == names@[i as int]@);
        }
        cost = cost + byte_len(names[i].as_str()) as u128 + 1;
        i = i + 1;
    }
    proof {
        lemma_names_bytes_grow(all, i as int);
        if i == names@.len() {
            assert(all.take(i as int) =~= all);
        }
    }
    cost
}

proof fn lemma_names_bytes_grow(names: Seq<Seq<char>>, n: int)
    requires
        0 <= n <= names.len(),
    ensures
        names_bytes(names.take(n)) <= names_bytes(names),
    decreases names.len() - n,
{
    if n < names.len() {
        assert(names.take(n + 1).drop_last() =~= names.take(n));
        lemma_names_bytes_grow(names, n + 1);
    } else {
        assert(names.take(n) =~= names);
    }
}

/// `head` in front of `tail`.
fn put_in_front(head: Vec<String>, tail: &Vec<String>) -> (all: Vec<String>)
    ensures
        text::texts(all@) == text::texts(head@) + text::texts(tail@),
{
    let ghost start = text::texts(head@);
    let mut all = head;
    let mut i: usize = 0;
    proof {
        assert(text::texts(all@) =~= start + text::texts(tail@).take(0));
    }
    while i < tail.len()
        invariant
            i <= tail@.len(),
            text::texts(all@) == start + text::texts(tail@).take(i as int),
        decreases tail.len() - i,
    {
        let ghost before = all@;
        all.push(tail[i].as_str().to_owned());
        proof {
            text::lemma_texts_push(before, all@.last());
            assert(text::texts(all@) =~= start + text::texts(tail@).take(i + 1));
        }
        i = i + 1;
    }
    proof {
        assert(text::texts(tail@).take(i as int) =~= text::texts(tail@));
    }
    all
}

/// Takes a branch that stands on a link along one of its targets.
fn take_target(
    branch: &Branch,
    name: &str,
    target: &Option<String>,
    remaining: &mut usize,
    rules: &SyncRules,
) -> (next: Result<Branch, Error>)
    requires
        branch.followed <= MAX_FOLLOWED_LINKS,
        branch@.resolved.len() > 0,
    ensures
        ({
            let expected = taken(branch@, name@, text::text_of(*target), *old(remaining) as nat, *rules);
            &&& *final(remaining) == expected.1
            &&& match next {
                Ok(b) => expected.0 == Ok::<_, Refusal>(b@) && b.followed <= MAX_FOLLOWED_LINKS,
                Err(error) => expected.0 == Err::<BranchView, _>(error@),
            }
        }),
{
    let target_bytes: usize = match target {
        Some(link) => byte_len(link.as_str()),
        None => 0,
    };
    let base: u128 = byte_len(name) as u128 + target_bytes as u128 + 1;
    let cost: u128 = cost_of(&branch.pending, base);
    let spent = spend_link_work(remaining, cost);
    if let Err(error) = spent {
        return Err(error);
    }
    match target {
        None => {
            let copy = Branch {
                resolved: clone_texts(&branch.resolved),
                pending: clone_texts(&branch.pending),
                followed: branch.followed,
            };
            Ok(copy)
        },
        Some(link) => {
            if branch.followed + 1 > MAX_FOLLOWED_LINKS {
                return Err(refuse("guest symlink chain is cyclic or too deep"));
            }
            let verdict = validate_download_symlink_target(name, link.as_str(), rules);
            if let Err(error) = verdict {
                return Err(error);
            }
            let mut resolved = clone_texts(&branch.resolved);
            proof {
                assert(resolved@.len() == text::texts(branch.resolved@).len());
            }
            let ghost before = resolved@;
            resolved.pop();
            let pending = put_in_front(split_text(link.as_str(), '/'), &branch.pending);
            proof {
                assert(text::texts(resolved@) =~= text::texts(before).drop_last());
            }
            Ok(Branch { resolved, pending, followed: branch.followed + 1 })
        },
    }
}

/// Resolves a link in every way the trees before and after a transfer allow,
/// and refuses it where one of them leads outside.
#[verifier::rlimit(60)]
pub fn validate_link_resolutions(
    path: &str,
    target: &str,
    links: &TextMap<LinkTargets>,
    names: &TextMap<TextMap<ProbedName>>,
    remaining_work: &mut usize,
    rules: &SyncRules,
) -> (verdict: Result<(), Error>)
    ensures
        ({
            let expected = resolutions(path@, target@, links@, names@, *old(remaining_work) as nat, *rules);
            &&& error::outcome(verdict) == expected.0
            &&& *final(remaining_work) == expected.1
        }),
{
    let verdict = validate_download_symlink_target(path, target, rules);
    if verdict.is_err() {
        return verdict;
    }
    let cost: u128 = byte_len(path) as u128 + byte_len(target) as u128 + 1;
    let spent = spend_link_work(remaining_work, cost);
    if spent.is_err() {
        return spent;
    }
    let mut parent = split_text(path, '/');
    let ghost before = parent@;
    parent.pop();
    let pending = split_text(target, '/');
    let first = Branch { resolved: parent, pending, followed: 0 };
    let mut branches: Vec<Branch> = Vec::new();
    proof {
        assert(text::texts(parent@) =~= text::texts(before).drop_last());
        assert(first@ == first_branch(path@, target@));
    }
    branches.push(first);
    let ghost goal = walk(
        seq![first_branch(path@, target@)],
        *remaining_work as nat,
        links@,
        names@,
        *rules,
    );
    proof {
        assert(text::views(branches@) =~= seq![first_branch(path@, target@)]);
        reveal_strlit(".");
        reveal_strlit("..");
        assert("."@ =~= seq!['.']);
        assert(".."@ =~= seq!['.', '.']);
    }
    while branches.len() > 0
        invariant
            "."@ == seq!['.'],
            ".."@ == seq!['.', '.'],
            forall|i: int|
                0 <= i < branches@.len() ==> (#[trigger] branches@[i]).followed
                    <= MAX_FOLLOWED_LINKS,
            walk(text::views(branches@), *remaining_work as nat, links@, names@, *rules) == goal,
            goal == ({
                let cost = text::utf8_len(path@) + text::utf8_len(target@) + 1;
                walk(
                    seq![first_branch(path@, target@)],
                    (*old(remaining_work) - cost) as nat,
                    links@,
                    names@,
                    *rules,
                )
            }),
            target_verdict(path@, target@, *rules) is Ok,
            text::utf8_len(path@) + text::utf8_len(target@) + 1 <= *old(remaining_work),
        decreases *remaining_work, branches.len(),
    {
        let ghost all = text::views(branches@);
        let ghost stack = branches@;
        let mut branch = match branches.pop() {
            Some(branch) => branch,
            None => {
                return Ok(());
            },
        };
        let ghost others = text::views(branches@);
        proof {
            assert(others =~= all.drop_last());
            assert(all.last() == branch@);
            assert(branch == stack[stack.len() - 1]);
            assert(text::texts(branch.pending@).len() == branch.pending@.len());
            assert(text::texts(branch.resolved@).len() == branch.resolved@.len());
        }
        if branch.pending.len() > 0 {
            let ghost start = branch@;
            let ghost pending_before = branch.pending@;
            let ghost resolved_before = branch.resolved@;
            let component = branch.pending.remove(0);
            proof {
                assert(text::texts(branch.pending@) =~= start.pending.drop_first());
                assert(component@ == start.pending[0]);
            }
            let spent = spend_link_work(
                remaining_work,
                byte_len(component.as_str()) as u128 + 1,
            );
            if spent.is_err() {
                return spent;
            }
            if component.as_str().unicode_len() == 0 || same_text(component.as_str(), ".") {
                branches.push(branch);
                proof {
                    assert(text::views(branches@) =~= others.push(
                        BranchView { pending: start.pending.drop_first(), ..start },
                    ));
                }
            } else if same_text(component.as_str(), "..") {
                if branch.resolved.len() == 0 {
                    return Err(refuse("guest symlink chain escapes destination root"));
                }
                branch.resolved.pop();
                proof {
                    assert(text::texts(branch.resolved@) =~= start.resolved.drop_last());
                }
                branches.push(branch);
                proof {
                    assert(text::views(branches@) =~= others.push(
                        BranchView {
                            resolved: start.resolved.drop_last(),
                            pending: start.pending.drop_first(),
                            followed: start.followed,
                        },
                    ));
                }
            } else {
                if rules.host == HostOs::Windows {
                    let verdict = validate_windows_name(component.as_str());
                    if verdict.is_err() {
                        return verdict;
                    }
                }
                let parent = join_texts(&branch.resolved, "/");
                let found = match resolve_component(names, parent.as_str(), component.as_str()) {
                    Ok(found) => found,
                    Err(error) => {
                        return Err(error);
                    },
                };
                let ghost found_name = found@;
                branch.resolved.push(found);
                proof {
                    text::lemma_texts_push(resolved_before, branch.resolved@.last());
                }
                let ghost next = BranchView {
                    resolved: start.resolved.push(found_name),
                    pending: start.pending.drop_first(),
                    followed: start.followed,
                };
                proof {
                    assert(branch@ =~= next);
                }
                let name = join_texts(&branch.resolved, "/");
                let spent = spend_link_work(remaining_work, byte_len(name.as_str()) as u128);
                if spent.is_err() {
                    return spent;
                }
                let key = manifest_lookup_key(rules.host, name.as_str());
                match links.get(key.as_str()) {
                    None => {
                        branches.push(branch);
                        proof {
                            assert(text::views(branches@) =~= others.push(next));
                        }
                    },
                    Some(targets) => {
                        let one = match take_target(
                            &branch,
                            name.as_str(),
                            &targets.incoming,
                            remaining_work,
                            rules,
                        ) {
                            Ok(one) => one,
                            Err(error) => {
                                return Err(error);
                            },
                        };
                        let ghost one_view = one@;
                        branches.push(one);
                        proof {
                            assert(text::views(branches@) =~= others.push(one_view));
                        }
                        if !same_optional_text(&targets.existing, &targets.incoming) {
                            let two = match take_target(
                                &branch,
                                name.as_str(),
                                &targets.existing,
                                remaining_work,
                                rules,
                            ) {
                                Ok(two) => two,
                                Err(error) => {
                                    return Err(error);
                                },
                            };
                            let ghost two_view = two@;
                            branches.push(two);
                            proof {
                                assert(text::views(branches@) =~= others.push(one_view).push(two_view));
                            }
                        }
                    },
                }
            }
        }
    }
    proof {
        assert(text::views(branches@) =~= Seq::empty());
    }
    Ok(())
}

/// The target of the entry under a path, where it is a link.
pub open spec fn target_at(entries: TreeView, path: Seq<char>) -> Option<Seq<char>> {
    match ordered::lookup(entries, path) {
        Some(entry) => entry.link_target,
        None => None,
    }
}

/// The links among the first `n` entries of one tree, put over those already
/// listed; each with its targets in both trees.
pub open spec fn links_among(
    links: Links,
    entries: TreeView,
    n: int,
    source: TreeView,
    destination: TreeView,
    host: HostOs,
) -> Links
    decreases n,
{
    if n <= 0 {
        links
    } else {
        let before = links_among(links, entries, n - 1, source, destination, host);
        let (path, entry) = entries[n - 1];
        if entry.link_target is Some {
            ordered::with_entry(
                before,
                security::lookup_key(host, path),
                TargetsView {
                    incoming: target_at(source, path),
                    existing: target_at(destination, path),
                },
            )
        } else {
            before
        }
    }
}

/// Every link of two trees, by the key the host looks it up by.
pub open spec fn all_links(source: TreeView, destination: TreeView, host: HostOs) -> Links {
    let incoming = links_among(
        Seq::empty(),
        source,
        source.len() as int,
        source,
        destination,
        host,
    );
    links_among(incoming, destination, destination.len() as int, source, destination, host)
}

/// What becomes of the links among the first `n` entries, and the work left.
pub open spec fn resolved_among(
    source: TreeView,
    n: int,
    links: Links,
    names: Answers,
    remaining: nat,
    rules: SyncRules,
) -> (Result<(), Refusal>, nat)
    decreases n,
{
    if n <= 0 {
        (Ok(()), remaining)
    } else {
        let (before, left) = resolved_among(source, n - 1, links, names, remaining, rules);
        match before {
            Err(refused) => (Err(refused), left),
            Ok(_) => match source[n - 1].1.link_target {
                None => (Ok(()), left),
                Some(target) => resolutions(source[n - 1].0, target, links, names, left, rules),
            },
        }
    }
}

/// What is held against the links of a tree that comes out of a box.
pub open spec fn download_links(
    source: TreeView,
    destination: TreeView,
    names: Answers,
    rules: SyncRules,
) -> Result<(), Refusal> {
    resolved_among(
        source,
        source.len() as int,
        all_links(source, destination, rules.host),
        names,
        MAX_SYNC_LINK_WORK_BYTES as nat,
        rules,
    ).0
}

proof fn lemma_refused_early(
    source: TreeView,
    n: int,
    m: int,
    links: Links,
    names: Answers,
    remaining: nat,
    rules: SyncRules,
)
    requires
        0 <= n <= m,
        resolved_among(source, n, links, names, remaining, rules).0 is Err,
    ensures
        resolved_among(source, m, links, names, remaining, rules) == resolved_among(
            source,
            n,
            links,
            names,
            remaining,
            rules,
        ),
    decreases m - n,
{
    if n < m {
        lemma_refused_early(source, n, m - 1, links, names, remaining, rules);
    }
}

fn read_target(entries: &Tree, path: &str) -> (target: Option<String>)
    ensures
        text::text_of(target) == target_at(entries@, path@),
{
    match entries.get(path) {
        Some(entry) => clone_optional_text(&entry.link_target),
        None => None,
    }
}

fn add_links(
    links: &mut TextMap<LinkTargets>,
    entries: &Tree,
    source: &Tree,
    destination: &Tree,
    host: HostOs,
)
    ensures
        final(links)@ == links_among(
            old(links)@,
            entries@,
            entries@.len() as int,
            source@,
            destination@,
            host,
        ),
{
    let n: usize = entries.len();
    let mut i: usize = 0;
    while i < n
        invariant
            i <= n == entries@.len(),
            links@ == links_among(old(links)@, entries@, i as int, source@, destination@, host),
        decreases n - i,
    {
        let path = entries.key_at(i);
        if entries.value_at(i).link_target.is_some() {
            let targets = LinkTargets {
                incoming: read_target(source, path),
                existing: read_target(destination, path),
            };
            links.insert(manifest_lookup_key(host, path), targets);
        }
        i = i + 1;
    }
}

/// Refuses a tree with a link that leads outside the destination, through
/// what the box sends or through what already stands there; `names` holds what
/// the file system of the destination makes of the names on the way.
pub fn validate_download_links(
    source: &Tree,
    destination: &Tree,
    names: &TextMap<TextMap<ProbedName>>,
    rules: &SyncRules,
) -> (verdict: Result<(), Error>)
    ensures
        error::outcome(verdict) == download_links(source@, destination@, names@, *rules),
{
    let mut links: TextMap<LinkTargets> = TextMap::new();
    add_links(&mut links, source, source, destination, rules.host);
    add_links(&mut links, destination, source, destination, rules.host);
    let mut remaining: usize = MAX_SYNC_LINK_WORK_BYTES;
    let n: usize = source.len();
    let mut i: usize = 0;
    while i < n
        invariant
            i <= n == source@.len(),
            links@ == all_links(source@, destination@, rules.host),
            resolved_among(
                source@,
                i as int,
                links@,
                names@,
                MAX_SYNC_LINK_WORK_BYTES as nat,
                *rules,
            ) == (Ok::<(), Refusal>(()), remaining as nat),
        decreases n - i,
    {
        if let Some(target) = &source.value_at(i).link_target {
            let verdict = validate_link_resolutions(
                source.key_at(i),
                target.as_str(),
                &links,
                names,
                &mut remaining,
                rules,
            );
            if verdict.is_err() {
                proof {
                    lemma_refused_early(
                        source@,
                        i + 1,
                        n as int,
                        links@,
                        names@,
                        MAX_SYNC_LINK_WORK_BYTES as nat,
                        *rules,
                    );
                }
                return verdict;
            }
        }
        i = i + 1;
    }
    Ok(())
}

/// What the next name of a branch is on the destination.
pub open spec fn found_ahead(branch: BranchView, names: Answers) -> Seq<char> {
    match names::name_on_host(names, text::joined(branch.resolved, "/"@), branch.pending[0]) {
        Ok(found) => found,
        Err(_) => branch.pending[0],
    }
}

/// Where a branch stands on a link, and its targets.
pub open spec fn link_ahead(
    branch: BranchView,
    links: Links,
    names: Answers,
    host: HostOs,
) -> Option<TargetsView> {
    if branch.pending.len() == 0 || branch.pending[0].len() == 0 || branch.pending[0] == seq!['.']
        || branch.pending[0] == seq!['.', '.'] {
        None
    } else {
        ordered::lookup(
            links,
            security::lookup_key(
                host,
                text::joined(branch.resolved.push(found_ahead(branch, names)), "/"@),
            ),
        )
    }
}

/// A branch with its next name resolved.
pub open spec fn stepped(branch: BranchView, names: Answers) -> BranchView {
    let component = branch.pending[0];
    let pending = branch.pending.drop_first();
    if component.len() == 0 || component == seq!['.'] {
        BranchView { pending, ..branch }
    } else if component == seq!['.', '.'] {
        BranchView {
            resolved: branch.resolved.drop_last(),
            pending,
            followed: branch.followed,
        }
    } else {
        BranchView {
            resolved: branch.resolved.push(found_ahead(branch, names)),
            pending,
            followed: branch.followed,
        }
    }
}

/// A branch led on by one of the targets of the link it has reached.
pub open spec fn led_on(
    branch: BranchView,
    target: Option<Seq<char>>,
    names: Answers,
) -> BranchView {
    match target {
        Some(link) => through(stepped(branch, names), link),
        None => stepped(branch, names),
    }
}

/// Whether a target is an absolute path.
pub open spec fn leads_away(target: Option<Seq<char>>) -> bool {
    match target {
        Some(link) => path::is_absolute(link),
        None => false,
    }
}

/// Whether the next name of a branch leads outside the root: a step up from
/// it, or a link to an absolute path.
pub open spec fn leaves_root(branch: BranchView, links: Links, names: Answers, host: HostOs) -> bool {
    ||| branch.pending.len() > 0 && branch.pending[0] == seq!['.', '.'] && branch.resolved.len()
        == 0
    ||| match link_ahead(branch, links, names, host) {
        None => false,
        Some(targets) => leads_away(targets.incoming) || leads_away(targets.existing),
    }
}

/// Whether no way of resolving a branch leaves the root within `steps` names.
pub open spec fn stays_inside(
    branch: BranchView,
    steps: nat,
    links: Links,
    names: Answers,
    host: HostOs,
) -> bool
    decreases steps,
{
    if steps == 0 || branch.pending.len() == 0 {
        true
    } else {
        &&& !leaves_root(branch, links, names, host)
        &&& match link_ahead(branch, links, names, host) {
            None => stays_inside(stepped(branch, names), (steps - 1) as nat, links, names, host),
            Some(targets) => {
                &&& stays_inside(
                    led_on(branch, targets.incoming, names),
                    (steps - 1) as nat,
                    links,
                    names,
                    host,
                )
                &&& stays_inside(
                    led_on(branch, targets.existing, names),
                    (steps - 1) as nat,
                    links,
                    names,
                    host,
                )
            },
        }
    }
}

proof fn lemma_walk_stays_inside(
    branches: Seq<BranchView>,
    remaining: nat,
    links: Links,
    names: Answers,
    rules: SyncRules,
    which: int,
    steps: nat,
)
    requires
        walk(branches, remaining, links, names, rules).0 is Ok,
        0 <= which < branches.len(),
    ensures
        stays_inside(branches[which], steps, links, names, rules.host),
    decreases remaining, branches.len(),
{
    let branch = branches.last();
    let others = branches.drop_last();
    let top = branches.len() - 1;
    if branch.pending.len() == 0 {
        if which < top {
            assert(others[which] == branches[which]);
            lemma_walk_stays_inside(others, remaining, links, names, rules, which, steps);
        }
    } else {
        let component = branch.pending[0];
        let next = stepped(branch, names);
        let left = (remaining - text::utf8_len(component) - 1) as nat;
        if component.len() == 0 || component == seq!['.'] || component == seq!['.', '.'] {
            let rest = others.push(next);
            if which < top {
                assert(rest[which] == branches[which]);
                lemma_walk_stays_inside(rest, left, links, names, rules, which, steps);
            } else if steps > 0 {
                assert(rest[top] == next);
                lemma_walk_stays_inside(rest, left, links, names, rules, top, (steps - 1) as nat);
            }
        } else {
            let name = text::joined(next.resolved, "/"@);
            let left = (left - text::utf8_len(name)) as nat;
            match ordered::lookup(links, security::lookup_key(rules.host, name)) {
                None => {
                    let rest = others.push(next);
                    if which < top {
                        assert(rest[which] == branches[which]);
                        lemma_walk_stays_inside(rest, left, links, names, rules, which, steps);
                    } else if steps > 0 {
                        assert(rest[top] == next);
                        lemma_walk_stays_inside(rest, left, links, names, rules, top, (steps - 1) as nat);
                    }
                },
                Some(targets) => {
                    let (first, left_one) = taken(next, name, targets.incoming, left, rules);
                    let one = first->Ok_0;
                    if targets.existing == targets.incoming {
                        let rest = others.push(one);
                        if which < top {
                            assert(rest[which] == branches[which]);
                            lemma_walk_stays_inside(rest, left_one, links, names, rules, which, steps);
                        } else if steps > 0 {
                            assert(rest[top] == one);
                            lemma_walk_stays_inside(
                                rest,
                                left_one,
                                links,
                                names,
                                rules,
                                top,
                                (steps - 1) as nat,
                            );
                        }
                    } else {
                        let (second, left_two) = taken(
                            next,
                            name,
                            targets.existing,
                            left_one,
                            rules,
                        );
                        let two = second->Ok_0;
                        let rest = others.push(one).push(two);
                        if which < top {
                            assert(rest[which] == branches[which]);
                            lemma_walk_stays_inside(rest, left_two, links, names, rules, which, steps);
                        } else if steps > 0 {
                            assert(rest[top] == one);
                            assert(rest[top + 1] == two);
                            lemma_walk_stays_inside(
                                rest,
                                left_two,
                                links,
                                names,
                                rules,
                                top,
                                (steps - 1) as nat,
                            );
                            lemma_walk_stays_inside(
                                rest,
                                left_two,
                                links,
                                names,
                                rules,
                                top + 1,
                                (steps - 1) as nat,
                            );
                        }
                    }
                },
            }
        }
    }
}

proof fn lemma_link_accepted(
    source: TreeView,
    n: int,
    which: int,
    links: Links,
    names: Answers,
    remaining: nat,
    rules: SyncRules,
    steps: nat,
)
    requires
        0 <= which < n,
        resolved_among(source, n, links, names, remaining, rules).0 is Ok,
        source[which].1.link_target is Some,
    ensures
        !path::is_absolute(source[which].1.link_target->0),
        stays_inside(
            first_branch(source[which].0, source[which].1.link_target->0),
            steps,
            links,
            names,
            rules.host,
        ),
    decreases n,
{
    if which < n - 1 {
        lemma_link_accepted(source, n - 1, which, links, names, remaining, rules, steps);
    } else {
        let path = source[which].0;
        let target = source[which].1.link_target->0;
        let left = resolved_among(source, n - 1, links, names, remaining, rules).1;
        let cost = text::utf8_len(path) + text::utf8_len(target) + 1;
        let start = seq![first_branch(path, target)];
        lemma_walk_stays_inside(start, (left - cost) as nat, links, names, rules, 0, steps);
        assert(start[0] == first_branch(path, target));
    }
}

/// A tree accepted from a box holds no link that leads outside the directory
/// it is written into, however far it is followed: not by its own target, not
/// through other links of the tree, and not through links that already stand
/// on the host and may not have been replaced yet; by whichever of its
/// spellings a name is reached that the file system of the destination takes
/// for the same.
pub proof fn accepted_links_stay_inside(
    source: TreeView,
    destination: TreeView,
    names: Answers,
    rules: SyncRules,
    which: int,
    steps: nat,
)
    requires
        download_links(source, destination, names, rules) is Ok,
        0 <= which < source.len(),
        source[which].1.link_target is Some,
    ensures
        !path::is_absolute(source[which].1.link_target->0),
        stays_inside(
            first_branch(source[which].0, source[which].1.link_target->0),
            steps,
            all_links(source, destination, rules.host),
            names,
            rules.host,
        ),
{
    lemma_link_accepted(
        source,
        source.len() as int,
        which,
        all_links(source, destination, rules.host),
        names,
        MAX_SYNC_LINK_WORK_BYTES as nat,
        rules,
        steps,
    );
}

proof fn lemma_walk_spends(
    branches: Seq<BranchView>,
    remaining: nat,
    links: Links,
    names: Answers,
    rules: SyncRules,
)
    ensures
        walk(branches, remaining, links, names, rules).1 <= remaining,
    decreases remaining, branches.len(),
{
    if branches.len() > 0 {
        let branch = branches.last();
        let others = branches.drop_last();
        if branch.pending.len() == 0 {
            lemma_walk_spends(others, remaining, links, names, rules);
        } else if remaining >= text::utf8_len(branch.pending[0]) + 1 {
            let component = branch.pending[0];
            let next = stepped(branch, names);
            let left = (remaining - text::utf8_len(component) - 1) as nat;
            if component.len() == 0 || component == seq!['.'] || component == seq!['.', '.'] {
                lemma_walk_spends(others.push(next), left, links, names, rules);
            } else {
                let name = text::joined(next.resolved, "/"@);
                if left >= text::utf8_len(name) {
                    let left = (left - text::utf8_len(name)) as nat;
                    lemma_walk_spends(others.push(next), left, links, names, rules);
                    if let Some(targets) = ordered::lookup(links, security::lookup_key(rules.host, name)) {
                        let (first, left_one) = taken(next, name, targets.incoming, left, rules);
                        if let Ok(one) = first {
                            lemma_walk_spends(others.push(one), left_one, links, names, rules);
                            let (second, left_two) = taken(
                                next,
                                name,
                                targets.existing,
                                left_one,
                                rules,
                            );
                            if let Ok(two) = second {
                                lemma_walk_spends(
                                    others.push(one).push(two),
                                    left_two,
                                    links,
                                    names,
                                    rules,
                                );
                            }
                        }
                    }
                }
            }
        }
    }
}

/// All links of a transfer draw on one budget: resolving a link never leaves
/// more of it than there was, and an accepted link leaves less.
pub proof fn link_work_is_shared(
    path: Seq<char>,
    target: Seq<char>,
    links: Links,
    names: Answers,
    remaining: nat,
    rules: SyncRules,
)
    ensures
        resolutions(path, target, links, names, remaining, rules).1 <= remaining,
        resolutions(path, target, links, names, remaining, rules).0 is Ok ==> resolutions(
            path,
            target,
            links,
            names,
            remaining,
            rules,
        ).1 < remaining,
{
    let cost = text::utf8_len(path) + text::utf8_len(target) + 1;
    if target_verdict(path, target, rules) is Ok && remaining >= cost {
        lemma_walk_spends(
            seq![first_branch(path, target)],
            (remaining - cost) as nat,
            links,
            names,
            rules,
        );
    }
}

proof fn lemma_taken_from_any_budget(
    branch: BranchView,
    name: Seq<char>,
    target: Option<Seq<char>>,
    remaining: nat,
    other: nat,
    rules: SyncRules,
)
    requires
        taken(branch, name, target, remaining, rules).0 is Ok,
    ensures
        ({
            let before = taken(branch, name, target, remaining, rules);
            let used = remaining - before.1;
            &&& used > 0
            &&& other >= used ==> taken(branch, name, target, other, rules) == (
                before.0,
                (other - used) as nat,
            )
            &&& other < used ==> taken(branch, name, target, other, rules).0 == Err::<BranchView, _>(
                work_limit(),
            )
        }),
{
}

#[verifier::spinoff_prover]
#[verifier::rlimit(60)]
proof fn lemma_walk_from_any_budget(
    branches: Seq<BranchView>,
    remaining: nat,
    other: nat,
    links: Links,
    names: Answers,
    rules: SyncRules,
)
    requires
        walk(branches, remaining, links, names, rules).0 is Ok,
    ensures
        ({
            let used = remaining - walk(branches, remaining, links, names, rules).1;
            &&& used >= 0
            &&& other >= used ==> walk(branches, other, links, names, rules) == (
                Ok::<(), Refusal>(()),
                (other - used) as nat,
            )
            &&& other < used ==> walk(branches, other, links, names, rules).0 == Err::<(), _>(
                work_limit(),
            )
        }),
    decreases remaining, branches.len(),
{
    lemma_walk_spends(branches, remaining, links, names, rules);
    if branches.len() > 0 {
        let branch = branches.last();
        let others = branches.drop_last();
        if branch.pending.len() == 0 {
            lemma_walk_from_any_budget(others, remaining, other, links, names, rules);
        } else {
            let component = branch.pending[0];
            let cost = text::utf8_len(component) + 1;
            let next = stepped(branch, names);
            let left = (remaining - cost) as nat;
            let other_left = if other >= cost { (other - cost) as nat } else { 0 };
            if component.len() == 0 || component == seq!['.'] || component == seq!['.', '.'] {
                lemma_walk_spends(others.push(next), left, links, names, rules);
                lemma_walk_from_any_budget(others.push(next), left, other_left, links, names, rules);
            } else {
                let name = text::joined(next.resolved, "/"@);
                let more = text::utf8_len(name);
                let left = (left - more) as nat;
                let other_left = if other_left >= more { (other_left - more) as nat } else { 0 };
                match ordered::lookup(links, security::lookup_key(rules.host, name)) {
                    None => {
                        lemma_walk_spends(others.push(next), left, links, names, rules);
                        lemma_walk_from_any_budget(
                            others.push(next),
                            left,
                            other_left,
                            links,
                            names,
                            rules,
                        );
                    },
                    Some(targets) => {
                        let (first, left_one) = taken(next, name, targets.incoming, left, rules);
                        let one = first->Ok_0;
                        lemma_taken_from_any_budget(
                            next,
                            name,
                            targets.incoming,
                            left,
                            other_left,
                            rules,
                        );
                        let used = left - left_one;
                        let other_one = if other_left >= used { (other_left - used) as nat } else { 0 };
                        if targets.existing == targets.incoming {
                            lemma_walk_spends(others.push(one), left_one, links, names, rules);
                            lemma_walk_from_any_budget(
                                others.push(one),
                                left_one,
                                other_one,
                                links,
                                names,
                                rules,
                            );
                        } else {
                            let (second, left_two) = taken(
                                next,
                                name,
                                targets.existing,
                                left_one,
                                rules,
                            );
                            let two = second->Ok_0;
                            lemma_taken_from_any_budget(
                                next,
                                name,
                                targets.existing,
                                left_one,
                                other_one,
                                rules,
                            );
                            let used = left_one - left_two;
                            let other_two = if other_one >= used { (other_one - used) as nat } else { 0 };
                            let rest = others.push(one).push(two);
                            lemma_walk_spends(rest, left_two, links, names, rules);
                            lemma_walk_from_any_budget(
                                rest,
                                left_two,
                                other_two,
                                links,
                                names,
                                rules,
                            );
                        }
                    },
                }
            }
        }
    }
}

/// One budget is drawn on by all links and never refilled: a link that was
/// accepted once takes the same work from any budget, and is refused for its
/// work limit where there is less.
pub proof fn links_take_the_same_work_again(
    path: Seq<char>,
    target: Seq<char>,
    links: Links,
    names: Answers,
    remaining: nat,
    other: nat,
    rules: SyncRules,
)
    requires
        resolutions(path, target, links, names, remaining, rules).0 is Ok,
    ensures
        ({
            let used = remaining - resolutions(path, target, links, names, remaining, rules).1;
            &&& used > 0
            &&& other >= used ==> resolutions(path, target, links, names, other, rules) == (
                Ok::<(), Refusal>(()),
                (other - used) as nat,
            )
            &&& other < used ==> resolutions(path, target, links, names, other, rules).0 == Err::<
                (),
                _,
            >(work_limit())
        }),
{
    let cost = text::utf8_len(path) + text::utf8_len(target) + 1;
    let start = seq![first_branch(path, target)];
    let left = (remaining - cost) as nat;
    let other_left = if other >= cost { (other - cost) as nat } else { 0 };
    lemma_walk_spends(start, left, links, names, rules);
    lemma_walk_from_any_budget(start, left, other_left, links, names, rules);
}

} // verus!
