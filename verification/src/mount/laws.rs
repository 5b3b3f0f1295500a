//! What is shared with a box, and what never is.

use crate::config::{ConfigView, MountView};
use crate::host::HomeView;
use crate::mount::{self, DeclaredView, FoundProject, PinnedView, TerraPaths};
use crate::path;
use crate::recipe;
use crate::resolve::FileRead;
use vstd::prelude::*;

verus! {

/// The share that is named of a file is one of them and holds it; none is named
/// only where none does.
pub proof fn shares_are_named_where_a_file_lies(file: Seq<char>, shares: Seq<Seq<char>>)
    ensures
        match mount::containing_share(file, shares) {
            Some(share) => path::lies_under(file, share) && exists|s: int|
                0 <= s < shares.len() && #[trigger] shares[s] == share,
            None => forall|s: int|
                0 <= s < shares.len() ==> !path::lies_under(file, #[trigger] shares[s]),
        },
    decreases shares.len(),
{
    if shares.len() > 0 {
        let rest = shares.drop_first();
        shares_are_named_where_a_file_lies(file, rest);
        if path::lies_under(file, shares[0]) {
            assert(shares[0] == mount::containing_share(file, shares)->0);
        } else {
            match mount::containing_share(file, rest) {
                Some(share) => {
                    let s = choose|s: int| 0 <= s < rest.len() && #[trigger] rest[s] == share;
                    assert(shares[s + 1] == share);
                },
                None => {
                    assert forall|s: int| 0 <= s < shares.len() implies !path::lies_under(
                        file,
                        #[trigger] shares[s],
                    ) by {
                        if s > 0 {
                            assert(rest[s - 1] == shares[s]);
                        }
                    }
                },
            }
        }
    }
}

/// Whether two places overlap: one lies in the other.
pub open spec fn meet(a: Seq<char>, b: Seq<char>) -> bool {
    path::lies_under(a, b) || path::lies_under(b, a)
}

/// Whether a mount hands out nothing of terra's own: not the state of this box,
/// not terra's directory, not that of all boxes and not the cache, neither for
/// writing nor for reading; and not the program for writing.
pub open spec fn keeps_out(host: Seq<char>, readonly: bool, paths: TerraPaths) -> bool {
    &&& !meet(paths.box_dir@, host)
    &&& paths.terra_home matches Some(dir) ==> !meet(dir@, host)
    &&& paths.box_home matches Some(dir) ==> !meet(dir@, host)
    &&& paths.cache matches Some(dir) ==> !meet(dir@, host)
    &&& paths.binary matches Some(file) ==> readonly || !meet(file@, host)
}

proof fn lemma_mount(mount: MountView, host: Seq<char>, paths: TerraPaths)
    ensures
        mount::mount_verdict(
            mount,
            host,
            mount::protected(paths),
            mount::protected(paths).len() as int,
        ) is Ok <==> keeps_out(host, mount.readonly, paths),
{
    let items = mount::protected(paths);
    assert(items.len() == 5);
    reveal_with_fuel(mount::mount_verdict, 6);
    assert(mount::hands_out(items[0], host, mount.readonly) == meet(paths.box_dir@, host));
    assert(mount::hands_out(items[1], host, mount.readonly) == (paths.terra_home is Some && meet(
        paths.terra_home->0@,
        host,
    )));
    assert(mount::hands_out(items[2], host, mount.readonly) == (paths.box_home is Some && meet(
        paths.box_home->0@,
        host,
    )));
    assert(mount::hands_out(items[3], host, mount.readonly) == (paths.cache is Some && meet(
        paths.cache->0@,
        host,
    )));
    assert(mount::hands_out(items[4], host, mount.readonly) == (paths.binary is Some
        && !mount.readonly && meet(paths.binary->0@, host)));
}

/// Mounts are accepted exactly where each of them keeps out of what is terra's
/// own.
pub proof fn mounts_are_accepted_where_they_keep_out(
    mounts: Seq<MountView>,
    hosts: Seq<Seq<char>>,
    paths: TerraPaths,
    n: int,
)
    requires
        0 <= n <= mounts.len(),
        hosts.len() == mounts.len(),
    ensures
        mount::mounts_verdict(mounts, hosts, mount::protected(paths), n) is Ok <==> forall|i: int|
            0 <= i < n ==> keeps_out(#[trigger] hosts[i], mounts[i].readonly, paths),
    decreases n,
{
    if n > 0 {
        mounts_are_accepted_where_they_keep_out(mounts, hosts, paths, n - 1);
        lemma_mount(mounts[n - 1], hosts[n - 1], paths);
        assert(hosts[n - 1] == hosts[n - 1]);
    }
}

/// Following the links of mounts changes where they are on the host and nothing
/// else: they stay as many, in their order, at the same guest paths, and none is
/// writable that was not. It succeeds exactly where every path can be followed
/// and none leads to what is terra's own.
pub proof fn followed_mounts_stay_what_they_are(
    mounts: Seq<MountView>,
    followed: Seq<Result<String, String>>,
    paths: TerraPaths,
)
    requires
        followed.len() == mounts.len(),
    ensures
        mount::resolved_mounts(mounts, followed, paths) is Ok <==> forall|i: int|
            0 <= i < mounts.len() ==> (#[trigger] followed[i]) is Ok && keeps_out(
                followed[i]->Ok_0@,
                mounts[i].readonly,
                paths,
            ),
        mount::resolved_mounts(mounts, followed, paths) matches Ok(done) ==> {
            &&& done.len() == mounts.len()
            &&& forall|i: int|
                0 <= i < mounts.len() ==> {
                    &&& (#[trigger] done[i]).host == followed[i]->Ok_0@
                    &&& done[i].guest == mounts[i].guest
                    &&& done[i].readonly == mounts[i].readonly
                }
        },
{
    lemma_followed(mounts, followed, mounts.len() as int);
    if let Ok(there) = mount::followed_mounts(mounts, followed, mounts.len() as int) {
        let hosts = mount::hosts_of(there);
        mounts_are_accepted_where_they_keep_out(there, hosts, paths, there.len() as int);
        if mount::resolved_mounts(mounts, followed, paths) is Ok {
            assert forall|i: int| 0 <= i < mounts.len() implies (#[trigger] followed[i]) is Ok
                && keeps_out(followed[i]->Ok_0@, mounts[i].readonly, paths) by {
                assert(keeps_out(hosts[i], there[i].readonly, paths));
            }
        } else {
            let i = choose|i: int|
                0 <= i < there.len() && !keeps_out(#[trigger] hosts[i], there[i].readonly, paths);
            assert(there[i].host == followed[i]->Ok_0@);
            assert(!keeps_out(followed[i]->Ok_0@, mounts[i].readonly, paths));
        }
    }
}

proof fn lemma_followed(mounts: Seq<MountView>, followed: Seq<Result<String, String>>, n: int)
    requires
        0 <= n <= mounts.len(),
        followed.len() == mounts.len(),
    ensures
        mount::followed_mounts(mounts, followed, n) is Ok <==> forall|i: int|
            0 <= i < n ==> (#[trigger] followed[i]) is Ok,
        mount::followed_mounts(mounts, followed, n) matches Ok(done) ==> {
            &&& done.len() == n
            &&& forall|i: int|
                0 <= i < n ==> {
                    &&& (#[trigger] done[i]).host == followed[i]->Ok_0@
                    &&& done[i].guest == mounts[i].guest
                    &&& done[i].readonly == mounts[i].readonly
                }
        },
    decreases n,
{
    if n > 0 {
        lemma_followed(mounts, followed, n - 1);
    }
}

/// The paths that are pinned of a recipe are the host paths of its mounts, in
/// their order, and that of its env file.
pub proof fn every_host_path_is_pinned(cfg: ConfigView)
    ensures
        mount::host_paths(cfg).mounts.len() == cfg.mounts.len(),
        forall|i: int|
            0 <= i < cfg.mounts.len() ==> #[trigger] mount::host_paths(cfg).mounts[i]
                == cfg.mounts[i].host,
        mount::host_paths(cfg).env_file == cfg.env_file,
{
}

/// Whether a declared mount can be written, by what it says: it is a mapping, it
/// says where it is shared from, and it does not say that it is read-only.
pub open spec fn is_written_through(mount: DeclaredView) -> bool {
    mount.is_mapping && mount.host is Some && mount.readonly != Some(true)
}

/// The shares a recipe lets its box write are those of its mounts that do not say
/// they are read-only, every one of them, in their order.
pub proof fn every_writable_share_is_listed(
    mounts: Seq<DeclaredView>,
    project_dir: Seq<char>,
    home: HomeView,
)
    ensures
        ({
            let shares = mount::writable_hosts(mounts, project_dir, home);
            &&& forall|i: int|
                0 <= i < mounts.len() && is_written_through(#[trigger] mounts[i]) ==> exists|s: int|
                    0 <= s < shares.len() && is_share_of(
                        #[trigger] shares[s],
                        mounts[i].host->0,
                        project_dir,
                        home,
                    )
            &&& forall|s: int|
                0 <= s < shares.len() ==> exists|i: int|
                    0 <= i < mounts.len() && is_written_through(#[trigger] mounts[i])
                        && is_share_of(#[trigger] shares[s], mounts[i].host->0, project_dir, home)
        }),
    decreases mounts.len(),
{
    if mounts.len() > 0 {
        let init = mounts.drop_last();
        every_writable_share_is_listed(init, project_dir, home);
        let before = mount::writable_hosts(init, project_dir, home);
        let shares = mount::writable_hosts(mounts, project_dir, home);
        let last = mounts.last();
        if is_written_through(last) {
            assert(is_share_of(shares[shares.len() - 1], last.host->0, project_dir, home));
        }
        assert forall|i: int|
            0 <= i < mounts.len() && is_written_through(#[trigger] mounts[i]) implies exists|s: int|
            0 <= s < shares.len() && is_share_of(
                #[trigger] shares[s],
                mounts[i].host->0,
                project_dir,
                home,
            ) by {
            if i < init.len() {
                assert(init[i] == mounts[i]);
                let s = choose|s: int|
                    0 <= s < before.len() && is_share_of(
                        #[trigger] before[s],
                        mounts[i].host->0,
                        project_dir,
                        home,
                    );
                assert(shares[s] == before[s]);
            }
        }
        assert forall|s: int| 0 <= s < shares.len() implies exists|i: int|
            0 <= i < mounts.len() && is_written_through(#[trigger] mounts[i]) && is_share_of(
                #[trigger] shares[s],
                mounts[i].host->0,
                project_dir,
                home,
            ) by {
            if s < before.len() {
                assert(shares[s] == before[s]);
                let i = choose|i: int|
                    0 <= i < init.len() && is_written_through(#[trigger] init[i]) && is_share_of(
                        before[s],
                        init[i].host->0,
                        project_dir,
                        home,
                    );
                assert(mounts[i] == init[i]);
            } else {
                assert(mounts[mounts.len() - 1] == last);
            }
        }
    }
}

/// Whether a share is where a declared host path leads, if it leads anywhere.
pub open spec fn is_share_of(
    share: Seq<char>,
    host: Seq<char>,
    project_dir: Seq<char>,
    home: HomeView,
) -> bool {
    match recipe::recipe_path(host, project_dir, home) {
        Ok(path) => share == path,
        Err(_) => share == mount::declared_host(host, project_dir, home),
    }
}

/// Whether the recipe of a box counts: it is there, can be read, and it is
/// known of which project it is.
pub open spec fn is_told(origin: Option<Seq<char>>, read: FileRead) -> bool {
    match read {
        FileRead::Missing => true,
        FileRead::Unreadable(_) => false,
        FileRead::Text(_) => origin is Some,
    }
}

/// The project that the boxes of a state directory are of.
pub open spec fn project_of(
    current_state: Seq<char>,
    project_dir: Seq<char>,
    project: FoundProject,
) -> Option<Seq<char>> {
    if path::equivalent(project.state_dir@, current_state) {
        Some(project_dir)
    } else {
        match project.origin {
            Some(origin) => Some(origin@),
            None => None,
        }
    }
}

proof fn lemma_recipes_of(
    state_dir: Seq<char>,
    origin: Option<Seq<char>>,
    boxes: Seq<(String, FileRead)>,
)
    ensures
        ({
            let recipes = mount::recipes_of(state_dir, origin, boxes);
            &&& recipes is Ok <==> forall|i: int|
                0 <= i < boxes.len() ==> is_told(origin, (#[trigger] boxes[i]).1)
            &&& recipes is Ok ==> forall|i: int|
                0 <= i < boxes.len() ==> match (#[trigger] boxes[i]).1 {
                    FileRead::Text(recipe) => recipes->Ok_0.contains((origin->0, recipe@)),
                    _ => true,
                }
        }),
    decreases boxes.len(),
{
    if boxes.len() > 0 {
        let init = boxes.drop_last();
        lemma_recipes_of(state_dir, origin, init);
        let before = mount::recipes_of(state_dir, origin, init);
        let recipes = mount::recipes_of(state_dir, origin, boxes);
        if recipes is Ok {
            assert(before is Ok);
            assert forall|i: int| 0 <= i < boxes.len() implies is_told(
                origin,
                (#[trigger] boxes[i]).1,
            ) by {
                if i < init.len() {
                    assert(is_told(origin, init[i].1));
                }
            }
            assert forall|i: int| 0 <= i < boxes.len() implies match (#[trigger] boxes[i]).1 {
                FileRead::Text(recipe) => recipes->Ok_0.contains((origin->0, recipe@)),
                _ => true,
            } by {
                if let FileRead::Text(recipe) = boxes[i].1 {
                    if i < init.len() {
                        assert(init[i] == boxes[i]);
                        let k = before->Ok_0.index_of((origin->0, recipe@));
                        assert(before->Ok_0.contains((origin->0, recipe@)));
                        assert(recipes->Ok_0[k] == (origin->0, recipe@));
                    } else {
                        assert(recipes->Ok_0[before->Ok_0.len() as int] == (origin->0, recipe@));
                    }
                }
            }
        } else {
            if before is Err {
                let i = choose|i: int|
                    0 <= i < init.len() && !is_told(origin, (#[trigger] init[i]).1);
                assert(!is_told(origin, boxes[i].1));
            } else {
                assert(!is_told(origin, boxes[boxes.len() - 1].1));
            }
        }
    }
}

/// The recipe of every box on the host is listed, with the project it is of:
/// that of this state directory, or the one that another says it belongs to.
/// None is passed over: one that cannot be read, or of which the project is
/// unknown, is refused.
pub proof fn every_recipe_on_the_host_is_listed(
    current_state: Seq<char>,
    project_dir: Seq<char>,
    found: Seq<FoundProject>,
)
    ensures
        ({
            let recipes = mount::all_recipes(current_state, project_dir, found);
            &&& recipes is Ok <==> forall|p: int, i: int|
                0 <= p < found.len() && 0 <= i < found[p].boxes@.len() ==> is_told(
                    project_of(current_state, project_dir, found[p]),
                    (#[trigger] found[p].boxes@[i]).1,
                )
            &&& recipes is Ok ==> forall|p: int, i: int|
                0 <= p < found.len() && 0 <= i < found[p].boxes@.len() ==> match (
                    #[trigger] found[p].boxes@[i]).1 {
                    FileRead::Text(recipe) => recipes->Ok_0.contains(
                        (project_of(current_state, project_dir, found[p])->0, recipe@),
                    ),
                    _ => true,
                }
        }),
    decreases found.len(),
{
    if found.len() > 0 {
        let init = found.drop_last();
        let last = found.last();
        let origin = project_of(current_state, project_dir, last);
        every_recipe_on_the_host_is_listed(current_state, project_dir, init);
        lemma_recipes_of(last.state_dir@, origin, last.boxes@);
        let before = mount::all_recipes(current_state, project_dir, init);
        let here = mount::recipes_of(last.state_dir@, origin, last.boxes@);
        let recipes = mount::all_recipes(current_state, project_dir, found);
        if recipes is Ok {
            assert(before is Ok && here is Ok);
            assert(recipes->Ok_0 == before->Ok_0 + here->Ok_0);
            assert forall|p: int, i: int|
                0 <= p < found.len() && 0 <= i < found[p].boxes@.len() implies is_told(
                project_of(current_state, project_dir, found[p]),
                (#[trigger] found[p].boxes@[i]).1,
            ) by {
                if p < init.len() {
                    assert(is_told(
                        project_of(current_state, project_dir, init[p]),
                        init[p].boxes@[i].1,
                    ));
                }
            }
            assert forall|p: int, i: int|
                0 <= p < found.len() && 0 <= i < found[p].boxes@.len() implies match (
                #[trigger] found[p].boxes@[i]).1 {
                FileRead::Text(recipe) => recipes->Ok_0.contains(
                    (project_of(current_state, project_dir, found[p])->0, recipe@),
                ),
                _ => true,
            } by {
                if let FileRead::Text(recipe) = found[p].boxes@[i].1 {
                    let told = (project_of(current_state, project_dir, found[p])->0, recipe@);
                    if p < init.len() {
                        assert(init[p].boxes@[i] == found[p].boxes@[i]);
                        assert(before->Ok_0.contains(told));
                        let k = before->Ok_0.index_of(told);
                        assert(recipes->Ok_0[k] == told);
                    } else {
                        assert(last.boxes@[i] == found[p].boxes@[i]);
                        assert(here->Ok_0.contains(told));
                        let k = here->Ok_0.index_of(told);
                        assert(recipes->Ok_0[before->Ok_0.len() + k] == told);
                    }
                }
            }
        } else if before is Err {
            let (p, i) = choose|p: int, i: int|
                0 <= p < init.len() && 0 <= i < init[p].boxes@.len() && !is_told(
                    project_of(current_state, project_dir, init[p]),
                    (#[trigger] init[p].boxes@[i]).1,
                );
            assert(!is_told(
                project_of(current_state, project_dir, found[p]),
                found[p].boxes@[i].1,
            ));
        } else {
            let i = choose|i: int|
                0 <= i < last.boxes@.len() && !is_told(origin, (#[trigger] last.boxes@[i]).1);
            let p = found.len() - 1;
            assert(!is_told(
                project_of(current_state, project_dir, found[p]),
                found[p].boxes@[i].1,
            ));
        }
    }
}

/// The shares for writing are told unless a mount draws keys in from elsewhere:
/// then nobody can tell.
pub proof fn merged_mounts_are_not_guessed_at(
    mounts: Seq<DeclaredView>,
    project_dir: Seq<char>,
    home: HomeView,
)
    ensures
        mount::declared_shares(mounts, project_dir, home) is Err <==> exists|i: int|
            0 <= i < mounts.len() && (#[trigger] mounts[i]).is_mapping && mounts[i].has_merge_key,
        mount::declared_shares(mounts, project_dir, home) matches Ok(shares) ==> shares
            == mount::writable_hosts(mounts, project_dir, home),
{
    if exists|i: int|
        0 <= i < mounts.len() && (#[trigger] mounts[i]).is_mapping && mounts[i].has_merge_key {
        let i = choose|i: int|
            0 <= i < mounts.len() && (#[trigger] mounts[i]).is_mapping && mounts[i].has_merge_key;
        assert(mount::is_merged(mounts[i]));
    }
}

/// What a box shares counts as pinned where as many shares were pinned, each in
/// the same place, and the env file too; without anything pinned it does not.
pub proof fn pins_hold_where_every_path_is_the_same(
    name: Seq<char>,
    stored: PinnedView,
    current: PinnedView,
)
    ensures
        mount::pins_verdict(name, None, current) is Err,
        mount::pins_verdict(name, Some(stored), current) is Ok <==> {
            &&& stored.mounts.len() == current.mounts.len()
            &&& forall|i: int|
                0 <= i < stored.mounts.len() ==> path::components(#[trigger] stored.mounts[i])
                    == path::components(current.mounts[i])
            &&& stored.env_file is Some <==> current.env_file is Some
            &&& stored.env_file is Some ==> path::components(stored.env_file->0)
                == path::components(current.env_file->0)
        },
{
    if mount::same_places(stored.mounts, current.mounts) {
        assert forall|i: int| 0 <= i < stored.mounts.len() implies path::components(
            #[trigger] stored.mounts[i],
        ) == path::components(current.mounts[i]) by {
            assert(path::equivalent(stored.mounts[i], current.mounts[i]));
        }
    }
}

} // verus!
