//! What becomes of a recipe between the file and the box: its paths are settled,
//! and nothing else is.

use crate::config::{ConfigView, MountView, VolumeView};
use crate::error::Refusal;
use crate::host::{HomeView, HostOs};
use crate::path::{self, ComponentView};
use crate::recipe::{self, RecipeFacts};
use crate::text;
use crate::unicode;
use vstd::prelude::*;

verus! {

proof fn lemma_hosts(mounts: Seq<MountView>, n: int, project_dir: Seq<char>, home: HomeView)
    requires
        0 <= n <= mounts.len(),
    ensures
        match recipe::with_hosts(mounts, n, project_dir, home) {
            Ok(done) => {
                &&& done.len() == n
                &&& forall|i: int|
                    0 <= i < n ==> recipe::recipe_path(mounts[i].host, project_dir, home) == Ok::<
                        _,
                        Refusal,
                    >((#[trigger] done[i]).host) && done[i].guest == mounts[i].guest
                        && done[i].readonly == mounts[i].readonly
            },
            Err(_) => exists|i: int|
                0 <= i < n && recipe::recipe_path(
                    (#[trigger] mounts[i]).host,
                    project_dir,
                    home,
                ) is Err,
        },
    decreases n,
{
    if n > 0 {
        lemma_hosts(mounts, n - 1, project_dir, home);
        if recipe::with_hosts(mounts, n - 1, project_dir, home) is Ok && recipe::with_hosts(
            mounts,
            n,
            project_dir,
            home,
        ) is Err {
            assert(recipe::recipe_path(mounts[n - 1].host, project_dir, home) is Err);
        }
    }
}

proof fn lemma_mount_guests(mounts: Seq<MountView>, n: int)
    requires
        0 <= n <= mounts.len(),
    ensures
        match recipe::with_mount_guests(mounts, n) {
            Ok(done) => {
                &&& done.len() == n
                &&& forall|i: int|
                    0 <= i < n ==> recipe::guest_path(mounts[i].guest) == Ok::<_, Refusal>(
                        (#[trigger] done[i]).guest,
                    ) && done[i].host == mounts[i].host && done[i].readonly == mounts[i].readonly
            },
            Err(_) => exists|i: int|
                0 <= i < n && recipe::guest_path((#[trigger] mounts[i]).guest) is Err,
        },
    decreases n,
{
    if n > 0 {
        lemma_mount_guests(mounts, n - 1);
        if recipe::with_mount_guests(mounts, n - 1) is Ok && recipe::with_mount_guests(mounts, n) is Err {
            assert(recipe::guest_path(mounts[n - 1].guest) is Err);
        }
    }
}

proof fn lemma_volume_guests(volumes: Seq<VolumeView>, n: int)
    requires
        0 <= n <= volumes.len(),
    ensures
        match recipe::with_volume_guests(volumes, n) {
            Ok(done) => {
                &&& done.len() == n
                &&& forall|i: int|
                    0 <= i < n ==> recipe::guest_path(volumes[i].guest) == Ok::<_, Refusal>(
                        (#[trigger] done[i]).guest,
                    ) && done[i].name == volumes[i].name && done[i].size_mib == volumes[i].size_mib
            },
            Err(_) => exists|i: int|
                0 <= i < n && recipe::guest_path((#[trigger] volumes[i]).guest) is Err,
        },
    decreases n,
{
    if n > 0 {
        lemma_volume_guests(volumes, n - 1);
        if recipe::with_volume_guests(volumes, n - 1) is Ok && recipe::with_volume_guests(
            volumes,
            n,
        ) is Err {
            assert(recipe::guest_path(volumes[n - 1].guest) is Err);
        }
    }
}

/// Whether a recipe is another one with its paths settled: it has the same
/// mounts in the same order, each read-only exactly where it was, and the same
/// volumes with their names and sizes; host paths are resolved against the
/// project, guest paths are in normal form, commands are trimmed, and
/// everything else is as it was written.
pub open spec fn is_settled_form(
    written: ConfigView,
    done: ConfigView,
    project_dir: Seq<char>,
    home: HomeView,
) -> bool {
    &&& done.mounts.len() == written.mounts.len()
    &&& forall|i: int|
        0 <= i < written.mounts.len() ==> {
            let mount = #[trigger] done.mounts[i];
            &&& mount.readonly == written.mounts[i].readonly
            &&& recipe::recipe_path(written.mounts[i].host, project_dir, home) == Ok::<_, Refusal>(
                mount.host,
            )
            &&& recipe::guest_path(written.mounts[i].guest) == Ok::<_, Refusal>(mount.guest)
        }
    &&& done.volumes.len() == written.volumes.len()
    &&& forall|i: int|
        0 <= i < written.volumes.len() ==> {
            let volume = #[trigger] done.volumes[i];
            &&& volume.name == written.volumes[i].name
            &&& volume.size_mib == written.volumes[i].size_mib
            &&& recipe::guest_path(written.volumes[i].guest) == Ok::<_, Refusal>(volume.guest)
        }
    &&& match written.env_file {
        None => done.env_file is None,
        Some(file) => done.env_file is Some && recipe::recipe_path(file, project_dir, home) == Ok::<
            _,
            Refusal,
        >(done.env_file->0),
    }
    &&& done.sudo.len() == written.sudo.len()
    &&& forall|i: int|
        0 <= i < written.sudo.len() ==> #[trigger] done.sudo[i] == unicode::trimmed(written.sudo[i])
    &&& done.hw == written.hw
    &&& done.components == written.components
    &&& done.network == written.network
    &&& done.hooks == written.hooks
    &&& done.daemons == written.daemons
    &&& done.workload == written.workload
    &&& done.env == written.env
}

/// Settling a recipe changes its paths and nothing else, and fails only where
/// one of them cannot be settled.
pub proof fn settling_changes_paths_only(
    written: ConfigView,
    project_dir: Seq<char>,
    home: HomeView,
)
    ensures
        match recipe::settled(written, project_dir, home) {
            Ok(done) => is_settled_form(written, done, project_dir, home),
            Err(_) => {
                ||| exists|i: int|
                    0 <= i < written.mounts.len() && (recipe::recipe_path(
                        (#[trigger] written.mounts[i]).host,
                        project_dir,
                        home,
                    ) is Err || recipe::guest_path(written.mounts[i].guest) is Err)
                ||| written.env_file is Some && recipe::recipe_path(
                    written.env_file->0,
                    project_dir,
                    home,
                ) is Err
                ||| exists|i: int|
                    0 <= i < written.volumes.len() && recipe::guest_path(
                        (#[trigger] written.volumes[i]).guest,
                    ) is Err
            },
        },
{
    let n = written.mounts.len() as int;
    lemma_hosts(written.mounts, n, project_dir, home);
    lemma_volume_guests(written.volumes, written.volumes.len() as int);
    match recipe::with_hosts(written.mounts, n, project_dir, home) {
        Ok(hosted) => {
            lemma_mount_guests(hosted, n);
            match recipe::with_mount_guests(hosted, n) {
                Ok(mounts) => {
                    assert forall|i: int| 0 <= i < n implies {
                        let mount = #[trigger] mounts[i];
                        &&& mount.readonly == written.mounts[i].readonly
                        &&& recipe::recipe_path(written.mounts[i].host, project_dir, home) == Ok::<
                            _,
                            Refusal,
                        >(mount.host)
                        &&& recipe::guest_path(written.mounts[i].guest) == Ok::<_, Refusal>(
                            mount.guest,
                        )
                    } by {
                        assert(hosted[i].readonly == written.mounts[i].readonly);
                    }
                },
                Err(_) => {
                    let i = choose|i: int|
                        0 <= i < n && recipe::guest_path((#[trigger] hosted[i]).guest) is Err;
                    assert(hosted[i].guest == written.mounts[i].guest);
                    assert(recipe::guest_path(written.mounts[i].guest) is Err);
                },
            }
        },
        Err(_) => {
            let i = choose|i: int|
                0 <= i < n && recipe::recipe_path(
                    (#[trigger] written.mounts[i]).host,
                    project_dir,
                    home,
                ) is Err;
            assert(recipe::recipe_path(written.mounts[i].host, project_dir, home) is Err);
        },
    }
}

/// A recipe that is read from a file is what the file says with its paths
/// settled: it gets no mount, no right to write, no volume and no variable that
/// it did not ask for, and loses none. One that cannot be parsed, settled or
/// accepted is none at all.
pub proof fn recipes_are_what_their_files_say(
    parsed: Result<ConfigView, Seq<char>>,
    project_dir: Seq<char>,
    source: Seq<char>,
    home: HomeView,
    facts: RecipeFacts,
)
    ensures
        match recipe::recipe_from(parsed, project_dir, source, home, facts) {
            Ok(done) => parsed is Ok && is_settled_form(parsed->Ok_0, done, project_dir, home)
                && recipe::recipe_verdict(done, facts) is Ok,
            Err(_) => match parsed {
                Err(_) => true,
                Ok(written) => match recipe::settled(written, project_dir, home) {
                    Err(_) => true,
                    Ok(done) => recipe::recipe_verdict(done, facts) is Err,
                },
            },
        },
{
    if let Ok(written) = parsed {
        settling_changes_paths_only(written, project_dir, home);
    }
}

/// On a host that separates by slashes, a path from the root stands for itself,
/// and any other that names no home lies in the project.
pub proof fn paths_lie_in_the_project_or_where_they_say(
    path: Seq<char>,
    project_dir: Seq<char>,
    home: HomeView,
)
    requires
        home.os != HostOs::Windows,
        path.len() > 0,
    ensures
        path[0] == '/' ==> recipe::recipe_path(path, project_dir, home) == Ok::<_, Refusal>(path),
        path[0] != '/' && path[0] != '~' && project_dir.len() > 0 && project_dir.last() != '/'
            ==> recipe::recipe_path(path, project_dir, home) == Ok::<_, Refusal>(
            project_dir + seq!['/'] + path,
        ),
{
    let names = text::pieces(path, '/');
    lemma_first_piece(path);
    let list = path::components(path);
    reveal_strlit("~");
    if path[0] != '/' && path[0] != '~' {
        lemma_first_step(path);
        assert(project_dir.push('/') + path =~= project_dir + seq!['/'] + path);
    } else if path[0] == '/' {
        lemma_first_step(path);
    }
}

/// The first piece of a text begins as the text does, unless that is with a
/// separator.
proof fn lemma_first_piece(text: Seq<char>)
    requires
        text.len() > 0,
    ensures
        text[0] == '/' ==> text::pieces(text, '/')[0].len() == 0 && text::pieces(text, '/').len() > 1,
        text[0] != '/' ==> text::pieces(text, '/')[0].len() > 0 && text::pieces(text, '/')[0][0]
            == text[0],
        text::pieces(text, '/').len() > 0,
    decreases text.len(),
{
    let init = text.drop_last();
    text::lemma_pieces_nonempty(init, '/');
    if text.len() > 1 {
        lemma_first_piece(init);
        assert(init[0] == text[0]);
    } else {
        assert(init =~= Seq::empty());
        assert(text::pieces(init, '/') =~= seq![Seq::empty()]);
    }
}

/// The first step of a path that begins with neither a slash nor a tilde is no
/// name with a tilde in front; that of one from the root is the root.
proof fn lemma_first_step(path: Seq<char>)
    requires
        path.len() > 0,
    ensures
        path[0] == '/' ==> path::components(path).len() > 0 && path::components(path)[0]
            == ComponentView::Root,
        path[0] != '/' && path[0] != '~' ==> path::components(path).len() > 0 && !(
        path::components(path)[0] matches ComponentView::Normal(name) && name.len() > 0 && name[0]
            == '~'),
{
    let names = text::pieces(path, '/');
    lemma_first_piece(path);
    lemma_named_steps(names);
}

/// The first of the steps that names stand for is that of the first name that
/// stands for one.
proof fn lemma_named_steps(names: Seq<Seq<char>>)
    requires
        names.len() > 0,
    ensures
        names[0].len() > 0 && names[0] != seq!['.'] ==> path::named_steps(names).len() > 0
            && path::named_steps(names)[0] == (if names[0] == seq!['.', '.'] {
            ComponentView::Parent
        } else {
            ComponentView::Normal(names[0])
        }),
    decreases names.len(),
{
    if names.len() > 1 {
        lemma_named_steps(names.drop_last());
        assert(names.drop_last()[0] == names[0]);
    } else {
        assert(names.drop_last() =~= Seq::empty());
        assert(path::named_steps(names.drop_last()) =~= Seq::empty());
    }
}

/// How a guest path is read, step by step from the root: an empty step and a dot
/// stay where they are, two dots go back up, and any other step goes down.
pub proof fn guest_paths_are_walked_step_by_step(path: Seq<char>, step: Seq<char>)
    requires
        recipe::guest_path(path) is Ok,
        !step.contains('/'),
        !step.contains('\\'),
    ensures
        ({
            let here = recipe::guest_path(path)->Ok_0;
            let there = recipe::guest_path(path + seq!['/'] + step);
            &&& step.len() == 0 || step == seq!['.'] ==> there == Ok::<_, Refusal>(here)
            &&& step.len() > 0 && step != seq!['.'] && step != seq!['.', '.'] ==> there == Ok::<
                _,
                Refusal,
            >(
                if here == seq!['/'] {
                    seq!['/'] + step
                } else {
                    here + seq!['/'] + step
                },
            )
            &&& step.len() > 0 && step != seq!['.'] && step != seq!['.', '.'] ==> recipe::guest_path(
                path + seq!['/'] + step + seq!['/', '.', '.'],
            ) == Ok::<_, Refusal>(here)
            &&& step == seq!['.', '.'] && here == seq!['/'] ==> there == Ok::<_, Refusal>(here)
        }),
        recipe::guest_path(seq!['/']) == Ok::<_, Refusal>(seq!['/']),
{
    reveal_strlit("/");
    let names = text::pieces(path, '/');
    let longer = path + seq!['/'] + step;
    assert(longer =~= path.push('/') + step);
    text::lemma_pieces_add(path, '/', step);
    let more = text::pieces(longer, '/');
    assert(more.drop_last() =~= names);
    recipe::laws::lemma_backslash(path);
    recipe::laws::lemma_backslash(longer);
    lemma_no_backslash(path, step);
    assert(longer[0] == '/');
    let resolved = recipe::resolved_names(names);
    lemma_resolved_nonempty(names);
    let here = "/"@ + text::joined(resolved, "/"@);
    assert("/"@ =~= seq!['/']);
    if step.len() > 0 && step != seq!['.'] && step != seq!['.', '.'] {
        let all = resolved.push(step);
        assert(all.drop_last() =~= resolved);
        if resolved.len() == 0 {
            assert(here =~= seq!['/']);
            assert("/"@ + text::joined(all, "/"@) =~= seq!['/'] + step);
        } else {
            lemma_joined_nonempty(resolved);
            assert("/"@ + text::joined(all, "/"@) =~= here + seq!['/'] + step);
        }
        let back = longer + seq!['/', '.', '.'];
        let up = seq!['.', '.'];
        assert(back =~= longer.push('/') + up);
        text::lemma_pieces_add(longer, '/', up);
        let again = text::pieces(back, '/');
        assert(again.drop_last() =~= more);
        recipe::laws::lemma_backslash(back);
        lemma_no_backslash(longer, up);
        assert(back =~= longer + seq!['/'] + up);
        assert(path + seq!['/'] + step + seq!['/', '.', '.'] =~= back);
        assert(back[0] == '/');
    }
    if here == seq!['/'] && resolved.len() > 0 {
        lemma_joined_nonempty(resolved);
    }
    lemma_root();
}

proof fn lemma_root()
    ensures
        recipe::guest_path(seq!['/']) == Ok::<_, Refusal>(seq!['/']),
{
    reveal_strlit("/");
    let nothing = Seq::<char>::empty();
    let root = seq!['/'];
    assert(root =~= nothing.push('/') + nothing);
    text::lemma_pieces_add(nothing, '/', nothing);
    let names = text::pieces(root, '/');
    assert(names =~= seq![nothing, nothing]);
    assert(names.drop_last() =~= seq![nothing]);
    assert(names.drop_last().drop_last() =~= Seq::empty());
    assert(recipe::resolved_names(names.drop_last().drop_last()) =~= Seq::empty());
    assert(recipe::resolved_names(names.drop_last()) =~= Seq::empty());
    assert(recipe::resolved_names(names) =~= Seq::empty());
    recipe::laws::lemma_backslash(root);
    assert("/"@ + text::joined(recipe::resolved_names(names), "/"@) =~= root);
}

proof fn lemma_no_backslash(path: Seq<char>, step: Seq<char>)
    requires
        !path.contains('\\'),
        !step.contains('\\'),
    ensures
        !(path + seq!['/'] + step).contains('\\'),
{
    let longer = path + seq!['/'] + step;
    if longer.contains('\\') {
        let k = choose|k: int| 0 <= k < longer.len() && longer[k] == '\\';
        if k < path.len() {
            assert(path[k] == '\\');
        } else if k > path.len() {
            assert(step[k - path.len() - 1] == '\\');
        }
    }
}

proof fn lemma_resolved_nonempty(names: Seq<Seq<char>>)
    ensures
        forall|i: int|
            0 <= i < recipe::resolved_names(names).len() ==> (#[trigger] recipe::resolved_names(
                names,
            )[i]).len() > 0,
    decreases names.len(),
{
    if names.len() > 0 {
        lemma_resolved_nonempty(names.drop_last());
        let before = recipe::resolved_names(names.drop_last());
        let now = recipe::resolved_names(names);
        assert forall|i: int| 0 <= i < now.len() implies (#[trigger] now[i]).len() > 0 by {
            if i < before.len() {
                assert(now[i] == before[i]);
            }
        }
    }
}

proof fn lemma_joined_nonempty(names: Seq<Seq<char>>)
    requires
        names.len() > 0,
        forall|i: int| 0 <= i < names.len() ==> (#[trigger] names[i]).len() > 0,
    ensures
        text::joined(names, "/"@).len() > 0,
{
    assert(names[names.len() - 1].len() > 0);
}

/// What stands in front of a path that a recipe asks for is the home directory
/// where it says `~/`; a home of someone else is refused.
pub proof fn tildes_stand_for_the_home_directory(
    name: Seq<char>,
    project_dir: Seq<char>,
    home: HomeView,
)
    requires
        home.os != HostOs::Windows,
        path::one_step(name),
    ensures
        match home.dir {
            Ok(dir) => dir.len() > 0 && dir[0] == '/' && dir.last() != '/' ==> recipe::recipe_path(
                seq!['~', '/'] + name,
                project_dir,
                home,
            ) == Ok::<_, Refusal>(dir + seq!['/'] + name),
            Err(_) => recipe::recipe_path(seq!['~', '/'] + name, project_dir, home) is Err,
        },
        name[0] == '~' && name.len() > 1 ==> recipe::recipe_path(name, project_dir, home) is Err,
{
    reveal_strlit("~");
    assert("~"@ =~= seq!['~']);
    let tilde = seq!['~'];
    let whole = seq!['~', '/'] + name;
    let nothing = Seq::<char>::empty();
    assert(whole =~= tilde.push('/') + name);
    text::lemma_pieces_add(tilde, '/', name);
    text::lemma_pieces_extend(nothing, tilde, '/');
    assert(nothing + tilde =~= tilde);
    assert(text::pieces(nothing, '/') =~= seq![nothing]);
    assert(nothing + tilde =~= tilde);
    assert(text::pieces(tilde, '/') =~= seq![tilde]);
    let names = text::pieces(whole, '/');
    assert(names =~= seq![tilde, name]);
    assert(names.drop_last() =~= seq![tilde]);
    assert(names.drop_last().drop_last() =~= Seq::empty());
    assert(path::named_steps(names.drop_last().drop_last()) =~= Seq::empty());
    assert(path::named_steps(names.drop_last()) =~= seq![ComponentView::Normal(tilde)]);
    let list = path::components(whole);
    assert(list =~= seq![ComponentView::Normal(tilde), ComponentView::Normal(name)]);
    let rest = list.skip(1);
    assert(rest =~= seq![ComponentView::Normal(name)]);
    assert(rest.drop_last() =~= Seq::empty());
    assert(path::spelled(rest.drop_last()) =~= nothing);
    assert(!path::is_absolute(name)) by {
        if name[0] == '/' {
            assert(name.contains('/'));
        }
    }
    assert(path::spelled(rest) =~= name);
    if let Ok(dir) = home.dir {
        assert(dir.push('/') + name =~= dir + seq!['/'] + name);
    }
    if name[0] == '~' && name.len() > 1 {
        text::lemma_pieces_extend(nothing, name, '/');
        assert(nothing + name =~= name);
        assert(text::pieces(name, '/') =~= seq![name]);
        assert(seq![name].drop_last() =~= Seq::empty());
        assert(path::named_steps(seq![name].drop_last()) =~= Seq::empty());
        assert(path::components(name) =~= seq![ComponentView::Normal(name)]);
        assert(name != tilde);
    }
}

} // verus!
