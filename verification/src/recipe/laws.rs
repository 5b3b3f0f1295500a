//! What holds of every recipe that is accepted.

use crate::config::{Components, ConfigView, VolumeView};
use crate::env;
use crate::host::{HomeView, HostOs};
use crate::name;
use crate::network;
use crate::path;
use crate::recipe::{self, MIN_MEM_MIB, ReadManifest, ReadRecipe, RecipeFacts};
use crate::resolve;
use crate::state::{self, BoxView};
use crate::text;
use crate::unicode;
use vstd::prelude::*;

verus! {

/// Whether a name is one step of a path as it is.
spec fn plain_step(name: Seq<char>) -> bool {
    name.len() > 0 && name != seq!['.'] && name != seq!['.', '.'] && !name.contains('/')
        && !name.contains('\\')
}

spec fn plain_steps(names: Seq<Seq<char>>) -> bool {
    forall|i: int| 0 <= i < names.len() ==> plain_step(#[trigger] names[i])
}

/// No piece holds the separator it was cut at.
proof fn lemma_pieces_cut(text: Seq<char>, separator: char)
    ensures
        forall|i: int|
            0 <= i < text::pieces(text, separator).len() ==> !(#[trigger] text::pieces(
                text,
                separator,
            )[i]).contains(separator),
    decreases text.len(),
{
    if text.len() > 0 {
        let before = text::pieces(text.drop_last(), separator);
        lemma_pieces_cut(text.drop_last(), separator);
        text::lemma_pieces_nonempty(text.drop_last(), separator);
        let list = text::pieces(text, separator);
        assert forall|i: int| 0 <= i < list.len() implies !(#[trigger] list[i]).contains(
            separator,
        ) by {
            if text.last() == separator {
                if i < before.len() {
                    assert(list[i] == before[i]);
                }
            } else if i < before.len() - 1 {
                assert(list[i] == before[i]);
            } else {
                let piece = before.last();
                assert(!before[before.len() - 1].contains(separator));
                if list[i].contains(separator) {
                    let k = choose|k: int| 0 <= k < list[i].len() && list[i][k] == separator;
                    assert(list[i] == piece.push(text.last()));
                    assert(piece[k] == separator);
                }
            }
        }
    }
}

/// What is left of the names of a path are plain steps.
proof fn lemma_resolved_plain(names: Seq<Seq<char>>)
    requires
        !recipe::has_backslash(names),
        forall|i: int| 0 <= i < names.len() ==> !(#[trigger] names[i]).contains('/'),
    ensures
        plain_steps(recipe::resolved_names(names)),
    decreases names.len(),
{
    if names.len() > 0 {
        let init = names.drop_last();
        assert forall|i: int| 0 <= i < init.len() implies !(#[trigger] init[i]).contains('/')
            && !init[i].contains('\\') by {
            assert(init[i] == names[i]);
        }
        lemma_resolved_plain(init);
        assert(!names[names.len() - 1].contains('/'));
        assert(!names[names.len() - 1].contains('\\'));
    }
}

/// Plain steps are read back from the path they make.
proof fn lemma_steps_read_back(names: Seq<Seq<char>>)
    requires
        plain_steps(names),
        names.len() > 0,
    ensures
        text::pieces("/"@ + text::joined(names, "/"@), '/') == seq![Seq::<char>::empty()] + names,
    decreases names.len(),
{
    reveal_strlit("/");
    assert("/"@ =~= seq!['/']);
    let last = names.last();
    assert(plain_step(names[names.len() - 1]));
    if names.len() == 1 {
        let nothing = Seq::<char>::empty();
        assert("/"@ + text::joined(names, "/"@) =~= nothing.push('/') + last);
        text::lemma_pieces_add(nothing, '/', last);
        assert(text::pieces(nothing, '/').push(last) =~= seq![nothing] + names);
    } else {
        let init = names.drop_last();
        assert forall|i: int| 0 <= i < init.len() implies plain_step(#[trigger] init[i]) by {
            assert(init[i] == names[i]);
        }
        lemma_steps_read_back(init);
        let before = "/"@ + text::joined(init, "/"@);
        assert("/"@ + text::joined(names, "/"@) =~= before.push('/') + last);
        text::lemma_pieces_add(before, '/', last);
        assert((seq![Seq::<char>::empty()] + init).push(last) =~= seq![Seq::<char>::empty()] + names);
    }
}

/// Plain steps are what is left of themselves.
proof fn lemma_plain_steps_stay(names: Seq<Seq<char>>)
    requires
        plain_steps(names),
    ensures
        recipe::resolved_names(seq![Seq::<char>::empty()] + names) == names,
    decreases names.len(),
{
    let list = seq![Seq::<char>::empty()] + names;
    if names.len() == 0 {
        assert(list.drop_last() =~= Seq::empty());
        assert(recipe::resolved_names(list.drop_last()) =~= Seq::empty());
        assert(recipe::resolved_names(list) =~= names);
    } else {
        let init = names.drop_last();
        assert forall|i: int| 0 <= i < init.len() implies plain_step(#[trigger] init[i]) by {
            assert(init[i] == names[i]);
        }
        lemma_plain_steps_stay(init);
        assert(list.drop_last() =~= seq![Seq::<char>::empty()] + init);
        assert(plain_step(names[names.len() - 1]));
        assert(init.push(names.last()) =~= names);
    }
}

/// The normal form of a guest path is absolute, has no empty step, no dot and
/// no two dots in it, ends in a slash only where it is nothing else, and is its
/// own normal form, so a path is compared with another by its text alone.
pub proof fn guest_paths_have_one_normal_form(path: Seq<char>)
    requires
        recipe::guest_path(path) is Ok,
    ensures
        recipe::guest_path(path)->Ok_0.len() > 0,
        recipe::guest_path(path)->Ok_0[0] == '/',
        ({
            let normal = recipe::guest_path(path)->Ok_0;
            let steps = text::pieces(normal, '/');
            normal == seq!['/'] || {
                &&& normal.last() != '/'
                &&& steps.len() > 1
                &&& steps[0].len() == 0
                &&& forall|i: int|
                    0 < i < steps.len() ==> (#[trigger] steps[i]).len() > 0 && steps[i] != seq!['.']
                        && steps[i] != seq!['.', '.'] && !steps[i].contains('\\')
            }
        }),
        recipe::guest_path(recipe::guest_path(path)->Ok_0) == recipe::guest_path(path),
{
    reveal_strlit("/");
    let names = text::pieces(path, '/');
    lemma_pieces_cut(path, '/');
    lemma_resolved_plain(names);
    let plain = recipe::resolved_names(names);
    let normal = "/"@ + text::joined(plain, "/"@);
    assert(normal[0] == '/');
    let again = text::pieces(normal, '/');
    if plain.len() == 0 {
        let nothing = Seq::<char>::empty();
        assert(normal =~= nothing.push('/') + nothing);
        text::lemma_pieces_add(nothing, '/', nothing);
        assert(again =~= seq![nothing, nothing]);
        assert(again.drop_last() =~= seq![nothing]);
        assert(again.drop_last().drop_last() =~= Seq::empty());
        assert(recipe::resolved_names(again.drop_last().drop_last()) =~= Seq::empty());
        assert(recipe::resolved_names(again.drop_last()) =~= Seq::empty());
        assert(recipe::resolved_names(again) =~= plain);
        assert(normal =~= seq!['/']);
    } else {
        lemma_steps_read_back(plain);
        lemma_plain_steps_stay(plain);
        assert forall|i: int| 0 < i < again.len() implies (#[trigger] again[i]).len() > 0 && again[i]
            != seq!['.'] && again[i] != seq!['.', '.'] && !again[i].contains('\\') by {
            assert(again[i] == plain[i - 1]);
            assert(plain_step(plain[i - 1]));
        }
        assert(normal.last() != '/') by {
            if normal.last() == '/' {
                assert(again.last().len() == 0);
                assert(again[again.len() - 1].len() > 0);
            }
        }
        assert forall|i: int| 0 <= i < again.len() implies !(#[trigger] again[i]).contains('\\') by {
            if i > 0 {
                assert(again[i] == plain[i - 1]);
                assert(plain_step(plain[i - 1]));
            }
        }
    }
}

pub proof fn lemma_backslash(path: Seq<char>)
    ensures
        recipe::has_backslash(text::pieces(path, '/')) == path.contains('\\'),
    decreases path.len(),
{
    let list = text::pieces(path, '/');
    if path.len() == 0 {
        assert forall|i: int| 0 <= i < list.len() implies !(#[trigger] list[i]).contains('\\') by {
            assert(list[i].len() == 0);
        }
    } else {
        let init = path.drop_last();
        let before = text::pieces(init, '/');
        let c = path.last();
        lemma_backslash(init);
        text::lemma_pieces_nonempty(init, '/');
        if path.contains('\\') {
            let k = choose|k: int| 0 <= k < path.len() && path[k] == '\\';
            if k < init.len() {
                assert(init[k] == '\\');
                let i = choose|i: int| 0 <= i < before.len() && (#[trigger] before[i]).contains('\\');
                let at = choose|at: int| 0 <= at < before[i].len() && before[i][at] == '\\';
                assert(list[i][at] == '\\');
                assert(list[i].contains('\\'));
            } else {
                assert(list.last() == before.last().push(c));
                assert(list[list.len() - 1][before.last().len() as int] == '\\');
                assert(list[list.len() - 1].contains('\\'));
            }
        }
        if recipe::has_backslash(list) {
            let i = choose|i: int| 0 <= i < list.len() && (#[trigger] list[i]).contains('\\');
            let at = choose|at: int| 0 <= at < list[i].len() && list[i][at] == '\\';
            if c == '/' {
                assert(i < before.len());
                assert(before[i].contains('\\'));
            } else if i < before.len() - 1 {
                assert(before[i].contains('\\'));
            } else if at < before.last().len() {
                assert(before[before.len() - 1][at] == '\\');
                assert(before[before.len() - 1].contains('\\'));
            } else {
                assert(path[path.len() - 1] == '\\');
            }
            if init.contains('\\') {
                let k = choose|k: int| 0 <= k < init.len() && init[k] == '\\';
                assert(path[k] == '\\');
            }
        }
    }
}

/// A guest path is refused for two reasons only: that it is not absolute, and
/// that it holds a backslash.
pub proof fn guest_paths_are_absolute_without_backslashes(path: Seq<char>)
    ensures
        recipe::guest_path(path) is Ok <==> path.len() > 0 && path[0] == '/' && !path.contains('\\'),
{
    lemma_backslash(path);
}

proof fn lemma_volumes_sound(volumes: Seq<VolumeView>, n: int, i: int)
    requires
        recipe::first_volumes_verdict(volumes, n) is Ok,
        0 <= i < n <= volumes.len(),
    ensures
        recipe::volume_verdict(volumes, i) is Ok,
    decreases n,
{
    if i < n - 1 {
        lemma_volumes_sound(volumes, n - 1, i);
    }
}

proof fn lemma_claims_apart(all: Seq<(Seq<char>, Seq<char>)>, n: int, i: int, j: int)
    requires
        recipe::claims_verdict(all, n) is Ok,
        0 <= i < j < n <= all.len(),
    ensures
        !path::equivalent(all[i].0, all[j].0),
    decreases n,
{
    if j < n - 1 {
        lemma_claims_apart(all, n - 1, i, j);
    } else {
        lemma_unclaimed(all, j, j, i);
    }
}

proof fn lemma_unclaimed(all: Seq<(Seq<char>, Seq<char>)>, i: int, n: int, k: int)
    requires
        recipe::claimed_before(all, i, n) is None,
        0 <= k < n,
    ensures
        !path::equivalent(all[k].0, all[i].0),
    decreases n,
{
    if k < n - 1 {
        lemma_unclaimed(all, i, n - 1, k);
    }
}

/// A recipe that is accepted asks for a machine that can boot, gives every
/// guest path one thing at most, and names volumes whose images lie in the box,
/// each a file of its own.
pub proof fn accepted_recipes_are_sound(cfg: ConfigView, facts: RecipeFacts, bx: BoxView)
    requires
        recipe::recipe_verdict(cfg, facts) is Ok,
    ensures
        cfg.hw.cpus > 0,
        cfg.hw.mem_mib >= MIN_MEM_MIB,
        cfg.hw.rootfs_mib > 0,
        facts.max_vcpus is Some ==> cfg.hw.cpus <= facts.max_vcpus->0,
        cfg.volumes.len() <= facts.max_volumes,
        forall|i: int|
            0 <= i < cfg.volumes.len() ==> (#[trigger] cfg.volumes[i]).size_mib > 0 && state::named_image(
                bx,
                state::volume_file(cfg.volumes[i].name),
            ) == Some(path::placed(bx.dir, state::volume_file(cfg.volumes[i].name))),
        forall|i: int, j: int|
            0 <= i < j < cfg.volumes.len() ==> (#[trigger] cfg.volumes[i]).name != (
            #[trigger] cfg.volumes[j]).name,
        forall|i: int, j: int|
            0 <= i < j < recipe::claims(cfg).len() ==> !path::equivalent(
                (#[trigger] recipe::claims(cfg)[i]).0,
                (#[trigger] recipe::claims(cfg)[j]).0,
            ),
{
    let n = cfg.volumes.len() as int;
    assert forall|i: int| 0 <= i < cfg.volumes.len() implies (#[trigger] cfg.volumes[i]).size_mib
        > 0 && state::named_image(bx, state::volume_file(cfg.volumes[i].name)) == Some(
        path::placed(bx.dir, state::volume_file(cfg.volumes[i].name)),
    ) by {
        lemma_volumes_sound(cfg.volumes, n, i);
        let name = cfg.volumes[i].name;
        assert(recipe::plain_name(name));
        assert(!name.contains('/') && !name.contains('\\')) by {
            if name.contains('/') {
                let k = choose|k: int| 0 <= k < name.len() && name[k] == '/';
                assert(recipe::fit_for_name(name[k]));
            }
            if name.contains('\\') {
                let k = choose|k: int| 0 <= k < name.len() && name[k] == '\\';
                assert(recipe::fit_for_name(name[k]));
            }
        }
        state::volume_images_are_found_by_name(bx, name);
    }
    assert forall|i: int, j: int| 0 <= i < j < cfg.volumes.len() implies (
    #[trigger] cfg.volumes[i]).name != (#[trigger] cfg.volumes[j]).name by {
        lemma_volumes_sound(cfg.volumes, n, j);
        assert(!recipe::named_before(cfg.volumes, j));
    }
    let all = recipe::claims(cfg);
    assert forall|i: int, j: int| 0 <= i < j < all.len() implies !path::equivalent(
        (#[trigger] all[i]).0,
        (#[trigger] all[j]).0,
    ) by {
        lemma_claims_apart(all, all.len() as int, i, j);
    }
}

/// Whether a recipe asks for a machine that can be had: a processor at least and
/// no more than there are, 128 MiB of memory, and a root image of some size.
pub open spec fn has_fitting_hardware(cfg: ConfigView, facts: RecipeFacts) -> bool {
    &&& cfg.hw.cpus >= 1
    &&& facts.max_vcpus matches Some(most) ==> cfg.hw.cpus <= most
    &&& cfg.hw.mem_mib >= 128
    &&& cfg.hw.rootfs_mib >= 1
}

/// Whether the memory of the components adds up, and can be counted here.
pub open spec fn has_fitting_components(cfg: ConfigView) -> bool {
    &&& cfg.components.memory_mib >= 1
    &&& cfg.components.total_memory_mib >= cfg.components.memory_mib
    &&& cfg.components.total_memory_mib * 1048576 <= usize::MAX
}

/// Whether a command is one bare word.
pub open spec fn is_bare_command(command: Seq<char>) -> bool {
    &&& command.len() > 0
    &&& forall|i: int| 0 <= i < command.len() ==> !unicode::control(#[trigger] command[i])
    &&& forall|i: int, j: int, k: int|
        0 <= i < j < k < command.len() && unicode::blank(#[trigger] command[j])
            ==> unicode::blank(#[trigger] command[i]) || unicode::blank(#[trigger] command[k])
}

/// Whether a name can be that of a file on any host.
pub open spec fn is_file_name(name: Seq<char>) -> bool {
    &&& name.len() > 0
    &&& name != seq!['.']
    &&& name != seq!['.', '.']
    &&& text::utf8_len(name) <= 247
    &&& forall|i: int|
        0 <= i < name.len() ==> !unicode::control(#[trigger] name[i]) && !seq![
            '/',
            '\\',
            ':',
            '*',
            '?',
            '"',
            '<',
            '>',
            '|',
        ].contains(name[i])
}

/// Whether volumes can be told apart, also where case does not count, and each
/// has a name and a size.
pub open spec fn has_fitting_volumes(cfg: ConfigView, facts: RecipeFacts) -> bool {
    &&& cfg.volumes.len() <= facts.max_volumes
    &&& forall|i: int|
        0 <= i < cfg.volumes.len() ==> is_file_name((#[trigger] cfg.volumes[i]).name)
            && cfg.volumes[i].size_mib >= 1
    &&& forall|i: int, j: int|
        0 <= i < j < cfg.volumes.len() ==> unicode::lowercased((#[trigger] cfg.volumes[i]).name)
            != unicode::lowercased((#[trigger] cfg.volumes[j]).name)
}

/// Whether a variable can be exported.
pub open spec fn is_variable(name: Seq<char>, value: Seq<char>) -> bool {
    &&& name.len() > 0
    &&& forall|i: int|
        0 <= i < name.len() ==> (#[trigger] name[i]) != '=' && name[i] != '\0' && !unicode::blank(
            name[i],
        )
    &&& forall|i: int| 0 <= i < value.len() ==> (#[trigger] value[i]) != '\0'
}

/// The guest paths a recipe puts something at, mounts before volumes.
pub open spec fn guest_path_of(cfg: ConfigView, i: int) -> Seq<char> {
    if i < cfg.mounts.len() {
        cfg.mounts[i].guest
    } else {
        cfg.volumes[i - cfg.mounts.len()].guest
    }
}

/// A recipe is accepted exactly where it asks for what can be had: a machine and
/// components that fit, a working directory that is absolute if there is one,
/// bare commands to run as root, volumes that can be told apart, ports that can
/// be published, variables that can be exported, no two things at one guest path,
/// and a network policy that nothing is held against.
pub proof fn recipes_are_accepted_where_they_fit(cfg: ConfigView, facts: RecipeFacts)
    ensures
        recipe::recipe_verdict(cfg, facts) is Ok <==> {
            &&& cfg.workload.workdir matches Some(dir) ==> dir.len() > 0 && dir[0] == '/'
            &&& has_fitting_hardware(cfg, facts)
            &&& has_fitting_components(cfg)
            &&& forall|i: int| 0 <= i < cfg.sudo.len() ==> is_bare_command(#[trigger] cfg.sudo[i])
            &&& has_fitting_volumes(cfg, facts)
            &&& network::port_mappings(cfg.network.ports) is Ok
            &&& facts.policy_refusal is None
            &&& forall|i: int|
                0 <= i < cfg.env.len() ==> is_variable((#[trigger] cfg.env[i]).0, cfg.env[i].1)
            &&& forall|i: int, j: int|
                0 <= i < j < cfg.mounts.len() + cfg.volumes.len() ==> !path::equivalent(
                    #[trigger] guest_path_of(cfg, i),
                    #[trigger] guest_path_of(cfg, j),
                )
        },
{
    lemma_sudo(cfg.sudo, cfg.sudo.len() as int);
    lemma_volumes(cfg.volumes, cfg.volumes.len() as int);
    lemma_env(cfg.env, cfg.env.len() as int);
    let all = recipe::claims(cfg);
    lemma_claims(all, all.len() as int);
    assert forall|i: int| 0 <= i < all.len() implies (#[trigger] all[i]).0 == guest_path_of(cfg, i) by {}
    if recipe::claims_verdict(all, all.len() as int) is Ok {
        assert forall|i: int, j: int|
            0 <= i < j < cfg.mounts.len() + cfg.volumes.len() implies !path::equivalent(
            #[trigger] guest_path_of(cfg, i),
            #[trigger] guest_path_of(cfg, j),
        ) by {
            assert(all[i].0 == guest_path_of(cfg, i) && all[j].0 == guest_path_of(cfg, j));
        }
    } else {
        let (i, j) = choose|i: int, j: int|
            0 <= i < j < all.len() && path::equivalent(
                (#[trigger] all[i]).0,
                (#[trigger] all[j]).0,
            );
        assert(path::equivalent(guest_path_of(cfg, i), guest_path_of(cfg, j)));
    }
}

proof fn lemma_sudo(commands: Seq<Seq<char>>, n: int)
    requires
        0 <= n <= commands.len(),
    ensures
        recipe::sudo_verdict(commands, n) is Ok <==> forall|i: int|
            0 <= i < n ==> is_bare_command(#[trigger] commands[i]),
    decreases n,
{
    if n > 0 {
        lemma_sudo(commands, n - 1);
        let command = commands[n - 1];
        assert(recipe::sudo_entry_verdict(command) is Ok <==> is_bare_command(command));
    }
}

proof fn lemma_plain_name(name: Seq<char>)
    ensures
        recipe::plain_name(name) == is_file_name(name),
{
    reveal_strlit(".");
    reveal_strlit("..");
    assert("."@ =~= seq!['.']);
    assert(".."@ =~= seq!['.', '.']);
    assert forall|i: int| 0 <= i < name.len() implies recipe::fit_for_name(#[trigger] name[i]) == (
    !unicode::control(name[i]) && !seq!['/', '\\', ':', '*', '?', '"', '<', '>', '|'].contains(
        name[i],
    )) by {
        let c = name[i];
        let list = seq!['/', '\\', ':', '*', '?', '"', '<', '>', '|'];
        assert(list[0] == '/' && list[1] == '\\' && list[2] == ':' && list[3] == '*' && list[4]
            == '?' && list[5] == '"' && list[6] == '<' && list[7] == '>' && list[8] == '|');
    }
    if recipe::plain_name(name) {
        assert forall|i: int| 0 <= i < name.len() implies !unicode::control(#[trigger] name[i])
            && !seq!['/', '\\', ':', '*', '?', '"', '<', '>', '|'].contains(name[i]) by {
            assert(recipe::fit_for_name(name[i]));
        }
    }
    if is_file_name(name) {
        assert forall|i: int| 0 <= i < name.len() implies recipe::fit_for_name(#[trigger] name[i]) by {
            assert(!unicode::control(name[i]));
        }
    }
}

proof fn lemma_volumes(volumes: Seq<VolumeView>, n: int)
    requires
        0 <= n <= volumes.len(),
    ensures
        recipe::first_volumes_verdict(volumes, n) is Ok <==> {
            &&& forall|i: int|
                0 <= i < n ==> is_file_name((#[trigger] volumes[i]).name) && volumes[i].size_mib
                    >= 1
            &&& forall|i: int, j: int|
                0 <= i < j < n ==> unicode::lowercased((#[trigger] volumes[i]).name)
                    != unicode::lowercased((#[trigger] volumes[j]).name)
        },
    decreases n,
{
    if n > 0 {
        lemma_volumes(volumes, n - 1);
        let last = volumes[n - 1];
        lemma_plain_name(last.name);
        if recipe::first_volumes_verdict(volumes, n) is Ok {
            assert(!recipe::named_before(volumes, n - 1));
        } else if recipe::first_volumes_verdict(volumes, n - 1) is Ok {
            if recipe::named_before(volumes, n - 1) {
                let j = choose|j: int|
                    0 <= j < n - 1 && unicode::lowercased((#[trigger] volumes[j]).name)
                        == unicode::lowercased(volumes[n - 1].name);
                assert(unicode::lowercased(volumes[j].name) == unicode::lowercased(
                    volumes[n - 1].name,
                ));
            }
        }
    }
}

proof fn lemma_env(env: env::Env, n: int)
    requires
        0 <= n <= env.len(),
    ensures
        env::env_verdict(env, n) is Ok <==> forall|i: int|
            0 <= i < n ==> is_variable((#[trigger] env[i]).0, env[i].1),
    decreases n,
{
    if n > 0 {
        lemma_env(env, n - 1);
        let (name, value) = env[n - 1];
        assert(env::variable_verdict(name, value) is Ok <==> is_variable(name, value)) by {
            if value.contains('\0') {
                let i = choose|i: int| 0 <= i < value.len() && value[i] == '\0';
                assert(!is_variable(name, value));
            } else {
                assert forall|i: int| 0 <= i < value.len() implies (#[trigger] value[i]) != '\0' by {
                    if value[i] == '\0' {
                        assert(value.contains('\0'));
                    }
                }
            }
        }
    }
}

proof fn lemma_claimed(all: Seq<(Seq<char>, Seq<char>)>, i: int, n: int)
    requires
        0 <= n <= all.len(),
    ensures
        recipe::claimed_before(all, i, n) is Some <==> exists|k: int|
            0 <= k < n && path::equivalent((#[trigger] all[k]).0, all[i].0),
    decreases n,
{
    if n > 0 {
        lemma_claimed(all, i, n - 1);
        if path::equivalent(all[n - 1].0, all[i].0) {
            assert(exists|k: int| 0 <= k < n && path::equivalent((#[trigger] all[k]).0, all[i].0));
        }
    }
}

proof fn lemma_claims(all: Seq<(Seq<char>, Seq<char>)>, n: int)
    requires
        0 <= n <= all.len(),
    ensures
        recipe::claims_verdict(all, n) is Ok <==> forall|i: int, j: int|
            0 <= i < j < n ==> !path::equivalent((#[trigger] all[i]).0, (#[trigger] all[j]).0),
    decreases n,
{
    if n > 0 {
        lemma_claims(all, n - 1);
        lemma_claimed(all, n - 1, n - 1);
        if recipe::claims_verdict(all, n - 1) is Ok && recipe::claims_verdict(all, n) is Err {
            let k = choose|k: int|
                0 <= k < n - 1 && path::equivalent((#[trigger] all[k]).0, all[n - 1].0);
            assert(path::equivalent(all[k].0, all[n - 1].0));
        }
    }
}

proof fn lemma_manifest(
    boxes: Seq<(Seq<char>, Seq<char>)>,
    path: Seq<char>,
    n: int,
    os: HostOs,
)
    requires
        0 <= n <= boxes.len(),
    ensures
        recipe::manifest_boxes_verdict(boxes, path, n, os) is Ok <==> forall|i: int|
            0 <= i < n ==> name::box_name((#[trigger] boxes[i]).0) is Ok && resolve::path_like(
                boxes[i].1,
                os,
            ),
    decreases n,
{
    if n > 0 {
        lemma_manifest(boxes, path, n - 1, os);
        if recipe::manifest_boxes_verdict(boxes, path, n, os) is Err {
            if recipe::manifest_boxes_verdict(boxes, path, n - 1, os) is Ok {
                assert(!(name::box_name(boxes[n - 1].0) is Ok && resolve::path_like(
                    boxes[n - 1].1,
                    os,
                )));
            }
        }
    }
}

/// A manifest is taken exactly where every box in it has a name that a box can
/// have and points at something that is written as a path.
pub proof fn manifests_point_names_at_paths(
    boxes: Seq<(Seq<char>, Seq<char>)>,
    path: Seq<char>,
    os: HostOs,
)
    ensures
        recipe::manifest_boxes_verdict(boxes, path, boxes.len() as int, os) is Ok <==> forall|i: int|
            0 <= i < boxes.len() ==> name::box_name((#[trigger] boxes[i]).0) is Ok
                && resolve::path_like(boxes[i].1, os),
{
    lemma_manifest(boxes, path, boxes.len() as int, os);
}

/// Components may take as many MiB as the recipe gives each of them and all
/// together; nothing for each, or less for all than for one, is refused, and
/// so is what the machine cannot count.
pub proof fn components_may_take_what_they_are_given(components: Components)
    ensures
        ({
            let limits = recipe::memory_limits_of(components);
            &&& limits is Ok <==> {
                &&& 0 < components.memory_mib <= components.total_memory_mib
                &&& components.total_memory_mib * 1048576 <= usize::MAX
            }
            &&& limits is Ok ==> {
                &&& limits->Ok_0.component_bytes == components.memory_mib * 1048576
                &&& limits->Ok_0.total_bytes == components.total_memory_mib * 1048576
            }
        }),
{
}

/// A recipe that is read is what its file says; one that cannot be read is
/// refused, with why.
pub proof fn recipes_are_loaded_from_what_was_read(
    path: Seq<char>,
    project_dir: Seq<char>,
    read: ReadRecipe,
    home: HomeView,
    facts: RecipeFacts,
)
    ensures
        match read {
            ReadRecipe::Unreadable(reason) => recipe::recipe_loaded(
                path,
                project_dir,
                read,
                home,
                facts,
            ) matches Err(said) && said.len() == 2 && said[1] == reason@,
            ReadRecipe::Read(Ok(cfg)) => recipe::recipe_loaded(
                path,
                project_dir,
                read,
                home,
                facts,
            ) == recipe::recipe_from(Ok(cfg@), project_dir, path, home, facts),
            ReadRecipe::Read(Err(_)) => recipe::recipe_loaded(
                path,
                project_dir,
                read,
                home,
                facts,
            ) is Err,
        },
{
}

/// A manifest that is not there is no mistake; one that cannot be read, makes
/// no sense or points at no path is refused, or warned of and done without.
/// Any other is taken as it is, and nothing is said.
pub proof fn manifests_are_taken_as_they_are(path: Seq<char>, read: ReadManifest, os: HostOs)
    ensures
        ({
            let loaded = recipe::manifest_loaded(path, read, os);
            let (found, said) = recipe::manifest_or_warning(path, read, os);
            &&& loaded is Err <==> said is Some
            &&& loaded is Err ==> found is None
            &&& loaded is Ok ==> loaded->Ok_0 == found
            &&& match read {
                ReadManifest::Missing => loaded is Ok && found is None,
                ReadManifest::Unreadable(_) => loaded is Err,
                ReadManifest::Malformed(_) => loaded is Err,
                ReadManifest::Read(manifest) => {
                    let fits = forall|i: int|
                        0 <= i < manifest.boxes@.len() ==> name::box_name(
                            (#[trigger] manifest.boxes@[i]).0,
                        ) is Ok && resolve::path_like(manifest.boxes@[i].1, os);
                    &&& fits ==> loaded is Ok && found == Some(manifest)
                    &&& !fits ==> loaded is Err
                },
            }
        }),
{
    if let ReadManifest::Read(manifest) = read {
        manifests_point_names_at_paths(manifest.boxes@, path, os);
    }
}

} // verus!
