//! From the sections of a recipe file to a recipe a box can be made from.

use crate::config::{
    Components, Config, ConfigView, Hw, Manifest, Mount, MountView, Volume, VolumeView,
};
use crate::env::{self, validate_env};
use crate::error::{self, Error, Refusal, refuse};
use crate::host::{self, Home, HomeView, HostOs, join_on, to_slashes};
use crate::name::{self, validate_box_name};
use crate::network::{self, parse_port_mappings};
use crate::path::{
    self, Component, ComponentView, components_of, is_equivalent, join, starts_at_root,
};
use crate::render::{self, escape_printable, escape_printable_path};
use crate::resolve::{self, is_path};
use crate::text::{
    self, byte_len, chars_of, contains_char, contains_text, join_texts, same_text, spell,
    split_text,
};
use crate::unicode::{self, decode_utf8, is_blank, is_control, to_lowercase, trim};
use vstd::prelude::*;

pub mod laws;
pub mod settling;

verus! {

/// Below this the kernel of a box dies part-way through its boot.
pub const MIN_MEM_MIB: u32 = 128;

/// The largest recipe file that is read, in bytes.
pub const MAX_RECIPE_BYTES: u64 = 8388608;

/// The file that names the boxes of a project.
pub const MANIFEST_FILE: &'static str = "terra.yaml";

/// The text of a recipe file, of which one byte more than the limit was read
/// at most; otherwise what is wrong with it.
pub fn read_recipe_text(bytes: Vec<u8>) -> (read: Result<String, String>)
    ensures
        match read {
            Ok(text) => bytes@.len() <= MAX_RECIPE_BYTES && vstd::utf8::encode_utf8(text@) == bytes@,
            Err(why) => if bytes@.len() > MAX_RECIPE_BYTES {
                why@ == "recipe is larger than the "@ + text::decimal(MAX_RECIPE_BYTES as nat)
                    + "-byte limit"@
            } else {
                !vstd::utf8::valid_utf8(bytes@) && why@ == unicode::utf8_complaint(bytes@)
            },
        },
{
    if bytes.len() as u64 > MAX_RECIPE_BYTES {
        let mut why: String = "recipe is larger than the ".to_owned();
        why.append(spell(MAX_RECIPE_BYTES).as_str());
        why.append("-byte limit");
        return Err(why);
    }
    decode_utf8(bytes)
}

/// The bytes a component may use, and all of them together.
#[derive(Debug, Clone, Copy, PartialEq, Eq, Structural)]
pub struct ComponentMemoryLimits {
    pub component_bytes: usize,
    pub total_bytes: usize,
}

/// What the memory of components comes to, or why it cannot be had.
pub open spec fn memory_limits_of(components: Components) -> Result<ComponentMemoryLimits, Refusal> {
    let component = components.memory_mib * 1048576;
    let total = components.total_memory_mib * 1048576;
    if component > usize::MAX {
        Err(error::refusal("components.memory_mib is too large for this host"@))
    } else if total > usize::MAX {
        Err(error::refusal("components.total_memory_mib is too large for this host"@))
    } else if component == 0 || total < component {
        Err(
            error::refusal(
                "set components.memory_mib > 0 and components.total_memory_mib >= components.memory_mib"@,
            ),
        )
    } else {
        Ok(
            ComponentMemoryLimits {
                component_bytes: component as usize,
                total_bytes: total as usize,
            },
        )
    }
}

impl Components {
    pub fn memory_limits(&self) -> (limits: Result<ComponentMemoryLimits, Error>)
        ensures
            error::outcome(limits) == memory_limits_of(*self),
    {
        let component: u64 = self.memory_mib as u64 * 1048576;
        let total: u64 = self.total_memory_mib as u64 * 1048576;
        if component > usize::MAX as u64 {
            return Err(refuse("components.memory_mib is too large for this host"));
        }
        if total > usize::MAX as u64 {
            return Err(refuse("components.total_memory_mib is too large for this host"));
        }
        if component == 0 || total < component {
            return Err(
                refuse(
                    "set components.memory_mib > 0 and components.total_memory_mib >= components.memory_mib",
                ),
            );
        }
        Ok(
            ComponentMemoryLimits {
                component_bytes: component as usize,
                total_bytes: total as usize,
            },
        )
    }
}

/// The names of a guest path with its dots resolved; a step above the root
/// stays at the root.
pub open spec fn resolved_names(names: Seq<Seq<char>>) -> Seq<Seq<char>>
    decreases names.len(),
{
    if names.len() == 0 {
        Seq::empty()
    } else {
        let before = resolved_names(names.drop_last());
        let name = names.last();
        if name.len() == 0 || name == seq!['.'] {
            before
        } else if name == seq!['.', '.'] {
            if before.len() > 0 { before.drop_last() } else { before }
        } else {
            before.push(name)
        }
    }
}

/// Whether a name of a path, other than a dot, holds a backslash.
pub open spec fn has_backslash(names: Seq<Seq<char>>) -> bool {
    exists|i: int| 0 <= i < names.len() && (#[trigger] names[i]).contains('\\')
}

/// A guest path as it is kept: absolute, its dots resolved, nothing at its
/// end; or why it is refused.
pub open spec fn guest_path(path: Seq<char>) -> Result<Seq<char>, Refusal> {
    if !(path.len() > 0 && path[0] == '/') {
        Err(error::refusal("guest path must be absolute: '"@ + render::printable(path) + "'"@))
    } else if has_backslash(text::pieces(path, '/')) {
        Err(error::refusal("guest path '"@ + render::printable(path) + "' contains a backslash"@))
    } else {
        Ok("/"@ + text::joined(resolved_names(text::pieces(path, '/')), "/"@))
    }
}

pub fn normalize_guest_path(path: &str) -> (normal: Result<String, Error>)
    ensures
        match normal {
            Ok(text) => guest_path(path@) == Ok::<_, Refusal>(text@),
            Err(error) => guest_path(path@) == Err::<Seq<char>, _>(error@),
        },
{
    if !starts_at_root(path) {
        let mut message: String = "guest path must be absolute: '".to_owned();
        message.append(escape_printable(path).as_str());
        message.append("'");
        return Err(Error::new(message));
    }
    let names = split_text(path, '/');
    let ghost all = text::texts(names@);
    let mut kept: Vec<String> = Vec::new();
    let mut i: usize = 0;
    proof {
        reveal_strlit(".");
        reveal_strlit("..");
        assert("."@ =~= seq!['.']);
        assert(".."@ =~= seq!['.', '.']);
        assert(all.take(0) =~= Seq::empty());
        assert(text::texts(kept@) =~= Seq::empty());
    }
    while i < names.len()
        invariant
            i <= names@.len(),
            all == text::texts(names@),
            all == text::pieces(path@, '/'),
            path@.len() > 0 && path@[0] == '/',
            "."@ == seq!['.'],
            ".."@ == seq!['.', '.'],
            text::texts(kept@) == resolved_names(all.take(i as int)),
            forall|j: int| 0 <= j < i ==> !(#[trigger] all[j]).contains('\\'),
        decreases names.len() - i,
    {
        let ghost before = kept@;
        proof {
            assert(all.take(i + 1).drop_last() =~= all.take(i as int));
            assert(all.take(i + 1).last() == names@[i as int]@);
            assert(all[i as int] == names@[i as int]@);
            assert(text::texts(kept@).len() == kept@.len());
        }
        let name = names[i].as_str();
        if name.unicode_len() == 0 || same_text(name, ".") {
        } else if same_text(name, "..") {
            kept.pop();
            proof {
                if before.len() > 0 {
                    assert(text::texts(kept@) =~= text::texts(before).drop_last());
                } else {
                    assert(text::texts(kept@) =~= text::texts(before));
                }
            }
        } else {
            if contains_char(name, '\\') {
                let mut message: String = "guest path '".to_owned();
                message.append(escape_printable(path).as_str());
                message.append("' contains a backslash");
                proof {
                    assert(has_backslash(all));
                }
                return Err(Error::new(message));
            }
            kept.push(name.to_owned());
            proof {
                crate::text::lemma_texts_push(before, kept@.last());
            }
        }
        i = i + 1;
    }
    proof {
        assert(all.take(i as int) =~= all);
    }
    let mut text: String = "/".to_owned();
    text.append(join_texts(&kept, "/").as_str());
    Ok(text)
}

/// A host path with a leading `~` read as the home directory; another user's
/// is refused. `home` is what is known of the home directory.
pub open spec fn expanded(path: Seq<char>, home: HomeView) -> Result<Seq<char>, Refusal> {
    let text = host::with_slashes(path, home.os);
    let list = path::components(text);
    if list.len() > 0 && list[0] == ComponentView::Normal("~"@) {
        match home.dir {
            Ok(dir) => Ok(path::placed(dir, path::spelled(list.skip(1)))),
            Err(message) => Err(error::refusal(message)),
        }
    } else {
        match if list.len() > 0 { list[0] } else { ComponentView::Current } {
            ComponentView::Normal(first) => if first.len() > 0 && first[0] == '~' {
                Err(
                    error::refusal(
                        "path '"@ + render::printable(path)
                            + "' names another user's home with '~', which terra does not expand - write the absolute path (only a leading '~/' is expanded)"@,
                    ),
                )
            } else {
                Ok(text)
            },
            _ => Ok(text),
        }
    }
}

pub fn expand_tilde(path: &str, home: &Home) -> (whole: Result<String, Error>)
    ensures
        match whole {
            Ok(text) => expanded(path@, home@) == Ok::<_, Refusal>(text@),
            Err(error) => expanded(path@, home@) == Err::<Seq<char>, _>(error@),
        },
{
    let spelled = to_slashes(path, home.os);
    let list = components_of(spelled.as_str());
    proof {
        assert(path::steps(list@).len() == list@.len());
        if list@.len() > 0 {
            assert(path::steps(list@)[0] == list@[0]@);
        }
    }
    if list.len() == 0 {
        return Ok(spelled);
    }
    if let Component::Normal(first) = &list[0] {
        if same_text(first.as_str(), "~") {
            return match &home.dir {
                Ok(dir) => {
                    let mut rest: String = String::new();
                    let mut i: usize = 1;
                    let ghost tail = path::steps(list@).skip(1);
                    proof {
                        assert(tail.take(0) =~= Seq::empty());
                    }
                    while i < list.len()
                        invariant
                            1 <= i <= list@.len(),
                            tail == path::steps(list@).skip(1),
                            rest@ == path::spelled(tail.take(i - 1)),
                        decreases list.len() - i,
                    {
                        proof {
                            assert(tail.take(i as int).drop_last() =~= tail.take(i - 1));
                            assert(tail.take(i as int).last() == list@[i as int]@);
                        }
                        let text = match &list[i] {
                            Component::Root => "/",
                            Component::Current => ".",
                            Component::Parent => "..",
                            Component::Normal(name) => name.as_str(),
                        };
                        rest = join(rest.as_str(), text);
                        i = i + 1;
                    }
                    proof {
                        assert(tail.take(i - 1) =~= tail);
                    }
                    Ok(join(dir.as_str(), rest.as_str()))
                },
                Err(message) => Err(refuse(message.as_str())),
            };
        }
        if first.as_str().unicode_len() > 0 && first.as_str().get_char(0) == '~' {
            let mut message: String = "path '".to_owned();
            message.append(escape_printable_path(path).as_str());
            message.append(
                "' names another user's home with '~', which terra does not expand - write the absolute path (only a leading '~/' is expanded)",
            );
            return Err(Error::new(message));
        }
    }
    Ok(spelled)
}

/// Where a path written in a recipe lands: its `~` expanded, then made
/// absolute against the directory the recipe belongs to.
pub open spec fn recipe_path(
    path: Seq<char>,
    source_dir: Seq<char>,
    home: HomeView,
) -> Result<Seq<char>, Refusal> {
    match expanded(path, home) {
        Ok(text) => Ok(host::placed(source_dir, text, home.os)),
        Err(refused) => Err(refused),
    }
}

pub fn resolve_recipe_path(path: &str, source_dir: &str, home: &Home) -> (
    whole: Result<String, Error>)
    ensures
        match whole {
            Ok(text) => recipe_path(path@, source_dir@, home@) == Ok::<_, Refusal>(text@),
            Err(error) => recipe_path(path@, source_dir@, home@) == Err::<Seq<char>, _>(
                error@,
            ),
        },
{
    match expand_tilde(path, home) {
        Ok(text) => Ok(join_on(source_dir, text.as_str(), home.os)),
        Err(error) => Err(error),
    }
}

/// What the machine and the network gateway say of a recipe.
#[derive(Debug)]
pub struct RecipeFacts {
    /// The most volumes a box takes.
    pub max_volumes: usize,
    /// The most processors a box takes, where that is limited.
    pub max_vcpus: Option<usize>,
    /// Why the gateway cannot be built from the network section.
    pub policy_refusal: Option<String>,
}

/// The first of two verdicts that refuses.
pub open spec fn both(first: Result<(), Refusal>, second: Result<(), Refusal>) -> Result<(), Refusal> {
    if first is Err {
        first
    } else {
        second
    }
}

pub open spec fn workdir_verdict(cfg: ConfigView) -> Result<(), Refusal> {
    match cfg.workload.workdir {
        Some(dir) => if dir.len() > 0 && dir[0] == '/' {
            Ok(())
        } else {
            Err(error::refusal("workload.workdir must be absolute: '"@ + render::printable(dir) + "'"@))
        },
        None => Ok(()),
    }
}

fn validate_workdir(cfg: &Config) -> (verdict: Result<(), Error>)
    ensures
        error::outcome(verdict) == workdir_verdict(cfg@),
{
    if let Some(dir) = &cfg.workload.workdir {
        if !starts_at_root(dir.as_str()) {
            let mut message: String = "workload.workdir must be absolute: '".to_owned();
            message.append(escape_printable_path(dir.as_str()).as_str());
            message.append("'");
            return Err(Error::new(message));
        }
    }
    Ok(())
}

pub open spec fn hw_verdict(hw: Hw, max_vcpus: Option<usize>) -> Result<(), Refusal> {
    if hw.rootfs_mib == 0 {
        Err(
            error::refusal(
                "hw.rootfs_mib must be > 0 (the state is always a bounded image; use mounts for uncapped scratch)"@,
            ),
        )
    } else if hw.cpus == 0 {
        Err(error::refusal("hw.cpus must be > 0 (a VM needs at least one vCPU)"@))
    } else if max_vcpus is Some && hw.cpus > max_vcpus->0 {
        Err(
            error::refusal(
                "hw.cpus is "@ + text::decimal(hw.cpus as nat) + "; at most "@ + text::decimal(
                    max_vcpus->0 as nat,
                ) + " vCPUs fit this machine"@,
            ),
        )
    } else if hw.mem_mib < MIN_MEM_MIB {
        Err(
            error::refusal(
                "hw.mem_mib is "@ + text::decimal(hw.mem_mib as nat)
                    + " MiB, under the 128 MiB a guest needs to boot (it would die part-way through the boot instead of starting)"@,
            ),
        )
    } else {
        Ok(())
    }
}

fn validate_hw(hw: &Hw, max_vcpus: Option<usize>) -> (verdict: Result<(), Error>)
    ensures
        error::outcome(verdict) == hw_verdict(*hw, max_vcpus),
{
    if hw.rootfs_mib == 0 {
        return Err(
            refuse(
                "hw.rootfs_mib must be > 0 (the state is always a bounded image; use mounts for uncapped scratch)",
            ),
        );
    }
    if hw.cpus == 0 {
        return Err(refuse("hw.cpus must be > 0 (a VM needs at least one vCPU)"));
    }
    if let Some(max) = max_vcpus {
        if hw.cpus as usize > max {
            let mut message: String = "hw.cpus is ".to_owned();
            message.append(spell(hw.cpus as u64).as_str());
            message.append("; at most ");
            message.append(spell(max as u64).as_str());
            message.append(" vCPUs fit this machine");
            return Err(Error::new(message));
        }
    }
    if hw.mem_mib < MIN_MEM_MIB {
        let mut message: String = "hw.mem_mib is ".to_owned();
        message.append(spell(hw.mem_mib as u64).as_str());
        message.append(
            " MiB, under the 128 MiB a guest needs to boot (it would die part-way through the boot instead of starting)",
        );
        return Err(Error::new(message));
    }
    Ok(())
}

/// Whether something blank stands between two words of a text.
pub open spec fn several_words(text: Seq<char>) -> bool {
    exists|i: int, j: int, k: int|
        0 <= i < j < k < text.len() && !unicode::blank(#[trigger] text[i]) && unicode::blank(#[trigger] text[j])
            && !unicode::blank(#[trigger] text[k])
}

pub open spec fn has_control(text: Seq<char>) -> bool {
    exists|i: int| 0 <= i < text.len() && unicode::control(#[trigger] text[i])
}

pub open spec fn sudo_entry_verdict(command: Seq<char>) -> Result<(), Refusal> {
    if command.len() == 0 {
        Err(error::refusal("sudo entries must be command names, not empty strings"@))
    } else if several_words(command) || has_control(command) {
        Err(
            error::refusal(
                "sudo entry '"@ + render::printable(command)
                    + "' must be a bare command, without arguments (it permits the command with any arguments)"@,
            ),
        )
    } else {
        Ok(())
    }
}

pub open spec fn sudo_verdict(commands: Seq<Seq<char>>, n: int) -> Result<(), Refusal>
    decreases n,
{
    if n <= 0 {
        Ok(())
    } else {
        both(sudo_verdict(commands, n - 1), sudo_entry_verdict(commands[n - 1]))
    }
}

proof fn lemma_sudo_first(commands: Seq<Seq<char>>, n: int, m: int)
    requires
        0 <= n <= m,
        sudo_verdict(commands, n) is Err,
    ensures
        sudo_verdict(commands, m) == sudo_verdict(commands, n),
    decreases m - n,
{
    if n < m {
        lemma_sudo_first(commands, n, m - 1);
    }
}

fn is_several_words(chars: &Vec<char>) -> (yes: bool)
    ensures
        yes == several_words(chars@),
{
    let mut word: bool = false;
    let mut gap: bool = false;
    let mut i: usize = 0;
    let ghost mut first: int = 0;
    let ghost mut between: int = 0;
    while i < chars.len()
        invariant
            i <= chars@.len(),
            word ==> 0 <= first < i && !unicode::blank(chars@[first]),
            !word ==> forall|j: int| 0 <= j < i ==> unicode::blank(#[trigger] chars@[j]),
            gap ==> word && first < between < i && unicode::blank(chars@[between]),
            !gap ==> forall|a: int, b: int|
                0 <= a < b < i && !unicode::blank(#[trigger] chars@[a]) ==> !unicode::blank(#[trigger] chars@[b]),
            forall|a: int, b: int, c: int|
                0 <= a < b < c < i && !unicode::blank(#[trigger] chars@[a]) && unicode::blank(#[trigger] chars@[b])
                    ==> unicode::blank(#[trigger] chars@[c]),
        decreases chars.len() - i,
    {
        if is_blank(chars[i]) {
            if word && !gap {
                gap = true;
                proof {
                    between = i as int;
                }
            }
        } else if gap {
            proof {
                assert(!unicode::blank(chars@[first]) && unicode::blank(chars@[between]) && !unicode::blank(chars@[i as int]));
            }
            return true;
        } else if !word {
            word = true;
            proof {
                first = i as int;
            }
        }
        i = i + 1;
    }
    false
}

fn contains_control(chars: &Vec<char>) -> (yes: bool)
    ensures
        yes == has_control(chars@),
{
    let mut i: usize = 0;
    while i < chars.len()
        invariant
            i <= chars@.len(),
            forall|j: int| 0 <= j < i ==> !unicode::control(#[trigger] chars@[j]),
        decreases chars.len() - i,
    {
        if is_control(chars[i]) {
            return true;
        }
        i = i + 1;
    }
    false
}

fn validate_sudo(commands: &Vec<String>) -> (verdict: Result<(), Error>)
    ensures
        error::outcome(verdict) == sudo_verdict(text::texts(commands@), commands@.len() as int),
{
    let ghost all = text::texts(commands@);
    let mut i: usize = 0;
    while i < commands.len()
        invariant
            i <= commands@.len(),
            all == text::texts(commands@),
            sudo_verdict(all, i as int) is Ok,
        decreases commands.len() - i,
    {
        let command = commands[i].as_str();
        let chars = chars_of(command);
        proof {
            assert(all[i as int] == commands@[i as int]@);
            if sudo_verdict(all, i + 1) is Err {
                lemma_sudo_first(all, i + 1, commands@.len() as int);
            }
        }
        if chars.len() == 0 {
            return Err(refuse("sudo entries must be command names, not empty strings"));
        }
        if is_several_words(&chars) || contains_control(&chars) {
            let mut message: String = "sudo entry '".to_owned();
            message.append(escape_printable(command).as_str());
            message.append(
                "' must be a bare command, without arguments (it permits the command with any arguments)",
            );
            return Err(Error::new(message));
        }
        i = i + 1;
    }
    Ok(())
}

/// Whether a name may name an image file.
pub open spec fn plain_name(name: Seq<char>) -> bool {
    &&& name.len() > 0
    &&& name != "."@
    &&& name != ".."@
    &&& text::utf8_len(name) <= 247
    &&& forall|i: int| 0 <= i < name.len() ==> fit_for_name(#[trigger] name[i])
}

pub open spec fn fit_for_name(c: char) -> bool {
    !(unicode::control(c) || c == '/' || c == '\\' || c == ':' || c == '*' || c == '?' || c == '"' || c == '<'
        || c == '>' || c == '|')
}

fn is_plain_name(name: &str) -> (yes: bool)
    ensures
        yes == plain_name(name@),
{
    let chars = chars_of(name);
    if chars.len() == 0 || same_text(name, ".") || same_text(name, "..") || byte_len(name) > 247 {
        return false;
    }
    let mut i: usize = 0;
    while i < chars.len()
        invariant
            i <= chars@.len(),
            chars@ == name@,
            forall|j: int| 0 <= j < i ==> fit_for_name(#[trigger] name@[j]),
        decreases chars.len() - i,
    {
        let c: char = chars[i];
        if is_control(c) || c == '/' || c == '\\' || c == ':' || c == '*' || c == '?' || c == '"'
            || c == '<' || c == '>' || c == '|' {
            proof {
                assert(!fit_for_name(name@[i as int]));
            }
            return false;
        }
        i = i + 1;
    }
    true
}

/// Whether an earlier volume has the same name, case aside.
pub open spec fn named_before(volumes: Seq<VolumeView>, i: int) -> bool {
    exists|j: int|
        0 <= j < i && unicode::lowercased((#[trigger] volumes[j]).name) == unicode::lowercased(volumes[i].name)
}

pub open spec fn volume_verdict(volumes: Seq<VolumeView>, i: int) -> Result<(), Refusal> {
    let name = volumes[i].name;
    if !plain_name(name) {
        Err(
            error::refusal(
                "volume name '"@ + render::printable(name)
                    + "' must be a plain name (it names the image file)"@,
            ),
        )
    } else if named_before(volumes, i) {
        Err(error::refusal("duplicate volume name '"@ + render::printable(name) + "'"@))
    } else if volumes[i].size_mib == 0 {
        Err(error::refusal("volume '"@ + render::printable(name) + "' must have size_mib > 0"@))
    } else {
        Ok(())
    }
}

pub open spec fn first_volumes_verdict(volumes: Seq<VolumeView>, n: int) -> Result<(), Refusal>
    decreases n,
{
    if n <= 0 {
        Ok(())
    } else {
        both(first_volumes_verdict(volumes, n - 1), volume_verdict(volumes, n - 1))
    }
}

pub open spec fn volumes_verdict(volumes: Seq<VolumeView>, max: usize) -> Result<(), Refusal> {
    if volumes.len() > max {
        Err(
            error::refusal(
                text::decimal(volumes.len()) + " volumes configured; at most "@ + text::decimal(max as nat)
                    + " fit (one guest block device each)"@,
            ),
        )
    } else {
        first_volumes_verdict(volumes, volumes.len() as int)
    }
}

proof fn lemma_volume_first(volumes: Seq<VolumeView>, n: int, m: int)
    requires
        0 <= n <= m,
        first_volumes_verdict(volumes, n) is Err,
    ensures
        first_volumes_verdict(volumes, m) == first_volumes_verdict(volumes, n),
    decreases m - n,
{
    if n < m {
        lemma_volume_first(volumes, n, m - 1);
    }
}

fn validate_volumes(volumes: &Vec<Volume>, max: usize) -> (verdict: Result<(), Error>)
    ensures
        error::outcome(verdict) == volumes_verdict(text::views(volumes@), max),
{
    let ghost all = text::views(volumes@);
    if volumes.len() > max {
        let mut message: String = spell(volumes.len() as u64);
        message.append(" volumes configured; at most ");
        message.append(spell(max as u64).as_str());
        message.append(" fit (one guest block device each)");
        return Err(Error::new(message));
    }
    let mut seen: Vec<String> = Vec::new();
    let mut i: usize = 0;
    while i < volumes.len()
        invariant
            i <= volumes@.len() <= max,
            all == text::views(volumes@),
            seen@.len() == i,
            forall|j: int| 0 <= j < i ==> text::texts(seen@)[j] == unicode::lowercased((#[trigger] all[j]).name),
            first_volumes_verdict(all, i as int) is Ok,
        decreases volumes.len() - i,
    {
        let name = volumes[i].name.as_str();
        proof {
            assert(all[i as int] == volumes@[i as int]@);
            if first_volumes_verdict(all, i + 1) is Err {
                lemma_volume_first(all, i + 1, volumes@.len() as int);
            }
        }
        if !is_plain_name(name) {
            let mut message: String = "volume name '".to_owned();
            message.append(escape_printable(name).as_str());
            message.append("' must be a plain name (it names the image file)");
            return Err(Error::new(message));
        }
        let lower = to_lowercase(name);
        let is_taken = contains_text(&seen, lower.as_str());
        proof {
            if is_taken {
                let j = choose|j: int| 0 <= j < text::texts(seen@).len() && text::texts(seen@)[j] == lower@;
                assert(unicode::lowercased(all[j].name) == lower@);
            } else {
                assert forall|j: int| 0 <= j < i implies unicode::lowercased((#[trigger] all[j]).name)
                    != lower@ by {
                    assert(text::texts(seen@)[j] == unicode::lowercased(all[j].name));
                }
            }
            assert(is_taken == named_before(all, i as int));
        }
        if is_taken {
            let mut message: String = "duplicate volume name '".to_owned();
            message.append(escape_printable(name).as_str());
            message.append("'");
            return Err(Error::new(message));
        }
        if volumes[i].size_mib == 0 {
            let mut message: String = "volume '".to_owned();
            message.append(escape_printable(name).as_str());
            message.append("' must have size_mib > 0");
            return Err(Error::new(message));
        }
        let ghost before = seen@;
        seen.push(lower);
        proof {
            crate::text::lemma_texts_push(before, seen@.last());
            assert forall|j: int| 0 <= j < i + 1 implies text::texts(seen@)[j] == unicode::lowercased(
                (#[trigger] all[j]).name,
            ) by {
                if j < i {
                    assert(text::texts(seen@)[j] == text::texts(before)[j]);
                }
            }
        }
        i = i + 1;
    }
    Ok(())
}

/// What is held against the network section: its ports, what its components
/// may use, and what the gateway says of it.
pub open spec fn network_verdict(cfg: ConfigView, facts: RecipeFacts) -> Result<(), Refusal> {
    if network::port_mappings(cfg.network.ports) is Err {
        Err(network::port_mappings(cfg.network.ports)->Err_0)
    } else if memory_limits_of(cfg.components) is Err {
        Err(memory_limits_of(cfg.components)->Err_0)
    } else if let Some(message) = facts.policy_refusal {
        Err(error::refusal(message@))
    } else {
        Ok(())
    }
}

fn validate_network(cfg: &Config, facts: &RecipeFacts) -> (verdict: Result<(), Error>)
    ensures
        error::outcome(verdict) == network_verdict(cfg@, *facts),
{
    if let Err(error) = parse_port_mappings(&cfg.network.ports) {
        return Err(error);
    }
    if let Err(error) = cfg.components.memory_limits() {
        return Err(error);
    }
    if let Some(message) = &facts.policy_refusal {
        return Err(refuse(message.as_str()));
    }
    Ok(())
}

/// What claims a guest path: the mounts in their order, then the volumes.
pub open spec fn claims(cfg: ConfigView) -> Seq<(Seq<char>, Seq<char>)> {
    Seq::new(
        cfg.mounts.len() + cfg.volumes.len(),
        |i: int|
            if i < cfg.mounts.len() {
                (
                    cfg.mounts[i].guest,
                    "mount from '"@ + render::printable(cfg.mounts[i].host) + "'"@,
                )
            } else {
                (
                    cfg.volumes[i - cfg.mounts.len()].guest,
                    "volume '"@ + render::printable(cfg.volumes[i - cfg.mounts.len()].name) + "'"@,
                )
            },
    )
}

/// The first claim before `i` on the same path.
pub open spec fn claimed_before(all: Seq<(Seq<char>, Seq<char>)>, i: int, n: int) -> Option<Seq<char>>
    decreases n,
{
    if n <= 0 {
        None
    } else if claimed_before(all, i, n - 1) is Some {
        claimed_before(all, i, n - 1)
    } else if path::equivalent(all[n - 1].0, all[i].0) {
        Some(all[n - 1].1)
    } else {
        None
    }
}

pub open spec fn claims_verdict(all: Seq<(Seq<char>, Seq<char>)>, n: int) -> Result<(), Refusal>
    decreases n,
{
    if n <= 0 {
        Ok(())
    } else if claims_verdict(all, n - 1) is Err {
        claims_verdict(all, n - 1)
    } else {
        match claimed_before(all, n - 1, n - 1) {
            None => Ok(()),
            Some(earlier) => Err(
                error::refusal(
                    "guest path '"@ + render::printable(all[n - 1].0) + "' is claimed twice, by "@ + earlier
                        + " and by "@ + all[n - 1].1
                        + " (the later one would be mounted over the earlier)"@,
                ),
            ),
        }
    }
}

proof fn lemma_claims_first(all: Seq<(Seq<char>, Seq<char>)>, n: int, m: int)
    requires
        0 <= n <= m,
        claims_verdict(all, n) is Err,
    ensures
        claims_verdict(all, m) == claims_verdict(all, n),
    decreases m - n,
{
    if n < m {
        lemma_claims_first(all, n, m - 1);
    }
}

fn list_claims(cfg: &Config) -> (list: Vec<(String, String)>)
    ensures
        list@.len() == claims(cfg@).len(),
        forall|i: int|
            0 <= i < list@.len() ==> ((#[trigger] list@[i]).0@, list@[i].1@) == claims(cfg@)[i],
{
    let mut list: Vec<(String, String)> = Vec::new();
    let mut i: usize = 0;
    while i < cfg.mounts.len()
        invariant
            i <= cfg.mounts@.len(),
            list@.len() == i,
            forall|j: int|
                0 <= j < list@.len() ==> ((#[trigger] list@[j]).0@, list@[j].1@) == claims(cfg@)[j],
        decreases cfg.mounts.len() - i,
    {
        let mut what: String = "mount from '".to_owned();
        what.append(escape_printable_path(cfg.mounts[i].host.as_str()).as_str());
        what.append("'");
        list.push((cfg.mounts[i].guest.as_str().to_owned(), what));
        i = i + 1;
    }
    let mut k: usize = 0;
    while k < cfg.volumes.len()
        invariant
            k <= cfg.volumes@.len(),
            list@.len() == cfg.mounts@.len() + k,
            forall|j: int|
                0 <= j < list@.len() ==> ((#[trigger] list@[j]).0@, list@[j].1@) == claims(cfg@)[j],
        decreases cfg.volumes.len() - k,
    {
        let mut what: String = "volume '".to_owned();
        what.append(escape_printable(cfg.volumes[k].name.as_str()).as_str());
        what.append("'");
        list.push((cfg.volumes[k].guest.as_str().to_owned(), what));
        k = k + 1;
    }
    list
}

fn find_claim(list: &Vec<(String, String)>, i: usize, Ghost(all): Ghost<Seq<(Seq<char>, Seq<char>)>>) -> (
    earlier: Option<String>)
    requires
        i < list@.len(),
        all.len() == list@.len(),
        forall|j: int| 0 <= j < list@.len() ==> ((#[trigger] list@[j]).0@, list@[j].1@) == all[j],
    ensures
        text::text_of(earlier) == claimed_before(all, i as int, i as int),
{
    let mut j: usize = 0;
    while j < i
        invariant
            j <= i < list@.len() == all.len(),
            forall|k: int| 0 <= k < list@.len() ==> ((#[trigger] list@[k]).0@, list@[k].1@) == all[k],
            claimed_before(all, i as int, j as int) is None,
        decreases i - j,
    {
        if is_equivalent(list[j].0.as_str(), list[i].0.as_str()) {
            proof {
                assert((list@[j as int].0@, list@[j as int].1@) == all[j as int]);
                lemma_claim_stays(all, i as int, j + 1, i as int);
            }
            return Some(list[j].1.as_str().to_owned());
        }
        proof {
            assert((list@[j as int].0@, list@[j as int].1@) == all[j as int]);
        }
        j = j + 1;
    }
    None
}

proof fn lemma_claim_stays(all: Seq<(Seq<char>, Seq<char>)>, i: int, n: int, m: int)
    requires
        0 <= n <= m,
        claimed_before(all, i, n) is Some,
    ensures
        claimed_before(all, i, m) == claimed_before(all, i, n),
    decreases m - n,
{
    if n < m {
        lemma_claim_stays(all, i, n, m - 1);
    }
}

/// Refuses two entries that claim one guest path.
fn validate_one_thing_per_guest_path(cfg: &Config) -> (verdict: Result<(), Error>)
    ensures
        error::outcome(verdict) == claims_verdict(claims(cfg@), claims(cfg@).len() as int),
{
    let list = list_claims(cfg);
    let ghost all = claims(cfg@);
    let mut i: usize = 0;
    while i < list.len()
        invariant
            i <= list@.len() == all.len(),
            all == claims(cfg@),
            forall|j: int| 0 <= j < list@.len() ==> ((#[trigger] list@[j]).0@, list@[j].1@) == all[j],
            claims_verdict(all, i as int) is Ok,
        decreases list.len() - i,
    {
        let earlier = find_claim(&list, i, Ghost(all));
        proof {
            assert((list@[i as int].0@, list@[i as int].1@) == all[i as int]);
            if claims_verdict(all, i + 1) is Err {
                lemma_claims_first(all, i + 1, all.len() as int);
            }
        }
        if let Some(earlier) = earlier {
            let mut message: String = "guest path '".to_owned();
            message.append(escape_printable_path(list[i].0.as_str()).as_str());
            message.append("' is claimed twice, by ");
            message.append(earlier.as_str());
            message.append(" and by ");
            message.append(list[i].1.as_str());
            message.append(" (the later one would be mounted over the earlier)");
            return Err(Error::new(message));
        }
        i = i + 1;
    }
    Ok(())
}

/// What is held against a recipe, section by section.
pub open spec fn recipe_verdict(cfg: ConfigView, facts: RecipeFacts) -> Result<(), Refusal> {
    both(
        workdir_verdict(cfg),
        both(
            hw_verdict(cfg.hw, facts.max_vcpus),
            both(
                match memory_limits_of(cfg.components) {
                    Ok(_) => Ok(()),
                    Err(refused) => Err(refused),
                },
                both(
                    sudo_verdict(cfg.sudo, cfg.sudo.len() as int),
                    both(
                        volumes_verdict(cfg.volumes, facts.max_volumes),
                        both(
                            network_verdict(cfg, facts),
                            both(
                                env::env_verdict(cfg.env, cfg.env.len() as int),
                                claims_verdict(claims(cfg), claims(cfg).len() as int),
                            ),
                        ),
                    ),
                ),
            ),
        ),
    )
}

/// Refuses a recipe no box could be made from.
pub fn validate(cfg: &Config, facts: &RecipeFacts) -> (verdict: Result<(), Error>)
    ensures
        error::outcome(verdict) == recipe_verdict(cfg@, *facts),
{
    let verdict = validate_workdir(cfg);
    if verdict.is_err() {
        return verdict;
    }
    let verdict = validate_hw(&cfg.hw, facts.max_vcpus);
    if verdict.is_err() {
        return verdict;
    }
    if let Err(error) = cfg.components.memory_limits() {
        return Err(error);
    }
    let verdict = validate_sudo(&cfg.sudo);
    if verdict.is_err() {
        return verdict;
    }
    let verdict = validate_volumes(&cfg.volumes, facts.max_volumes);
    if verdict.is_err() {
        return verdict;
    }
    let verdict = validate_network(cfg, facts);
    if verdict.is_err() {
        return verdict;
    }
    let verdict = validate_env(&cfg.env);
    if verdict.is_err() {
        return verdict;
    }
    validate_one_thing_per_guest_path(cfg)
}

/// The first `n` mounts with their host paths resolved.
pub open spec fn with_hosts(
    mounts: Seq<MountView>,
    n: int,
    project_dir: Seq<char>,
    home: HomeView,
) -> Result<Seq<MountView>, Refusal>
    decreases n,
{
    if n <= 0 {
        Ok(Seq::empty())
    } else {
        match with_hosts(mounts, n - 1, project_dir, home) {
            Err(refused) => Err(refused),
            Ok(before) => match recipe_path(mounts[n - 1].host, project_dir, home) {
                Err(refused) => Err(refused),
                Ok(host) => Ok(before.push(MountView { host, ..mounts[n - 1] })),
            },
        }
    }
}

/// The first `n` mounts with their guest paths normalized.
pub open spec fn with_mount_guests(mounts: Seq<MountView>, n: int) -> Result<Seq<MountView>, Refusal>
    decreases n,
{
    if n <= 0 {
        Ok(Seq::empty())
    } else {
        match with_mount_guests(mounts, n - 1) {
            Err(refused) => Err(refused),
            Ok(before) => match guest_path(mounts[n - 1].guest) {
                Err(refused) => Err(refused),
                Ok(guest) => Ok(before.push(MountView { guest, ..mounts[n - 1] })),
            },
        }
    }
}

/// The first `n` volumes with their guest paths normalized.
pub open spec fn with_volume_guests(volumes: Seq<VolumeView>, n: int) -> Result<
    Seq<VolumeView>,
    Refusal,
>
    decreases n,
{
    if n <= 0 {
        Ok(Seq::empty())
    } else {
        match with_volume_guests(volumes, n - 1) {
            Err(refused) => Err(refused),
            Ok(before) => match guest_path(volumes[n - 1].guest) {
                Err(refused) => Err(refused),
                Ok(guest) => Ok(before.push(VolumeView { guest, ..volumes[n - 1] })),
            },
        }
    }
}

/// A recipe with every path in it settled and its commands trimmed, or why a
/// path is refused.
pub open spec fn settled(
    cfg: ConfigView,
    project_dir: Seq<char>,
    home: HomeView,
) -> Result<ConfigView, Refusal> {
    let n = cfg.mounts.len() as int;
    match with_hosts(cfg.mounts, n, project_dir, home) {
        Err(refused) => Err(refused),
        Ok(hosted) => match match cfg.env_file {
            None => Ok::<Option<Seq<char>>, Refusal>(None),
            Some(file) => match recipe_path(file, project_dir, home) {
                Err(refused) => Err(refused),
                Ok(path) => Ok(Some(path)),
            },
        } {
            Err(refused) => Err(refused),
            Ok(env_file) => match with_mount_guests(hosted, n) {
                Err(refused) => Err(refused),
                Ok(mounts) => match with_volume_guests(cfg.volumes, cfg.volumes.len() as int) {
                    Err(refused) => Err(refused),
                    Ok(volumes) => Ok(
                        ConfigView {
                            mounts,
                            volumes,
                            env_file,
                            sudo: Seq::new(cfg.sudo.len(), |i: int| unicode::trimmed(cfg.sudo[i])),
                            ..cfg
                        },
                    ),
                },
            },
        },
    }
}

proof fn lemma_hosts_first(
    mounts: Seq<MountView>,
    n: int,
    m: int,
    project_dir: Seq<char>,
    home: HomeView,
)
    requires
        0 <= n <= m,
        with_hosts(mounts, n, project_dir, home) is Err,
    ensures
        with_hosts(mounts, m, project_dir, home) == with_hosts(mounts, n, project_dir, home),
    decreases m - n,
{
    if n < m {
        lemma_hosts_first(mounts, n, m - 1, project_dir, home);
    }
}

proof fn lemma_mount_guests_first(mounts: Seq<MountView>, n: int, m: int)
    requires
        0 <= n <= m,
        with_mount_guests(mounts, n) is Err,
    ensures
        with_mount_guests(mounts, m) == with_mount_guests(mounts, n),
    decreases m - n,
{
    if n < m {
        lemma_mount_guests_first(mounts, n, m - 1);
    }
}

proof fn lemma_volume_guests_first(volumes: Seq<VolumeView>, n: int, m: int)
    requires
        0 <= n <= m,
        with_volume_guests(volumes, n) is Err,
    ensures
        with_volume_guests(volumes, m) == with_volume_guests(volumes, n),
    decreases m - n,
{
    if n < m {
        lemma_volume_guests_first(volumes, n, m - 1);
    }
}

fn resolve_hosts(mounts: &Vec<Mount>, project_dir: &str, home: &Home) -> (
    resolved: Result<Vec<Mount>, Error>)
    ensures
        match resolved {
            Ok(list) => with_hosts(
                text::views(mounts@),
                mounts@.len() as int,
                project_dir@,
                home@,
            ) == Ok::<_, Refusal>(text::views(list@)),
            Err(error) => with_hosts(
                text::views(mounts@),
                mounts@.len() as int,
                project_dir@,
                home@,
            ) == Err::<Seq<MountView>, _>(error@),
        },
{
    let ghost all = text::views(mounts@);
    let mut list: Vec<Mount> = Vec::new();
    let mut i: usize = 0;
    proof {
        assert(text::views(list@) =~= Seq::empty());
    }
    while i < mounts.len()
        invariant
            i <= mounts@.len(),
            all == text::views(mounts@),
            with_hosts(all, i as int, project_dir@, home@) == Ok::<_, Refusal>(
                text::views(list@),
            ),
        decreases mounts.len() - i,
    {
        proof {
            assert(all[i as int] == mounts@[i as int]@);
            if with_hosts(all, i + 1, project_dir@, home@) is Err {
                lemma_hosts_first(
                    all,
                    i + 1,
                    mounts@.len() as int,
                    project_dir@,
                    home@,
                );
            }
        }
        let host = match resolve_recipe_path(mounts[i].host.as_str(), project_dir, home) {
            Ok(host) => host,
            Err(error) => {
                return Err(error);
            },
        };
        let ghost before = list@;
        list.push(
            Mount {
                host,
                guest: mounts[i].guest.as_str().to_owned(),
                readonly: mounts[i].readonly,
            },
        );
        proof {
            assert(text::views(list@) =~= text::views(before).push(list@.last()@));
        }
        i = i + 1;
    }
    Ok(list)
}

fn normalize_mount_guests(mounts: &Vec<Mount>) -> (normal: Result<Vec<Mount>, Error>)
    ensures
        match normal {
            Ok(list) => with_mount_guests(text::views(mounts@), mounts@.len() as int) == Ok::<_, Refusal>(
                text::views(list@),
            ),
            Err(error) => with_mount_guests(text::views(mounts@), mounts@.len() as int) == Err::<
                Seq<MountView>,
                _,
            >(error@),
        },
{
    let ghost all = text::views(mounts@);
    let mut list: Vec<Mount> = Vec::new();
    let mut i: usize = 0;
    proof {
        assert(text::views(list@) =~= Seq::empty());
    }
    while i < mounts.len()
        invariant
            i <= mounts@.len(),
            all == text::views(mounts@),
            with_mount_guests(all, i as int) == Ok::<_, Refusal>(text::views(list@)),
        decreases mounts.len() - i,
    {
        proof {
            assert(all[i as int] == mounts@[i as int]@);
            if with_mount_guests(all, i + 1) is Err {
                lemma_mount_guests_first(all, i + 1, mounts@.len() as int);
            }
        }
        let guest = match normalize_guest_path(mounts[i].guest.as_str()) {
            Ok(guest) => guest,
            Err(error) => {
                return Err(error);
            },
        };
        let ghost before = list@;
        list.push(
            Mount {
                host: mounts[i].host.as_str().to_owned(),
                guest,
                readonly: mounts[i].readonly,
            },
        );
        proof {
            assert(text::views(list@) =~= text::views(before).push(list@.last()@));
        }
        i = i + 1;
    }
    Ok(list)
}

fn normalize_volume_guests(volumes: &Vec<Volume>) -> (normal: Result<Vec<Volume>, Error>)
    ensures
        match normal {
            Ok(list) => with_volume_guests(text::views(volumes@), volumes@.len() as int) == Ok::<
                _,
                Refusal,
            >(text::views(list@)),
            Err(error) => with_volume_guests(text::views(volumes@), volumes@.len() as int) == Err::<
                Seq<VolumeView>,
                _,
            >(error@),
        },
{
    let ghost all = text::views(volumes@);
    let mut list: Vec<Volume> = Vec::new();
    let mut i: usize = 0;
    proof {
        assert(text::views(list@) =~= Seq::empty());
    }
    while i < volumes.len()
        invariant
            i <= volumes@.len(),
            all == text::views(volumes@),
            with_volume_guests(all, i as int) == Ok::<_, Refusal>(text::views(list@)),
        decreases volumes.len() - i,
    {
        proof {
            assert(all[i as int] == volumes@[i as int]@);
            if with_volume_guests(all, i + 1) is Err {
                lemma_volume_guests_first(all, i + 1, volumes@.len() as int);
            }
        }
        let guest = match normalize_guest_path(volumes[i].guest.as_str()) {
            Ok(guest) => guest,
            Err(error) => {
                return Err(error);
            },
        };
        let ghost before = list@;
        list.push(
            Volume {
                name: volumes[i].name.as_str().to_owned(),
                guest,
                size_mib: volumes[i].size_mib,
            },
        );
        proof {
            assert(text::views(list@) =~= text::views(before).push(list@.last()@));
        }
        i = i + 1;
    }
    Ok(list)
}

fn trim_all(commands: &Vec<String>) -> (list: Vec<String>)
    ensures
        text::texts(list@) == Seq::new(commands@.len(), |i: int| unicode::trimmed(text::texts(commands@)[i])),
{
    let ghost expected = Seq::new(commands@.len(), |i: int| unicode::trimmed(text::texts(commands@)[i]));
    let mut list: Vec<String> = Vec::new();
    let mut i: usize = 0;
    proof {
        assert(text::texts(list@) =~= expected.take(0));
    }
    while i < commands.len()
        invariant
            i <= commands@.len(),
            expected == Seq::new(commands@.len(), |i: int| unicode::trimmed(text::texts(commands@)[i])),
            text::texts(list@) == expected.take(i as int),
        decreases commands.len() - i,
    {
        let ghost before = list@;
        list.push(trim(commands[i].as_str()));
        proof {
            crate::text::lemma_texts_push(before, list@.last());
            assert(text::texts(commands@)[i as int] == commands@[i as int]@);
            assert(expected.take(i + 1) =~= expected.take(i as int).push(expected[i as int]));
        }
        i = i + 1;
    }
    proof {
        assert(expected.take(i as int) =~= expected);
    }
    list
}

/// Settles every path of a recipe.
pub fn settle_recipe(cfg: Config, project_dir: &str, home: &Home) -> (
    recipe: Result<Config, Error>)
    ensures
        match recipe {
            Ok(done) => settled(cfg@, project_dir@, home@) == Ok::<_, Refusal>(done@),
            Err(error) => settled(cfg@, project_dir@, home@) == Err::<ConfigView, _>(
                error@,
            ),
        },
{
    let ghost before = cfg@;
    let hosted = match resolve_hosts(&cfg.mounts, project_dir, home) {
        Ok(list) => list,
        Err(error) => {
            return Err(error);
        },
    };
    let env_file = match &cfg.env_file {
        None => None,
        Some(file) => match resolve_recipe_path(file.as_str(), project_dir, home) {
            Ok(path) => Some(path),
            Err(error) => {
                return Err(error);
            },
        },
    };
    proof {
        lemma_hosts_len(
            before.mounts,
            before.mounts.len() as int,
            project_dir@,
            home@,
        );
        assert(text::views(hosted@).len() == hosted@.len());
    }
    let mounts = match normalize_mount_guests(&hosted) {
        Ok(list) => list,
        Err(error) => {
            return Err(error);
        },
    };
    let volumes = match normalize_volume_guests(&cfg.volumes) {
        Ok(list) => list,
        Err(error) => {
            return Err(error);
        },
    };
    let sudo = trim_all(&cfg.sudo);
    let done = Config {
        hw: cfg.hw,
        components: cfg.components,
        mounts,
        volumes,
        network: cfg.network,
        hooks: cfg.hooks,
        daemons: cfg.daemons,
        workload: cfg.workload,
        sudo,
        env: cfg.env,
        env_file,
    };
    proof {
        assert(done@.sudo =~= Seq::new(before.sudo.len(), |i: int| unicode::trimmed(before.sudo[i])));
    }
    Ok(done)
}

proof fn lemma_hosts_len(
    mounts: Seq<MountView>,
    n: int,
    project_dir: Seq<char>,
    home: HomeView,
)
    requires
        0 <= n,
        with_hosts(mounts, n, project_dir, home) is Ok,
    ensures
        with_hosts(mounts, n, project_dir, home)->Ok_0.len() == n,
    decreases n,
{
    if n > 0 {
        lemma_hosts_len(mounts, n - 1, project_dir, home);
    }
}

/// What a recipe file gives: the sections read from it, or what the YAML
/// parser holds against it.
pub open spec fn recipe_from(
    parsed: Result<ConfigView, Seq<char>>,
    project_dir: Seq<char>,
    source: Seq<char>,
    home: HomeView,
    facts: RecipeFacts,
) -> Result<ConfigView, Refusal> {
    match parsed {
        Err(message) => Err(
            error::refusal("failed to parse YAML from "@ + render::printable(source)) + error::refusal(
                render::printable(message),
            ),
        ),
        Ok(cfg) => match settled(cfg, project_dir, home) {
            Err(refused) => Err(refused),
            Ok(done) => match recipe_verdict(done, facts) {
                Err(refused) => Err(refused),
                Ok(_) => Ok(done),
            },
        },
    }
}

/// What was parsed, as a value.
pub open spec fn parsed_view(parsed: Result<Config, String>) -> Result<ConfigView, Seq<char>> {
    match parsed {
        Ok(cfg) => Ok(cfg@),
        Err(message) => Err(message@),
    }
}

/// The recipe a file holds. Nothing is read but the file itself: whether the
/// host paths it names exist is a later question.
pub fn parse_recipe(
    parsed: Result<Config, String>,
    project_dir: &str,
    source: &str,
    home: &Home,
    facts: &RecipeFacts,
) -> (recipe: Result<Config, Error>)
    ensures
        match recipe {
            Ok(done) => recipe_from(
                parsed_view(parsed),
                project_dir@,
                source@,
                home@,
                *facts,
            ) == Ok::<_, Refusal>(done@),
            Err(error) => recipe_from(
                parsed_view(parsed),
                project_dir@,
                source@,
                home@,
                *facts,
            ) == Err::<ConfigView, _>(error@),
        },
{
    let cfg = match parsed {
        Ok(cfg) => cfg,
        Err(message) => {
            let mut what: String = "failed to parse YAML from ".to_owned();
            what.append(escape_printable_path(source).as_str());
            return Err(Error::new(escape_printable(message.as_str())).context(what));
        },
    };
    let done = match settle_recipe(cfg, project_dir, home) {
        Ok(done) => done,
        Err(error) => {
            return Err(error);
        },
    };
    match validate(&done, facts) {
        Ok(_) => Ok(done),
        Err(error) => Err(error),
    }
}

/// What came of reading a recipe file.
#[derive(Debug)]
pub enum ReadRecipe {
    /// It could not be read, for this reason.
    Unreadable(String),
    /// It was read, and this came of parsing it.
    Read(Result<Config, String>),
}

/// What reading a recipe file comes to.
pub open spec fn recipe_loaded(
    path: Seq<char>,
    project_dir: Seq<char>,
    read: ReadRecipe,
    home: HomeView,
    facts: RecipeFacts,
) -> Result<ConfigView, Refusal> {
    match read {
        ReadRecipe::Unreadable(reason) => Err(
            error::refusal("reading "@ + render::printable(path)) + error::refusal(reason@),
        ),
        ReadRecipe::Read(parsed) => recipe_from(
            parsed_view(parsed),
            project_dir,
            path,
            home,
            facts,
        ),
    }
}

/// The recipe in the file at a path.
pub fn load_path(
    path: &str,
    project_dir: &str,
    read: ReadRecipe,
    home: &Home,
    facts: &RecipeFacts,
) -> (recipe: Result<Config, Error>)
    ensures
        ({
            let expected = recipe_loaded(path@, project_dir@, read, home@, *facts);
            match recipe {
                Ok(done) => expected == Ok::<_, Refusal>(done@),
                Err(error) => expected == Err::<ConfigView, _>(error@),
            }
        }),
{
    match read {
        ReadRecipe::Unreadable(reason) => {
            let mut what: String = "reading ".to_owned();
            what.append(escape_printable_path(path).as_str());
            Err(Error::new(reason).context(what))
        },
        ReadRecipe::Read(parsed) => parse_recipe(parsed, project_dir, path, home, facts),
    }
}

/// What is held against one box of a manifest at a path.
pub open spec fn manifest_entry_verdict(
    name: Seq<char>,
    reference: Seq<char>,
    path: Seq<char>,
    os: HostOs,
) -> Result<(), Refusal> {
    match name::box_name(name) {
        Err(refused) => Err(error::refusal("in "@ + render::printable(path)) + refused),
        Ok(_) => if resolve::path_like(reference, os) {
            Ok(())
        } else {
            Err(
                error::refusal(
                    "box '"@ + name + "' in "@ + render::printable(path) + " points at '"@ + render::printable(
                        reference,
                    ) + "', which is not a recipe path (a reference is a path, e.g. ./"@
                        + render::printable(reference) + ".yaml)"@,
                ),
            )
        },
    }
}

pub open spec fn manifest_boxes_verdict(
    boxes: Seq<(Seq<char>, Seq<char>)>,
    path: Seq<char>,
    n: int,
    os: HostOs,
) -> Result<(), Refusal>
    decreases n,
{
    if n <= 0 {
        Ok(())
    } else {
        both(
            manifest_boxes_verdict(boxes, path, n - 1, os),
            manifest_entry_verdict(boxes[n - 1].0, boxes[n - 1].1, path, os),
        )
    }
}

proof fn lemma_manifest_first(
    boxes: Seq<(Seq<char>, Seq<char>)>,
    path: Seq<char>,
    n: int,
    m: int,
    os: HostOs,
)
    requires
        0 <= n <= m,
        manifest_boxes_verdict(boxes, path, n, os) is Err,
    ensures
        manifest_boxes_verdict(boxes, path, m, os) == manifest_boxes_verdict(boxes, path, n, os),
    decreases m - n,
{
    if n < m {
        lemma_manifest_first(boxes, path, n, m - 1, os);
    }
}

/// Refuses a manifest with a name no box can have, or a reference that is no
/// path.
pub fn check_manifest(manifest: &Manifest, path: &str, os: HostOs) -> (verdict: Result<(), Error>)
    ensures
        error::outcome(verdict) == manifest_boxes_verdict(
            manifest.boxes@,
            path@,
            manifest.boxes@.len() as int,
            os,
        ),
{
    let boxes = &manifest.boxes;
    let n: usize = boxes.len();
    let mut i: usize = 0;
    while i < n
        invariant
            i <= n == boxes@.len(),
            manifest_boxes_verdict(boxes@, path@, i as int, os) is Ok,
            boxes@ == manifest.boxes@,
        decreases n - i,
    {
        let name = boxes.key_at(i);
        let reference = boxes.value_at(i).as_str();
        proof {
            if manifest_boxes_verdict(boxes@, path@, i + 1, os) is Err {
                lemma_manifest_first(boxes@, path@, i + 1, n as int, os);
            }
        }
        if let Err(error) = validate_box_name(name) {
            let mut what: String = "in ".to_owned();
            what.append(escape_printable_path(path).as_str());
            return Err(error.context(what));
        }
        if !is_path(reference, os) {
            let shown = escape_printable(reference);
            let mut message: String = "box '".to_owned();
            message.append(name);
            message.append("' in ");
            message.append(escape_printable_path(path).as_str());
            message.append(" points at '");
            message.append(shown.as_str());
            message.append("', which is not a recipe path (a reference is a path, e.g. ./");
            message.append(shown.as_str());
            message.append(".yaml)");
            return Err(Error::new(message));
        }
        i = i + 1;
    }
    Ok(())
}

/// What came of reading the manifest of a project.
#[derive(Debug)]
pub enum ReadManifest {
    Missing,
    /// It could not be read, for this reason.
    Unreadable(String),
    /// The YAML parser holds this against it.
    Malformed(String),
    Read(Manifest),
}

/// What reading a manifest comes to.
pub open spec fn manifest_loaded(path: Seq<char>, read: ReadManifest, os: HostOs) -> Result<
    Option<Manifest>,
    Refusal,
> {
    match read {
        ReadManifest::Missing => Ok(None),
        ReadManifest::Unreadable(reason) => Err(
            error::refusal("reading "@ + render::printable(path)) + error::refusal(reason@),
        ),
        ReadManifest::Malformed(reason) => Err(
            error::refusal("failed to parse "@ + render::printable(path)) + error::refusal(
                render::printable(reason@),
            ),
        ),
        ReadManifest::Read(found) => match manifest_boxes_verdict(
            found.boxes@,
            path,
            found.boxes@.len() as int,
            os,
        ) {
            Ok(_) => Ok(Some(found)),
            Err(refused) => Err(refused),
        },
    }
}

/// The manifest of a project, where it has one. One that is there and cannot
/// be used is an error, so that it never silently changes what a name means.
pub fn load_manifest(path: &str, read: ReadManifest, os: HostOs) -> (manifest: Result<
    Option<Manifest>,
    Error,
>)
    ensures
        match manifest {
            Ok(found) => manifest_loaded(path@, read, os) == Ok::<_, Refusal>(found),
            Err(error) => manifest_loaded(path@, read, os) == Err::<Option<Manifest>, _>(error@),
        },
{
    match read {
        ReadManifest::Missing => Ok(None),
        ReadManifest::Unreadable(reason) => {
            let mut what: String = "reading ".to_owned();
            what.append(escape_printable_path(path).as_str());
            Err(Error::new(reason).context(what))
        },
        ReadManifest::Malformed(reason) => {
            let mut what: String = "failed to parse ".to_owned();
            what.append(escape_printable_path(path).as_str());
            Err(Error::new(escape_printable(reason.as_str())).context(what))
        },
        ReadManifest::Read(found) => match check_manifest(&found, path, os) {
            Ok(_) => Ok(Some(found)),
            Err(error) => Err(error),
        },
    }
}

/// A manifest, or what is said where it cannot be gone by.
pub open spec fn manifest_or_warning(path: Seq<char>, read: ReadManifest, os: HostOs) -> (
    Option<Manifest>,
    Option<Seq<char>>,
) {
    match manifest_loaded(path, read, os) {
        Ok(found) => (found, None),
        Err(refused) => (None, Some(manifest_warning(refused))),
    }
}

/// The manifest where it can be used; with it, what to say where it cannot. A
/// box can leave the manifest of its project unreadable, and must not take
/// the commands away that end it.
pub fn load_manifest_or_warn(path: &str, read: ReadManifest, os: HostOs) -> (manifest: (
    Option<Manifest>,
    Option<String>,
))
    ensures
        (manifest.0, text::text_of(manifest.1)) == manifest_or_warning(path@, read, os),
{
    match load_manifest(path, read, os) {
        Ok(manifest) => (manifest, None),
        Err(error) => {
            let mut warning: String = "terra: warning: ".to_owned();
            warning.append(error.full_message().as_str());
            warning.append(
                "\nterra: continuing without it - box names resolve from what is set up on disk, and `terra setup` needs it fixed",
            );
            (None, Some(warning))
        },
    }
}

/// What is said of a manifest that cannot be used.
pub open spec fn manifest_warning(refused: Refusal) -> Seq<char> {
    "terra: warning: "@ + text::joined(refused, ": "@)
        + "\nterra: continuing without it - box names resolve from what is set up on disk, and `terra setup` needs it fixed"@
}

} // verus!
