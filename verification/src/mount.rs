//! What a recipe may share with a box, and when a pinned recipe is doubted
//! because a guest could have written it through one of its shares.

use crate::config::{Config, ConfigView, Mount, MountView};
use crate::error::{self, Error, Refusal, refuse};
use crate::host::{self, Home, HomeView, join_on, to_slashes};
use crate::path::{self, is_equivalent, join, starts_with};
use crate::recipe::{self, resolve_recipe_path};
use crate::render::{self, escape_printable_path};
use crate::resolve::FileRead;
use crate::text::{self, clone_optional_text};
use vstd::prelude::*;

pub mod laws;

verus! {

/// The paths no box may reach, each with links followed; one that could not
/// be determined is left out.
#[derive(Debug)]
pub struct TerraPaths {
    pub box_dir: String,
    pub terra_home: Option<String>,
    pub box_home: Option<String>,
    pub cache: Option<String>,
    pub binary: Option<String>,
}

/// A path no box may reach, what it holds, and whether it may be shared to be
/// read.
#[verifier::ext_equal]
pub struct ProtectedView {
    pub path: Option<Seq<char>>,
    pub what_shared: Seq<char>,
    pub refuse_even_readonly: bool,
}

/// The protected paths, in the order they are tested.
pub open spec fn protected(paths: TerraPaths) -> Seq<ProtectedView> {
    seq![
        ProtectedView {
            path: Some(paths.box_dir@),
            what_shared: "this box's own state - its recipe, disk images and sockets"@,
            refuse_even_readonly: true,
        },
        ProtectedView {
            path: text::text_of(paths.terra_home),
            what_shared: "terra's own directory - the shared recipes, and where every box on this machine is kept"@,
            refuse_even_readonly: true,
        },
        ProtectedView {
            path: text::text_of(paths.box_home),
            what_shared: "every box on this machine - their recipes, disk images and sockets"@,
            refuse_even_readonly: true,
        },
        ProtectedView {
            path: text::text_of(paths.cache),
            what_shared: "the kernel and agent every box on this machine boots"@,
            refuse_even_readonly: true,
        },
        ProtectedView {
            path: text::text_of(paths.binary),
            what_shared: "the terra binary itself - re-executed by every interactive or detached run"@,
            refuse_even_readonly: false,
        },
    ]
}

/// Whether one of two paths contains the other.
pub open spec fn overlap(a: Seq<char>, b: Seq<char>) -> bool {
    path::lies_under(a, b) || path::lies_under(b, a)
}

/// Whether sharing a host path hands a protected one to a box.
pub open spec fn hands_out(item: ProtectedView, host: Seq<char>, readonly: bool) -> bool {
    match item.path {
        None => false,
        Some(path) => !(readonly && !item.refuse_even_readonly) && overlap(path, host),
    }
}

pub open spec fn share_refusal(mount: MountView, item: ProtectedView) -> Refusal {
    error::refusal(
        "mount '"@ + render::printable(mount.host) + "' would share "@ + item.what_shared
            + " with the sandbox.\nA guest that can write "@ + render::printable(item.path->0)
            + " decides what its next boot mounts and what it may reach, so this is refused.\n(share a subdirectory instead - `host: ./src` - or keep the whole box elsewhere: `terra --project <dir>`)"@,
    )
}

/// What is held against one mount by the first `n` protected paths; `host` is
/// its host path with links followed.
pub open spec fn mount_verdict(
    mount: MountView,
    host: Seq<char>,
    items: Seq<ProtectedView>,
    n: int,
) -> Result<(), Refusal>
    decreases n,
{
    if n <= 0 {
        Ok(())
    } else if mount_verdict(mount, host, items, n - 1) is Err {
        mount_verdict(mount, host, items, n - 1)
    } else if hands_out(items[n - 1], host, mount.readonly) {
        Err(share_refusal(mount, items[n - 1]))
    } else {
        Ok(())
    }
}

/// What is held against the first `n` mounts.
pub open spec fn mounts_verdict(
    mounts: Seq<MountView>,
    hosts: Seq<Seq<char>>,
    items: Seq<ProtectedView>,
    n: int,
) -> Result<(), Refusal>
    decreases n,
{
    if n <= 0 {
        Ok(())
    } else if mounts_verdict(mounts, hosts, items, n - 1) is Err {
        mounts_verdict(mounts, hosts, items, n - 1)
    } else {
        mount_verdict(mounts[n - 1], hosts[n - 1], items, items.len() as int)
    }
}

fn check_protected(
    mount: &Mount,
    host: &str,
    path: &str,
    what_shared: &str,
    refuse_even_readonly: bool,
) -> (verdict: Result<(), Error>)
    ensures
        ({
            let item = ProtectedView {
                path: Some(path@),
                what_shared: what_shared@,
                refuse_even_readonly,
            };
            error::outcome(verdict) == (if hands_out(item, host@, mount.readonly) {
                Err(share_refusal(mount@, item))
            } else {
                Ok(())
            })
        }),
{
    if mount.readonly && !refuse_even_readonly {
        return Ok(());
    }
    if starts_with(path, host) || starts_with(host, path) {
        let mut message: String = "mount '".to_owned();
        message.append(escape_printable_path(mount.host.as_str()).as_str());
        message.append("' would share ");
        message.append(what_shared);
        message.append(" with the sandbox.\nA guest that can write ");
        message.append(escape_printable_path(path).as_str());
        message.append(
            " decides what its next boot mounts and what it may reach, so this is refused.\n(share a subdirectory instead - `host: ./src` - or keep the whole box elsewhere: `terra --project <dir>`)",
        );
        return Err(Error::new(message));
    }
    Ok(())
}

fn check_optional(
    mount: &Mount,
    host: &str,
    path: &Option<String>,
    what_shared: &str,
    refuse_even_readonly: bool,
) -> (verdict: Result<(), Error>)
    ensures
        ({
            let item = ProtectedView {
                path: text::text_of(*path),
                what_shared: what_shared@,
                refuse_even_readonly,
            };
            error::outcome(verdict) == (if hands_out(item, host@, mount.readonly) {
                Err(share_refusal(mount@, item))
            } else {
                Ok(())
            })
        }),
{
    match path {
        Some(path) => check_protected(mount, host, path.as_str(), what_shared, refuse_even_readonly),
        None => Ok(()),
    }
}

fn check_mount(mount: &Mount, host: &str, paths: &TerraPaths) -> (verdict: Result<(), Error>)
    ensures
        error::outcome(verdict) == mount_verdict(mount@, host@, protected(*paths), 5),
{
    proof {
        reveal_with_fuel(mount_verdict, 6);
    }
    let verdict = check_protected(
        mount,
        host,
        paths.box_dir.as_str(),
        "this box's own state - its recipe, disk images and sockets",
        true,
    );
    if verdict.is_err() {
        return verdict;
    }
    let verdict = check_optional(
        mount,
        host,
        &paths.terra_home,
        "terra's own directory - the shared recipes, and where every box on this machine is kept",
        true,
    );
    if verdict.is_err() {
        return verdict;
    }
    let verdict = check_optional(
        mount,
        host,
        &paths.box_home,
        "every box on this machine - their recipes, disk images and sockets",
        true,
    );
    if verdict.is_err() {
        return verdict;
    }
    let verdict = check_optional(
        mount,
        host,
        &paths.cache,
        "the kernel and agent every box on this machine boots",
        true,
    );
    if verdict.is_err() {
        return verdict;
    }
    check_optional(
        mount,
        host,
        &paths.binary,
        "the terra binary itself - re-executed by every interactive or detached run",
        false,
    )
}

proof fn lemma_first_refused_mount(
    mounts: Seq<MountView>,
    hosts: Seq<Seq<char>>,
    items: Seq<ProtectedView>,
    n: int,
    m: int,
)
    requires
        0 <= n <= m,
        mounts_verdict(mounts, hosts, items, n) is Err,
    ensures
        mounts_verdict(mounts, hosts, items, m) == mounts_verdict(mounts, hosts, items, n),
    decreases m - n,
{
    if n < m {
        lemma_first_refused_mount(mounts, hosts, items, n, m - 1);
    }
}

/// Refuses a mount that overlaps the state or the binary boxes are run by;
/// `hosts` are the host paths of the mounts with links followed.
pub fn validate_mounts_against_terra_paths(
    mounts: &Vec<Mount>,
    hosts: &Vec<String>,
    paths: &TerraPaths,
) -> (verdict: Result<(), Error>)
    requires
        mounts@.len() == hosts@.len(),
    ensures
        error::outcome(verdict) == mounts_verdict(
            text::views(mounts@),
            text::texts(hosts@),
            protected(*paths),
            mounts@.len() as int,
        ),
{
    let ghost shown = text::views(mounts@);
    let ghost places = text::texts(hosts@);
    let ghost items = protected(*paths);
    let mut i: usize = 0;
    while i < mounts.len()
        invariant
            i <= mounts@.len() == hosts@.len(),
            shown == text::views(mounts@),
            places == text::texts(hosts@),
            items == protected(*paths),
            mounts_verdict(shown, places, items, i as int) is Ok,
        decreases mounts.len() - i,
    {
        let verdict = check_mount(&mounts[i], hosts[i].as_str(), paths);
        proof {
            assert(shown[i as int] == mounts@[i as int]@);
            assert(places[i as int] == hosts@[i as int]@);
        }
        if verdict.is_err() {
            proof {
                lemma_first_refused_mount(shown, places, items, i + 1, mounts@.len() as int);
            }
            return verdict;
        }
        i = i + 1;
    }
    Ok(())
}

/// The first `n` mounts with the links of their host paths followed, or why
/// one could not be.
pub open spec fn followed_mounts(
    mounts: Seq<MountView>,
    followed: Seq<Result<String, String>>,
    n: int,
) -> Result<Seq<MountView>, Refusal>
    decreases n,
{
    if n <= 0 {
        Ok(Seq::empty())
    } else {
        match followed_mounts(mounts, followed, n - 1) {
            Err(refused) => Err(refused),
            Ok(before) => match followed[n - 1] {
                Ok(host) => Ok(before.push(MountView { host: host@, ..mounts[n - 1] })),
                Err(why) => Err(
                    error::refusal(
                        "resolving mount host path '"@ + render::printable(mounts[n - 1].host) + "'"@,
                    ) + error::refusal(why@),
                ),
            },
        }
    }
}

/// The host paths of some mounts.
pub open spec fn hosts_of(mounts: Seq<MountView>) -> Seq<Seq<char>> {
    Seq::new(mounts.len(), |i: int| mounts[i].host)
}

/// The mounts of a recipe as a box gets them, or why it gets none.
pub open spec fn resolved_mounts(
    mounts: Seq<MountView>,
    followed: Seq<Result<String, String>>,
    paths: TerraPaths,
) -> Result<Seq<MountView>, Refusal> {
    match followed_mounts(mounts, followed, mounts.len() as int) {
        Err(refused) => Err(refused),
        Ok(there) => match mounts_verdict(
            there,
            hosts_of(there),
            protected(paths),
            there.len() as int,
        ) {
            Err(refused) => Err(refused),
            Ok(_) => Ok(there),
        },
    }
}

proof fn lemma_first_unfollowed(
    mounts: Seq<MountView>,
    followed: Seq<Result<String, String>>,
    n: int,
    m: int,
)
    requires
        0 <= n <= m,
        followed_mounts(mounts, followed, n) is Err,
    ensures
        followed_mounts(mounts, followed, m) == followed_mounts(mounts, followed, n),
    decreases m - n,
{
    if n < m {
        lemma_first_unfollowed(mounts, followed, n, m - 1);
    }
}

/// Puts the mounts of a recipe where the links of their host paths lead, and
/// refuses them where one would hand out what boxes are run by. `followed` says
/// of each where it leads, or why that is not known.
pub fn resolve_mounts(
    mounts: &Vec<Mount>,
    followed: &Vec<Result<String, String>>,
    paths: &TerraPaths,
) -> (resolved: Result<Vec<Mount>, Error>)
    requires
        mounts@.len() == followed@.len(),
    ensures
        match resolved {
            Ok(mounts_there) => resolved_mounts(text::views(mounts@), followed@, *paths) == Ok::<
                _,
                Refusal,
            >(text::views(mounts_there@)),
            Err(error) => resolved_mounts(text::views(mounts@), followed@, *paths) == Err::<
                Seq<MountView>,
                _,
            >(error@),
        },
{
    let ghost declared = text::views(mounts@);
    let mut there: Vec<Mount> = Vec::new();
    let mut hosts: Vec<String> = Vec::new();
    let mut i: usize = 0;
    proof {
        assert(text::views(there@) =~= Seq::empty());
        assert(text::texts(hosts@) =~= hosts_of(text::views(there@)));
    }
    while i < mounts.len()
        invariant
            i <= mounts@.len() == followed@.len(),
            declared == text::views(mounts@),
            followed_mounts(declared, followed@, i as int) == Ok::<_, Refusal>(text::views(there@)),
            text::texts(hosts@) == hosts_of(text::views(there@)),
        decreases mounts.len() - i,
    {
        let ghost before = text::views(there@);
        let ghost hosts_before = hosts@;
        proof {
            assert(declared[i as int] == mounts@[i as int]@);
        }
        match &followed[i] {
            Ok(host) => {
                there.push(
                    Mount {
                        host: host.as_str().to_owned(),
                        guest: mounts[i].guest.as_str().to_owned(),
                        readonly: mounts[i].readonly,
                    },
                );
                hosts.push(host.as_str().to_owned());
                proof {
                    assert(text::views(there@) =~= before.push(there@.last()@));
                    crate::text::lemma_texts_push(hosts_before, hosts@.last());
                    assert(hosts_of(text::views(there@)) =~= hosts_of(before).push(host@));
                }
            },
            Err(why) => {
                let mut message: String = "resolving mount host path '".to_owned();
                message.append(escape_printable_path(mounts[i].host.as_str()).as_str());
                message.append("'");
                proof {
                    lemma_first_unfollowed(declared, followed@, i + 1, mounts@.len() as int);
                }
                return Err(Error::new(why.as_str().to_owned()).context(message));
            },
        }
        i = i + 1;
    }
    proof {
        assert(there@.len() == hosts@.len()) by {
            assert(text::texts(hosts@).len() == hosts_of(text::views(there@)).len());
        }
    }
    match validate_mounts_against_terra_paths(&there, &hosts, paths) {
        Ok(()) => Ok(there),
        Err(error) => Err(error),
    }
}

proof fn lemma_no_item_handed_out(
    mount: MountView,
    host: Seq<char>,
    items: Seq<ProtectedView>,
    n: int,
    k: int,
)
    requires
        mount_verdict(mount, host, items, n) is Ok,
        0 <= k < n,
    ensures
        !hands_out(items[k], host, mount.readonly),
    decreases n,
{
    if k < n - 1 {
        lemma_no_item_handed_out(mount, host, items, n - 1, k);
    }
}

proof fn lemma_mount_accepted(
    mounts: Seq<MountView>,
    hosts: Seq<Seq<char>>,
    items: Seq<ProtectedView>,
    n: int,
    i: int,
)
    requires
        mounts_verdict(mounts, hosts, items, n) is Ok,
        0 <= i < n,
    ensures
        mount_verdict(mounts[i], hosts[i], items, items.len() as int) is Ok,
    decreases n,
{
    if i < n - 1 {
        lemma_mount_accepted(mounts, hosts, items, n - 1, i);
    }
}

/// A box never reaches the state it is run from: no accepted mount shares,
/// contains or lies in its state directory, not even to be read, and none
/// that can be written does so with the binary.
pub proof fn accepted_mounts_keep_out_of_terra(
    mounts: Seq<MountView>,
    hosts: Seq<Seq<char>>,
    paths: TerraPaths,
    i: int,
)
    requires
        mounts_verdict(mounts, hosts, protected(paths), mounts.len() as int) is Ok,
        0 <= i < mounts.len(),
    ensures
        !overlap(paths.box_dir@, hosts[i]),
        paths.terra_home is Some ==> !overlap(paths.terra_home->0@, hosts[i]),
        paths.box_home is Some ==> !overlap(paths.box_home->0@, hosts[i]),
        paths.cache is Some ==> !overlap(paths.cache->0@, hosts[i]),
        paths.binary is Some && !mounts[i].readonly ==> !overlap(paths.binary->0@, hosts[i]),
{
    let items = protected(paths);
    lemma_mount_accepted(mounts, hosts, items, mounts.len() as int, i);
    lemma_no_item_handed_out(mounts[i], hosts[i], items, 5, 0);
    lemma_no_item_handed_out(mounts[i], hosts[i], items, 5, 1);
    lemma_no_item_handed_out(mounts[i], hosts[i], items, 5, 2);
    lemma_no_item_handed_out(mounts[i], hosts[i], items, 5, 3);
    lemma_no_item_handed_out(mounts[i], hosts[i], items, 5, 4);
}

/// The host paths a recipe had when it was pinned.
#[derive(Debug)]
pub struct PinnedPaths {
    pub mounts: Vec<String>,
    pub env_file: Option<String>,
}

#[verifier::ext_equal]
pub struct PinnedView {
    pub mounts: Seq<Seq<char>>,
    pub env_file: Option<Seq<char>>,
}

impl View for PinnedPaths {
    type V = PinnedView;

    open spec fn view(&self) -> PinnedView {
        PinnedView { mounts: text::texts(self.mounts@), env_file: text::text_of(self.env_file) }
    }
}

/// The host paths a recipe reads.
pub open spec fn host_paths(cfg: ConfigView) -> PinnedView {
    PinnedView {
        mounts: Seq::new(cfg.mounts.len(), |i: int| cfg.mounts[i].host),
        env_file: cfg.env_file,
    }
}

impl PinnedPaths {
    pub fn from_config(cfg: &Config) -> (paths: PinnedPaths)
        ensures
            paths@ == host_paths(cfg@),
    {
        let ghost hosts = host_paths(cfg@).mounts;
        let mut mounts: Vec<String> = Vec::new();
        let mut i: usize = 0;
        proof {
            assert(text::texts(mounts@) =~= hosts.take(0));
        }
        while i < cfg.mounts.len()
            invariant
                i <= cfg.mounts@.len(),
                hosts == host_paths(cfg@).mounts,
                text::texts(mounts@) == hosts.take(i as int),
            decreases cfg.mounts.len() - i,
        {
            let ghost before = mounts@;
            mounts.push(cfg.mounts[i].host.as_str().to_owned());
            proof {
                crate::text::lemma_texts_push(before, mounts@.last());
                assert(hosts.take(i + 1) =~= hosts.take(i as int).push(hosts[i as int]));
            }
            i = i + 1;
        }
        proof {
            assert(hosts.take(i as int) =~= hosts);
        }
        PinnedPaths { mounts, env_file: clone_optional_text(&cfg.env_file) }
    }
}

/// Whether two lists hold the same paths, however each is spelled.
pub open spec fn same_places(a: Seq<Seq<char>>, b: Seq<Seq<char>>) -> bool {
    a.len() == b.len() && forall|i: int|
        0 <= i < a.len() ==> path::equivalent(#[trigger] a[i], b[i])
}

/// Whether the host paths of two recipes are the same.
pub open spec fn same_pins(a: PinnedView, b: PinnedView) -> bool {
    same_places(a.mounts, b.mounts) && match (a.env_file, b.env_file) {
        (Some(x), Some(y)) => path::equivalent(x, y),
        (None, None) => true,
        _ => false,
    }
}

fn are_same_places(a: &Vec<String>, b: &Vec<String>) -> (same: bool)
    ensures
        same == same_places(text::texts(a@), text::texts(b@)),
{
    if a.len() != b.len() {
        proof {
            assert(text::texts(a@).len() != text::texts(b@).len());
        }
        return false;
    }
    let mut i: usize = 0;
    while i < a.len()
        invariant
            i <= a@.len() == b@.len(),
            forall|j: int|
                0 <= j < i ==> path::equivalent(#[trigger] text::texts(a@)[j], text::texts(b@)[j]),
        decreases a.len() - i,
    {
        proof {
            assert(text::texts(a@)[i as int] == a@[i as int]@);
            assert(text::texts(b@)[i as int] == b@[i as int]@);
        }
        if !is_equivalent(a[i].as_str(), b[i].as_str()) {
            return false;
        }
        i = i + 1;
    }
    true
}

pub fn are_same_pins(a: &PinnedPaths, b: &PinnedPaths) -> (same: bool)
    ensures
        same == same_pins(a@, b@),
{
    let same_env = match (&a.env_file, &b.env_file) {
        (Some(x), Some(y)) => is_equivalent(x.as_str(), y.as_str()),
        (None, None) => true,
        _ => false,
    };
    are_same_places(&a.mounts, &b.mounts) && same_env
}

/// Whether what a box shares is still what was pinned for it.
pub open spec fn pins_verdict(name: Seq<char>, stored: Option<PinnedView>, current: PinnedView) -> Result<
    (),
    Refusal,
> {
    if stored is Some && same_pins(stored->0, current) {
        Ok(())
    } else {
        Err(moved_since(name))
    }
}

/// Refuses to go on where a host path is no longer what was pinned, or where
/// nothing was.
pub fn verify_pinned_paths(name: &str, stored: &Option<PinnedPaths>, current: &PinnedPaths) -> (
    verdict: Result<(), Error>)
    ensures
        error::outcome(verdict) == pins_verdict(
            name@,
            match *stored {
                Some(paths) => Some(paths@),
                None => None,
            },
            current@,
        ),
{
    let same = match stored {
        Some(pinned) => are_same_pins(pinned, current),
        None => false,
    };
    if same {
        return Ok(());
    }
    let mut message: String = "a share or env_file moved since it was pinned - run `terra ".to_owned();
    message.append(name);
    message.append(" setup` again");
    Err(Error::new(message))
}

/// What is said where a host path is no longer what was pinned.
pub open spec fn moved_since(name: Seq<char>) -> Refusal {
    error::refusal(
        "a share or env_file moved since it was pinned - run `terra "@ + name + " setup` again"@,
    )
}

/// The first share a file lies in.
pub open spec fn containing_share(file: Seq<char>, shares: Seq<Seq<char>>) -> Option<Seq<char>>
    decreases shares.len(),
{
    if shares.len() == 0 {
        None
    } else if path::lies_under(file, shares[0]) {
        Some(shares[0])
    } else {
        containing_share(file, shares.drop_first())
    }
}

/// The share a guest could have written a recipe file through; all paths with
/// links followed.
pub fn find_writable_mount_containing(recipe_file: &str, shares: &Vec<String>) -> (share: Option<
    String,
>)
    ensures
        text::text_of(share) == containing_share(recipe_file@, text::texts(shares@)),
{
    let ghost all = text::texts(shares@);
    let mut i: usize = 0;
    proof {
        assert(all.skip(0) =~= all);
    }
    while i < shares.len()
        invariant
            i <= shares@.len(),
            all == text::texts(shares@),
            containing_share(recipe_file@, all) == containing_share(
                recipe_file@,
                all.skip(i as int),
            ),
        decreases shares.len() - i,
    {
        proof {
            assert(all.skip(i as int)[0] == shares@[i as int]@);
            assert(all.skip(i as int).drop_first() =~= all.skip(i + 1));
        }
        if starts_with(recipe_file, shares[i].as_str()) {
            return Some(shares[i].as_str().to_owned());
        }
        i = i + 1;
    }
    None
}

/// A mount as an older recipe declares it, read without holding it to the
/// rules of today.
#[derive(Debug)]
pub struct DeclaredMount {
    /// Whether it is a mapping at all.
    pub is_mapping: bool,
    /// Whether a YAML merge key stands in it.
    pub has_merge_key: bool,
    /// What it says of being read-only, if that is yes or no.
    pub readonly: Option<bool>,
    /// Where it is shared from, if that is a path.
    pub host: Option<String>,
}

#[verifier::ext_equal]
pub struct DeclaredView {
    pub is_mapping: bool,
    pub has_merge_key: bool,
    pub readonly: Option<bool>,
    pub host: Option<Seq<char>>,
}

impl View for DeclaredMount {
    type V = DeclaredView;

    open spec fn view(&self) -> DeclaredView {
        DeclaredView {
            is_mapping: self.is_mapping,
            has_merge_key: self.has_merge_key,
            readonly: self.readonly,
            host: text::text_of(self.host),
        }
    }
}

/// Where a declared host path lies, also where it could not be resolved.
pub open spec fn declared_host(
    host: Seq<char>,
    project_dir: Seq<char>,
    home: HomeView,
) -> Seq<char> {
    match recipe::recipe_path(host, project_dir, home) {
        Ok(path) => path,
        Err(_) => host::placed(project_dir, host::with_slashes(host, home.os), home.os),
    }
}

/// Whether a declared mount hides what it declares.
pub open spec fn is_merged(mount: DeclaredView) -> bool {
    mount.is_mapping && mount.has_merge_key
}

/// Whether a declared mount can be written: every mapping can that does not
/// say otherwise.
pub open spec fn is_writable(mount: DeclaredView) -> bool {
    mount.is_mapping && mount.readonly != Some(true)
}

/// The host paths of the mounts that can be written.
pub open spec fn writable_hosts(
    mounts: Seq<DeclaredView>,
    project_dir: Seq<char>,
    home: HomeView,
) -> Seq<Seq<char>>
    decreases mounts.len(),
{
    if mounts.len() == 0 {
        Seq::empty()
    } else {
        let before = writable_hosts(mounts.drop_last(), project_dir, home);
        match mounts.last().host {
            Some(host) => if is_writable(mounts.last()) {
                before.push(declared_host(host, project_dir, home))
            } else {
                before
            },
            None => before,
        }
    }
}

/// What a recipe declares to be shared for writing; nothing that draws keys in
/// from elsewhere tells.
pub open spec fn declared_shares(
    mounts: Seq<DeclaredView>,
    project_dir: Seq<char>,
    home: HomeView,
) -> Result<Seq<Seq<char>>, Refusal> {
    if exists|i: int| 0 <= i < mounts.len() && is_merged(#[trigger] mounts[i]) {
        Err(error::refusal("cannot determine writable shares from YAML merge keys"@))
    } else {
        Ok(writable_hosts(mounts, project_dir, home))
    }
}

/// The shares a recipe lets its box write. A merge key hides what it
/// declares, so then nothing can be said.
pub fn list_declared_writable_shares(
    mounts: &Vec<DeclaredMount>,
    project_dir: &str,
    home: &Home,
) -> (shares: Result<Vec<String>, Error>)
    ensures
        match shares {
            Ok(list) => declared_shares(text::views(mounts@), project_dir@, home@) == Ok::<
                _,
                Refusal,
            >(text::texts(list@)),
            Err(error) => declared_shares(text::views(mounts@), project_dir@, home@) == Err::<
                Seq<Seq<char>>,
                _,
            >(error@),
        },
{
    let mut i: usize = 0;
    while i < mounts.len()
        invariant
            i <= mounts@.len(),
            forall|j: int| 0 <= j < i ==> !is_merged((#[trigger] mounts@[j])@),
        decreases mounts.len() - i,
    {
        if mounts[i].is_mapping && mounts[i].has_merge_key {
            proof {
                assert(text::views(mounts@)[i as int] == mounts@[i as int]@);
            }
            return Err(refuse("cannot determine writable shares from YAML merge keys"));
        }
        i = i + 1;
    }
    let ghost all = text::views(mounts@);
    let mut list: Vec<String> = Vec::new();
    i = 0;
    proof {
        assert(text::texts(list@) =~= Seq::empty());
        assert(all.take(0) =~= Seq::empty());
    }
    while i < mounts.len()
        invariant
            i <= mounts@.len(),
            all == text::views(mounts@),
            text::texts(list@) == writable_hosts(all.take(i as int), project_dir@, home@),
        decreases mounts.len() - i,
    {
        let ghost before = list@;
        proof {
            assert(all.take(i + 1).drop_last() =~= all.take(i as int));
            assert(all.take(i + 1).last() == mounts@[i as int]@);
        }
        if let Some(host) = &mounts[i].host {
            let may_write = match mounts[i].readonly {
                Some(readonly) => !readonly,
                None => true,
            };
            if mounts[i].is_mapping && may_write {
                let path = match resolve_recipe_path(host.as_str(), project_dir, home) {
                    Ok(path) => path,
                    Err(_) => join_on(
                        project_dir,
                        to_slashes(host.as_str(), home.os).as_str(),
                        home.os,
                    ),
                };
                list.push(path);
                proof {
                    crate::text::lemma_texts_push(before, list@.last());
                }
            }
        }
        i = i + 1;
    }
    proof {
        assert(all.take(i as int) =~= all);
    }
    Ok(list)
}

/// What was found in the state of a project: where it is, which project it is
/// of where that is known, and its boxes with what reading each recipe gave.
#[derive(Debug)]
pub struct FoundProject {
    pub state_dir: String,
    pub origin: Option<String>,
    pub boxes: Vec<(String, FileRead)>,
}

/// The recipes of a project's boxes, each with the project it is of: a box
/// without a recipe counts for nothing, one whose recipe cannot be read or
/// whose project is unknown stops it all.
pub open spec fn recipes_of(
    state_dir: Seq<char>,
    origin: Option<Seq<char>>,
    boxes: Seq<(String, FileRead)>,
) -> Result<Seq<(Seq<char>, Seq<char>)>, Refusal>
    decreases boxes.len(),
{
    if boxes.len() == 0 {
        Ok(Seq::empty())
    } else {
        match recipes_of(state_dir, origin, boxes.drop_last()) {
            Err(refused) => Err(refused),
            Ok(before) => {
                let dir = boxes.last().0@;
                match boxes.last().1 {
                    FileRead::Missing => Ok(before),
                    FileRead::Unreadable(why) => Err(
                        error::refusal("reading "@ + dir) + error::refusal(why@),
                    ),
                    FileRead::Text(recipe) => match origin {
                        Some(project) => Ok(before.push((project, recipe@))),
                        None => Err(
                            error::refusal(
                                "missing project origin for "@ + dir + "; restore "@
                                    + path::placed(state_dir, ".path"@)
                                    + " before adopting a recipe"@,
                            ),
                        ),
                    },
                }
            },
        }
    }
}

/// The recipes of all boxes of all projects.
pub open spec fn all_recipes(
    current_state: Seq<char>,
    project_dir: Seq<char>,
    found: Seq<FoundProject>,
) -> Result<Seq<(Seq<char>, Seq<char>)>, Refusal>
    decreases found.len(),
{
    if found.len() == 0 {
        Ok(Seq::empty())
    } else {
        match all_recipes(current_state, project_dir, found.drop_last()) {
            Err(refused) => Err(refused),
            Ok(before) => {
                let project = found.last();
                let origin = if path::equivalent(project.state_dir@, current_state) {
                    Some(project_dir)
                } else {
                    text::text_of(project.origin)
                };
                match recipes_of(project.state_dir@, origin, project.boxes@) {
                    Err(refused) => Err(refused),
                    Ok(recipes) => Ok(before + recipes),
                }
            },
        }
    }
}

/// What a list of projects with recipes shows.
pub open spec fn project_recipes(list: Seq<(String, String)>) -> Seq<(Seq<char>, Seq<char>)> {
    Seq::new(list.len(), |i: int| (list[i].0@, list[i].1@))
}

fn append_recipes(
    recipes: &mut Vec<(String, String)>,
    state_dir: &str,
    origin: &Option<String>,
    boxes: &Vec<(String, FileRead)>,
) -> (listed: Result<(), Error>)
    ensures
        match recipes_of(state_dir@, text::text_of(*origin), boxes@) {
            Ok(more) => listed is Ok && project_recipes(final(recipes)@) == project_recipes(
                old(recipes)@,
            ) + more,
            Err(refused) => listed is Err && listed->Err_0@ == refused,
        },
{
    let ghost start = project_recipes(recipes@);
    let mut i: usize = 0;
    proof {
        assert(boxes@.take(0) =~= Seq::empty());
        assert(start =~= start + Seq::<(Seq<char>, Seq<char>)>::empty());
    }
    while i < boxes.len()
        invariant
            i <= boxes@.len(),
            recipes_of(state_dir@, text::text_of(*origin), boxes@.take(i as int)) is Ok,
            project_recipes(recipes@) == start + recipes_of(
                state_dir@,
                text::text_of(*origin),
                boxes@.take(i as int),
            )->Ok_0,
        decreases boxes.len() - i,
    {
        let ghost before = recipes@;
        proof {
            let more = boxes@.take(i + 1);
            assert(more.drop_last() =~= boxes@.take(i as int));
            assert(more.last() == boxes@[i as int]);
            if recipes_of(state_dir@, text::text_of(*origin), more) is Err {
                lemma_recipes_stop(state_dir@, text::text_of(*origin), boxes@, i + 1);
            }
        }
        let dir = boxes[i].0.as_str();
        match &boxes[i].1 {
            FileRead::Missing => {},
            FileRead::Unreadable(why) => {
                let mut what: String = "reading ".to_owned();
                what.append(dir);
                return Err(Error::new(why.as_str().to_owned()).context(what));
            },
            FileRead::Text(recipe) => match origin {
                Some(project) => {
                    recipes.push((project.as_str().to_owned(), recipe.as_str().to_owned()));
                    proof {
                        let last = recipes@.last();
                        assert(project_recipes(recipes@) =~= project_recipes(before).push(
                            (last.0@, last.1@),
                        ));
                        assert(project_recipes(recipes@) =~= start + recipes_of(
                            state_dir@,
                            text::text_of(*origin),
                            boxes@.take(i + 1),
                        )->Ok_0);
                    }
                },
                None => {
                    let mut message: String = "missing project origin for ".to_owned();
                    message.append(dir);
                    message.append("; restore ");
                    message.append(join(state_dir, crate::state::ORIGIN_FILE).as_str());
                    message.append(" before adopting a recipe");
                    return Err(Error::new(message));
                },
            },
        }
        i = i + 1;
    }
    proof {
        assert(boxes@.take(i as int) =~= boxes@);
    }
    Ok(())
}

/// What stops the reading of some boxes stops that of more.
proof fn lemma_recipes_stop(
    state_dir: Seq<char>,
    origin: Option<Seq<char>>,
    boxes: Seq<(String, FileRead)>,
    k: int,
)
    requires
        0 <= k <= boxes.len(),
        recipes_of(state_dir, origin, boxes.take(k)) is Err,
    ensures
        recipes_of(state_dir, origin, boxes) == recipes_of(state_dir, origin, boxes.take(k)),
    decreases boxes.len(),
{
    if k == boxes.len() {
        assert(boxes.take(k) =~= boxes);
    } else {
        assert(boxes.drop_last().take(k) =~= boxes.take(k));
        lemma_recipes_stop(state_dir, origin, boxes.drop_last(), k);
    }
}

proof fn lemma_all_recipes_stop(
    current_state: Seq<char>,
    project_dir: Seq<char>,
    found: Seq<FoundProject>,
    k: int,
)
    requires
        0 <= k <= found.len(),
        all_recipes(current_state, project_dir, found.take(k)) is Err,
    ensures
        all_recipes(current_state, project_dir, found) == all_recipes(
            current_state,
            project_dir,
            found.take(k),
        ),
    decreases found.len(),
{
    if k == found.len() {
        assert(found.take(k) =~= found);
    } else {
        assert(found.drop_last().take(k) =~= found.take(k));
        lemma_all_recipes_stop(current_state, project_dir, found.drop_last(), k);
    }
}

/// The recipes of all boxes there are, each with the project it is of.
/// `current_state` is the state directory of this project.
pub fn list_pinned_recipes_across_boxes(
    current_state: &str,
    project_dir: &str,
    found: &Vec<FoundProject>,
) -> (listed: Result<Vec<(String, String)>, Error>)
    ensures
        match all_recipes(current_state@, project_dir@, found@) {
            Ok(recipes) => listed is Ok && project_recipes(listed->Ok_0@) == recipes,
            Err(refused) => listed is Err && listed->Err_0@ == refused,
        },
{
    let mut recipes: Vec<(String, String)> = Vec::new();
    let mut i: usize = 0;
    proof {
        assert(found@.take(0) =~= Seq::empty());
        assert(project_recipes(recipes@) =~= Seq::empty());
    }
    while i < found.len()
        invariant
            i <= found@.len(),
            all_recipes(current_state@, project_dir@, found@.take(i as int)) is Ok,
            project_recipes(recipes@) == all_recipes(
                current_state@,
                project_dir@,
                found@.take(i as int),
            )->Ok_0,
        decreases found.len() - i,
    {
        proof {
            let more = found@.take(i + 1);
            assert(more.drop_last() =~= found@.take(i as int));
            assert(more.last() == found@[i as int]);
            if all_recipes(current_state@, project_dir@, more) is Err {
                lemma_all_recipes_stop(current_state@, project_dir@, found@, i + 1);
            }
        }
        let project = &found[i];
        let origin = if is_equivalent(project.state_dir.as_str(), current_state) {
            Some(project_dir.to_owned())
        } else {
            clone_optional_text(&project.origin)
        };
        match append_recipes(&mut recipes, project.state_dir.as_str(), &origin, &project.boxes) {
            Ok(()) => {},
            Err(error) => {
                return Err(error);
            },
        }
        i = i + 1;
    }
    proof {
        assert(found@.take(i as int) =~= found@);
    }
    Ok(recipes)
}

} // verus!
