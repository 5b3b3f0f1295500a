//! A recipe: what a box is made of.

use crate::ordered::TextMap;
use crate::text::{self, clone_optional_text, clone_texts};
use vstd::prelude::*;

verus! {

/// The recipe of a box.
#[derive(Debug)]
pub struct Config {
    pub hw: Hw,
    pub components: Components,
    pub mounts: Vec<Mount>,
    pub volumes: Vec<Volume>,
    pub network: Network,
    pub hooks: Hooks,
    /// Background shell lines, restarted on failure for the box's lifetime.
    pub daemons: Vec<String>,
    pub workload: Workload,
    /// Commands the workload user may run as root.
    pub sudo: Vec<String>,
    /// Exported for the workload and the hooks.
    pub env: TextMap<String>,
    /// A dotenv-style file merged over `env`; the file wins.
    pub env_file: Option<String>,
}

#[derive(Debug, Clone, Copy, PartialEq, Eq, Structural)]
pub struct NetworkComponent {
    pub memory_mib: u32,
}

#[derive(Debug, Clone, Copy, PartialEq, Eq, Structural)]
pub struct Components {
    pub memory_mib: u32,
    pub total_memory_mib: u32,
    pub network: Option<NetworkComponent>,
}

#[derive(Debug, Clone, Copy, PartialEq, Eq, Structural)]
pub struct Hw {
    pub cpus: u8,
    pub mem_mib: u32,
    /// Sparse, so only what gets written costs.
    pub rootfs_mib: u32,
}

/// A bounded scratch volume.
#[derive(Debug)]
pub struct Volume {
    /// Names the image file; renaming starts a fresh image.
    pub name: String,
    pub guest: String,
    /// Writes past this fail with `ENOSPC`.
    pub size_mib: u32,
}

/// A host directory shared with the box.
#[derive(Debug)]
pub struct Mount {
    pub host: String,
    pub guest: String,
    pub readonly: bool,
}

#[derive(Debug, Clone, Copy, PartialEq, Eq, Structural)]
pub enum NetworkMode {
    /// Public destinations, and what the rules list.
    UnrestrictedPublic,
    /// Nothing without a rule.
    Allowlist,
}

#[derive(Debug)]
pub struct Network {
    pub mode: NetworkMode,
    /// `HOST-or-IP-or-CIDR[:PORT]`, or `[v6]:port`.
    pub allow: Vec<String>,
    pub hosts: Vec<StaticDnsRecord>,
    /// `HOST[:GUEST]`: a guest listener on the host loopback.
    pub ports: Vec<String>,
}

#[derive(Debug)]
pub struct StaticDnsRecord {
    pub name: String,
    /// An IP address, or `HOST_LOOPBACK`.
    pub addr: String,
}

#[derive(Debug)]
pub struct Hooks {
    pub on_create: Vec<String>,
    pub on_start: Vec<String>,
    pub pre_stop: Vec<String>,
}

#[derive(Debug)]
pub struct Workload {
    pub entrypoint: String,
    pub args: Vec<String>,
    /// Where the workload starts, as an absolute guest path.
    pub workdir: Option<String>,
}

/// The boxes of a project by name, each a reference to a recipe file.
#[derive(Debug)]
pub struct Manifest {
    pub boxes: TextMap<String>,
}

#[verifier::ext_equal]
pub struct VolumeView {
    pub name: Seq<char>,
    pub guest: Seq<char>,
    pub size_mib: u32,
}

impl View for Volume {
    type V = VolumeView;

    open spec fn view(&self) -> VolumeView {
        VolumeView { name: self.name@, guest: self.guest@, size_mib: self.size_mib }
    }
}

#[verifier::ext_equal]
pub struct MountView {
    pub host: Seq<char>,
    pub guest: Seq<char>,
    pub readonly: bool,
}

impl View for Mount {
    type V = MountView;

    open spec fn view(&self) -> MountView {
        MountView { host: self.host@, guest: self.guest@, readonly: self.readonly }
    }
}

#[verifier::ext_equal]
pub struct DnsView {
    pub name: Seq<char>,
    pub addr: Seq<char>,
}

impl View for StaticDnsRecord {
    type V = DnsView;

    open spec fn view(&self) -> DnsView {
        DnsView { name: self.name@, addr: self.addr@ }
    }
}

#[verifier::ext_equal]
pub struct NetworkView {
    pub mode: NetworkMode,
    pub allow: Seq<Seq<char>>,
    pub hosts: Seq<DnsView>,
    pub ports: Seq<Seq<char>>,
}

impl View for Network {
    type V = NetworkView;

    open spec fn view(&self) -> NetworkView {
        NetworkView {
            mode: self.mode,
            allow: text::texts(self.allow@),
            hosts: text::views(self.hosts@),
            ports: text::texts(self.ports@),
        }
    }
}

#[verifier::ext_equal]
pub struct HooksView {
    pub on_create: Seq<Seq<char>>,
    pub on_start: Seq<Seq<char>>,
    pub pre_stop: Seq<Seq<char>>,
}

impl View for Hooks {
    type V = HooksView;

    open spec fn view(&self) -> HooksView {
        HooksView {
            on_create: text::texts(self.on_create@),
            on_start: text::texts(self.on_start@),
            pre_stop: text::texts(self.pre_stop@),
        }
    }
}

#[verifier::ext_equal]
pub struct WorkloadView {
    pub entrypoint: Seq<char>,
    pub args: Seq<Seq<char>>,
    pub workdir: Option<Seq<char>>,
}

impl View for Workload {
    type V = WorkloadView;

    open spec fn view(&self) -> WorkloadView {
        WorkloadView {
            entrypoint: self.entrypoint@,
            args: text::texts(self.args@),
            workdir: text::text_of(self.workdir),
        }
    }
}

#[verifier::ext_equal]
pub struct ConfigView {
    pub hw: Hw,
    pub components: Components,
    pub mounts: Seq<MountView>,
    pub volumes: Seq<VolumeView>,
    pub network: NetworkView,
    pub hooks: HooksView,
    pub daemons: Seq<Seq<char>>,
    pub workload: WorkloadView,
    pub sudo: Seq<Seq<char>>,
    pub env: Seq<(Seq<char>, Seq<char>)>,
    pub env_file: Option<Seq<char>>,
}

impl View for Config {
    type V = ConfigView;

    open spec fn view(&self) -> ConfigView {
        ConfigView {
            hw: self.hw,
            components: self.components,
            mounts: text::views(self.mounts@),
            volumes: text::views(self.volumes@),
            network: self.network@,
            hooks: self.hooks@,
            daemons: text::texts(self.daemons@),
            workload: self.workload@,
            sudo: text::texts(self.sudo@),
            env: self.env@,
            env_file: text::text_of(self.env_file),
        }
    }
}

impl Default for Hw {
    fn default() -> (hw: Hw)
        ensures
            hw == (Hw { cpus: 2, mem_mib: 1024, rootfs_mib: 512 }),
    {
        Hw { cpus: 2, mem_mib: 1024, rootfs_mib: 512 }
    }
}

impl Default for NetworkMode {
    fn default() -> (mode: NetworkMode)
        ensures
            mode == NetworkMode::Allowlist,
    {
        NetworkMode::Allowlist
    }
}

impl Default for Network {
    fn default() -> (network: Network)
        ensures
            network@ == (NetworkView {
                mode: NetworkMode::Allowlist,
                allow: Seq::empty(),
                hosts: Seq::empty(),
                ports: Seq::empty(),
            }),
    {
        let network = Network {
            mode: NetworkMode::Allowlist,
            allow: Vec::new(),
            hosts: Vec::new(),
            ports: Vec::new(),
        };
        proof {
            assert(network@.allow =~= Seq::empty());
            assert(network@.hosts =~= Seq::empty());
            assert(network@.ports =~= Seq::empty());
        }
        network
    }
}

impl Default for Hooks {
    fn default() -> (hooks: Hooks)
        ensures
            hooks@ == (HooksView {
                on_create: Seq::empty(),
                on_start: Seq::empty(),
                pre_stop: Seq::empty(),
            }),
    {
        let hooks = Hooks { on_create: Vec::new(), on_start: Vec::new(), pre_stop: Vec::new() };
        proof {
            assert(hooks@.on_create =~= Seq::empty());
            assert(hooks@.on_start =~= Seq::empty());
            assert(hooks@.pre_stop =~= Seq::empty());
        }
        hooks
    }
}

impl Default for Workload {
    fn default() -> (workload: Workload)
        ensures
            workload@ == (WorkloadView {
                entrypoint: "/bin/sh"@,
                args: Seq::empty(),
                workdir: None,
            }),
    {
        let workload = Workload {
            entrypoint: "/bin/sh".to_owned(),
            args: Vec::new(),
            workdir: None,
        };
        proof {
            assert(workload@.args =~= Seq::empty());
        }
        workload
    }
}

/// A recipe that says nothing but how much memory components get.
pub open spec fn default_config(components: Components) -> ConfigView {
    ConfigView {
        hw: Hw { cpus: 2, mem_mib: 1024, rootfs_mib: 512 },
        components,
        mounts: Seq::empty(),
        volumes: Seq::empty(),
        network: NetworkView {
            mode: NetworkMode::Allowlist,
            allow: Seq::empty(),
            hosts: Seq::empty(),
            ports: Seq::empty(),
        },
        hooks: HooksView {
            on_create: Seq::empty(),
            on_start: Seq::empty(),
            pre_stop: Seq::empty(),
        },
        daemons: Seq::empty(),
        workload: WorkloadView { entrypoint: "/bin/sh"@, args: Seq::empty(), workdir: None },
        sudo: Seq::empty(),
        env: Seq::empty(),
        env_file: None,
    }
}

impl Config {
    /// The defaults of every section, with the memory components get.
    pub fn with_components(components: Components) -> (cfg: Config)
        ensures
            cfg@ == default_config(components),
    {
        let cfg = Config {
            hw: Hw::default(),
            components,
            mounts: Vec::new(),
            volumes: Vec::new(),
            network: Network::default(),
            hooks: Hooks::default(),
            daemons: Vec::new(),
            workload: Workload::default(),
            sudo: Vec::new(),
            env: TextMap::new(),
            env_file: None,
        };
        proof {
            assert(cfg@.mounts =~= Seq::empty());
            assert(cfg@.volumes =~= Seq::empty());
            assert(cfg@.daemons =~= Seq::empty());
            assert(cfg@.sudo =~= Seq::empty());
            assert(cfg@.env =~= Seq::empty());
        }
        cfg
    }
}

fn copy_mounts(list: &Vec<Mount>) -> (copy: Vec<Mount>)
    ensures
        text::views(copy@) == text::views(list@),
{
    let mut copy: Vec<Mount> = Vec::new();
    let mut i: usize = 0;
    while i < list.len()
        invariant
            i <= list@.len(),
            copy@.len() == i,
            forall|j: int| 0 <= j < i ==> (#[trigger] copy@[j])@ == list@[j]@,
        decreases list.len() - i,
    {
        copy.push(
            Mount {
                host: list[i].host.as_str().to_owned(),
                guest: list[i].guest.as_str().to_owned(),
                readonly: list[i].readonly,
            },
        );
        i = i + 1;
    }
    proof {
        assert(text::views(copy@) =~= text::views(list@));
    }
    copy
}

fn copy_volumes(list: &Vec<Volume>) -> (copy: Vec<Volume>)
    ensures
        text::views(copy@) == text::views(list@),
{
    let mut copy: Vec<Volume> = Vec::new();
    let mut i: usize = 0;
    while i < list.len()
        invariant
            i <= list@.len(),
            copy@.len() == i,
            forall|j: int| 0 <= j < i ==> (#[trigger] copy@[j])@ == list@[j]@,
        decreases list.len() - i,
    {
        copy.push(
            Volume {
                name: list[i].name.as_str().to_owned(),
                guest: list[i].guest.as_str().to_owned(),
                size_mib: list[i].size_mib,
            },
        );
        i = i + 1;
    }
    proof {
        assert(text::views(copy@) =~= text::views(list@));
    }
    copy
}

fn copy_hosts(list: &Vec<StaticDnsRecord>) -> (copy: Vec<StaticDnsRecord>)
    ensures
        text::views(copy@) == text::views(list@),
{
    let mut copy: Vec<StaticDnsRecord> = Vec::new();
    let mut i: usize = 0;
    while i < list.len()
        invariant
            i <= list@.len(),
            copy@.len() == i,
            forall|j: int| 0 <= j < i ==> (#[trigger] copy@[j])@ == list@[j]@,
        decreases list.len() - i,
    {
        copy.push(
            StaticDnsRecord {
                name: list[i].name.as_str().to_owned(),
                addr: list[i].addr.as_str().to_owned(),
            },
        );
        i = i + 1;
    }
    proof {
        assert(text::views(copy@) =~= text::views(list@));
    }
    copy
}

impl Config {
    /// A copy of the recipe with other variables in its environment.
    pub fn with_env(&self, env: TextMap<String>) -> (copy: Config)
        ensures
            copy@ == (ConfigView { env: env@, ..self@ }),
    {
        Config {
            hw: self.hw,
            components: self.components,
            mounts: copy_mounts(&self.mounts),
            volumes: copy_volumes(&self.volumes),
            network: Network {
                mode: self.network.mode,
                allow: clone_texts(&self.network.allow),
                hosts: copy_hosts(&self.network.hosts),
                ports: clone_texts(&self.network.ports),
            },
            hooks: Hooks {
                on_create: clone_texts(&self.hooks.on_create),
                on_start: clone_texts(&self.hooks.on_start),
                pre_stop: clone_texts(&self.hooks.pre_stop),
            },
            daemons: clone_texts(&self.daemons),
            workload: Workload {
                entrypoint: self.workload.entrypoint.as_str().to_owned(),
                args: clone_texts(&self.workload.args),
                workdir: clone_optional_text(&self.workload.workdir),
            },
            sudo: clone_texts(&self.sudo),
            env,
            env_file: clone_optional_text(&self.env_file),
        }
    }
}

} // verus!
