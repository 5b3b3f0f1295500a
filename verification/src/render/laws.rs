//! What the page says that a recipe is approved on.

use crate::config::{ConfigView, DnsView, MountView};
use crate::network;
use crate::ordered;
use crate::render;
use crate::text;
use vstd::prelude::*;

verus! {

/// Whether a text stands somewhere in another.
pub open spec fn shows(page: Seq<char>, part: Seq<char>) -> bool {
    exists|before: Seq<char>, after: Seq<char>| page == #[trigger] (before + part + after)
}

pub proof fn lemma_shows_itself(part: Seq<char>)
    ensures
        shows(part, part),
{
    let none = Seq::<char>::empty();
    assert(part =~= none + part + none);
}

pub proof fn lemma_shows_add(a: Seq<char>, b: Seq<char>, part: Seq<char>)
    ensures
        shows(a, part) ==> shows(a + b, part),
        shows(b, part) ==> shows(a + b, part),
{
    if shows(a, part) {
        let (x, y) = choose|x: Seq<char>, y: Seq<char>| a == #[trigger] (x + part + y);
        assert(a + b =~= x + part + (y + b));
    }
    if shows(b, part) {
        let (x, y) = choose|x: Seq<char>, y: Seq<char>| b == #[trigger] (x + part + y);
        assert(a + b =~= (a + x) + part + y);
    }
}

proof fn lemma_labelled(label: Seq<char>, items: Seq<Seq<char>>, end: Seq<char>, i: int)
    requires
        0 <= i < items.len(),
    ensures
        shows(render::labelled(label, items, end), label + render::printable(items[i]) + end),
    decreases items.len(),
{
    let before = render::labelled(label, items.drop_last(), end);
    let line = label + render::printable(items.last()) + end;
    assert(render::labelled(label, items, end) =~= before + line);
    if i == items.len() - 1 {
        lemma_shows_itself(line);
        lemma_shows_add(before, line, line);
    } else {
        assert(items.drop_last()[i] == items[i]);
        lemma_labelled(label, items.drop_last(), end, i);
        lemma_shows_add(before, line, label + render::printable(items[i]) + end);
    }
}

/// The line of a mount: where it is in the box, where it comes from, and whether
/// the box can write it.
pub open spec fn line_of_mount(mount: MountView) -> Seq<char> {
    "  mount:    "@ + (render::printable(mount.guest) + " <- "@ + render::printable(mount.host)
        + if mount.readonly {
        " (ro)"@
    } else {
        " (rw)"@
    }) + "\n"@
}

proof fn lemma_mounts(mounts: Seq<MountView>, i: int)
    requires
        0 <= i < mounts.len(),
    ensures
        shows(render::mount_lines(mounts), line_of_mount(mounts[i])),
    decreases mounts.len(),
{
    let before = render::mount_lines(mounts.drop_last());
    let line = line_of_mount(mounts.last());
    assert(render::mount_lines(mounts) =~= before + line);
    if i == mounts.len() - 1 {
        lemma_shows_itself(line);
        lemma_shows_add(before, line, line);
    } else {
        assert(mounts.drop_last()[i] == mounts[i]);
        lemma_mounts(mounts.drop_last(), i);
        lemma_shows_add(before, line, line_of_mount(mounts[i]));
    }
}

/// The line of a name that is resolved for the box.
pub open spec fn line_of_host(host: DnsView) -> Seq<char> {
    "  dns:      "@ + render::printable(host.name) + " -> "@ + render::printable(host.addr) + "\n"@
}

proof fn lemma_hosts(hosts: Seq<DnsView>, i: int)
    requires
        0 <= i < hosts.len(),
    ensures
        shows(render::dns_lines(hosts), line_of_host(hosts[i])),
    decreases hosts.len(),
{
    let before = render::dns_lines(hosts.drop_last());
    let line = line_of_host(hosts.last());
    assert(render::dns_lines(hosts) =~= before + line);
    if i == hosts.len() - 1 {
        lemma_shows_itself(line);
        lemma_shows_add(before, line, line);
    } else {
        assert(hosts.drop_last()[i] == hosts[i]);
        lemma_hosts(hosts.drop_last(), i);
        lemma_shows_add(before, line, line_of_host(hosts[i]));
    }
}

/// Whether a part of the page stands on it, given in which of its sections it
/// does.
spec fn in_a_section(cfg: ConfigView, part: Seq<char>) -> bool {
    ||| shows(render::labelled("  allow:    "@, cfg.network.allow, "\n"@), part)
    ||| cfg.mounts.len() > 0 && shows(render::mount_lines(cfg.mounts), part)
    ||| cfg.env_file matches Some(file) && part == "  env_file: "@ + render::printable(file)
        + "\n"@
    ||| shows(
        render::labelled("  publish:  127.0.0.1 -> guest ("@, cfg.network.ports, ")\n"@),
        part,
    )
    ||| shows(render::dns_lines(cfg.network.hosts), part)
    ||| cfg.sudo.len() > 0 && part == "  sudo:     "@ + render::printable(
        text::joined(cfg.sudo, ", "@),
    ) + "\n"@
    ||| shows(render::labelled("  as root:  "@, cfg.hooks.on_create, "\n"@), part)
    ||| shows(render::labelled("  as root:  "@, cfg.hooks.on_start, "\n"@), part)
    ||| shows(render::labelled("  as root:  "@, cfg.hooks.pre_stop, "\n"@), part)
    ||| shows(render::labelled("  daemon:   "@, cfg.daemons, "\n"@), part)
}

proof fn lemma_section(cfg: ConfigView, part: Seq<char>)
    requires
        in_a_section(cfg, part),
    ensures
        shows(render::policy_summary(cfg), part),
{
    let s0 = "  hardware: "@ + text::decimal(cfg.hw.cpus as nat) + " vCPU, "@ + text::decimal(
        cfg.hw.mem_mib as nat,
    ) + " MiB RAM, "@ + text::decimal(cfg.hw.rootfs_mib as nat) + " MiB rootfs\n"@
        + "  components: "@ + text::decimal(cfg.components.memory_mib as nat) + " MiB each\n"@ + (
    match cfg.components.network {
        Some(network) => "  network component: "@ + text::decimal(network.memory_mib as nat)
            + " MiB\n"@,
        None => Seq::empty(),
    }) + "  egress:   "@ + network::posture(cfg.network) + "\n"@;
    let a1 = render::labelled("  allow:    "@, cfg.network.allow, "\n"@);
    let a2 = if cfg.mounts.len() == 0 {
        "  mounts:   none\n"@
    } else {
        render::mount_lines(cfg.mounts)
    };
    let a3 = match cfg.env_file {
        Some(file) => "  env_file: "@ + render::printable(file) + "\n"@,
        None => Seq::empty(),
    };
    let a4 = render::labelled("  publish:  127.0.0.1 -> guest ("@, cfg.network.ports, ")\n"@);
    let a5 = render::dns_lines(cfg.network.hosts);
    let a6 = if cfg.sudo.len() == 0 {
        Seq::empty()
    } else {
        "  sudo:     "@ + render::printable(text::joined(cfg.sudo, ", "@)) + "\n"@
    };
    let a7 = render::labelled("  as root:  "@, cfg.hooks.on_create, "\n"@);
    let a8 = render::labelled("  as root:  "@, cfg.hooks.on_start, "\n"@);
    let a9 = render::labelled("  as root:  "@, cfg.hooks.pre_stop, "\n"@);
    let b0 = render::labelled("  daemon:   "@, cfg.daemons, "\n"@);
    let b1 = "  workload: "@;
    let b2 = render::workload_line(cfg);
    let s1 = s0 + a1;
    let s2 = s1 + a2;
    let s3 = s2 + a3;
    let s4 = s3 + a4;
    let s5 = s4 + a5;
    let s6 = s5 + a6;
    let s7 = s6 + a7;
    let s8 = s7 + a8;
    let s9 = s8 + a9;
    let t0 = s9 + b0;
    let t1 = t0 + b1;
    assert(render::policy_summary(cfg) == t1 + b2);
    lemma_shows_itself(part);
    lemma_shows_add(s0, a1, part);
    lemma_shows_add(s1, a2, part);
    lemma_shows_add(s2, a3, part);
    lemma_shows_add(s3, a4, part);
    lemma_shows_add(s4, a5, part);
    lemma_shows_add(s5, a6, part);
    lemma_shows_add(s6, a7, part);
    lemma_shows_add(s7, a8, part);
    lemma_shows_add(s8, a9, part);
    lemma_shows_add(s9, b0, part);
    lemma_shows_add(t0, b1, part);
    lemma_shows_add(t1, b2, part);
}

/// Whoever approves a recipe is shown every directory it shares: where it is in the
/// box, where it comes from, and whether the box can write it.
pub proof fn every_mount_is_on_the_page(cfg: ConfigView, i: int)
    requires
        0 <= i < cfg.mounts.len(),
    ensures
        shows(render::policy_summary(cfg), line_of_mount(cfg.mounts[i])),
{
    lemma_mounts(cfg.mounts, i);
    lemma_section(cfg, line_of_mount(cfg.mounts[i]));
}

/// Whoever approves a recipe is shown everything the box may reach and every port
/// it is reached at: each rule, each name that is resolved, each published port.
pub proof fn every_way_in_and_out_is_on_the_page(cfg: ConfigView, i: int)
    ensures
        0 <= i < cfg.network.allow.len() ==> shows(
            render::policy_summary(cfg),
            "  allow:    "@ + render::printable(cfg.network.allow[i]) + "\n"@,
        ),
        0 <= i < cfg.network.ports.len() ==> shows(
            render::policy_summary(cfg),
            "  publish:  127.0.0.1 -> guest ("@ + render::printable(cfg.network.ports[i]) + ")\n"@,
        ),
        0 <= i < cfg.network.hosts.len() ==> shows(
            render::policy_summary(cfg),
            line_of_host(cfg.network.hosts[i]),
        ),
{
    if 0 <= i < cfg.network.allow.len() {
        lemma_labelled("  allow:    "@, cfg.network.allow, "\n"@, i);
        lemma_section(cfg, "  allow:    "@ + render::printable(cfg.network.allow[i]) + "\n"@);
    }
    if 0 <= i < cfg.network.ports.len() {
        lemma_labelled("  publish:  127.0.0.1 -> guest ("@, cfg.network.ports, ")\n"@, i);
        lemma_section(
            cfg,
            "  publish:  127.0.0.1 -> guest ("@ + render::printable(cfg.network.ports[i]) + ")\n"@,
        );
    }
    if 0 <= i < cfg.network.hosts.len() {
        lemma_hosts(cfg.network.hosts, i);
        lemma_section(cfg, line_of_host(cfg.network.hosts[i]));
    }
}

/// Whoever approves a recipe is shown every command it runs as root or lets the box
/// run as root, every daemon, and where its variables come from.
pub proof fn everything_that_runs_as_root_is_on_the_page(cfg: ConfigView, i: int)
    ensures
        0 <= i < cfg.hooks.on_create.len() ==> shows(
            render::policy_summary(cfg),
            "  as root:  "@ + render::printable(cfg.hooks.on_create[i]) + "\n"@,
        ),
        0 <= i < cfg.hooks.on_start.len() ==> shows(
            render::policy_summary(cfg),
            "  as root:  "@ + render::printable(cfg.hooks.on_start[i]) + "\n"@,
        ),
        0 <= i < cfg.hooks.pre_stop.len() ==> shows(
            render::policy_summary(cfg),
            "  as root:  "@ + render::printable(cfg.hooks.pre_stop[i]) + "\n"@,
        ),
        0 <= i < cfg.daemons.len() ==> shows(
            render::policy_summary(cfg),
            "  daemon:   "@ + render::printable(cfg.daemons[i]) + "\n"@,
        ),
        cfg.sudo.len() > 0 ==> shows(
            render::policy_summary(cfg),
            "  sudo:     "@ + render::printable(text::joined(cfg.sudo, ", "@)) + "\n"@,
        ),
        cfg.env_file matches Some(file) ==> shows(
            render::policy_summary(cfg),
            "  env_file: "@ + render::printable(file) + "\n"@,
        ),
{
    let root = "  as root:  "@;
    if 0 <= i < cfg.hooks.on_create.len() {
        lemma_labelled(root, cfg.hooks.on_create, "\n"@, i);
        lemma_section(cfg, root + render::printable(cfg.hooks.on_create[i]) + "\n"@);
    }
    if 0 <= i < cfg.hooks.on_start.len() {
        lemma_labelled(root, cfg.hooks.on_start, "\n"@, i);
        lemma_section(cfg, root + render::printable(cfg.hooks.on_start[i]) + "\n"@);
    }
    if 0 <= i < cfg.hooks.pre_stop.len() {
        lemma_labelled(root, cfg.hooks.pre_stop, "\n"@, i);
        lemma_section(cfg, root + render::printable(cfg.hooks.pre_stop[i]) + "\n"@);
    }
    if 0 <= i < cfg.daemons.len() {
        lemma_labelled("  daemon:   "@, cfg.daemons, "\n"@, i);
        lemma_section(cfg, "  daemon:   "@ + render::printable(cfg.daemons[i]) + "\n"@);
    }
    if cfg.sudo.len() > 0 {
        lemma_section(
            cfg,
            "  sudo:     "@ + render::printable(text::joined(cfg.sudo, ", "@)) + "\n"@,
        );
    }
    if let Some(file) = cfg.env_file {
        lemma_section(cfg, "  env_file: "@ + render::printable(file) + "\n"@);
    }
}

/// Whether a text begins with another.
pub open spec fn leads(page: Seq<char>, part: Seq<char>) -> bool {
    exists|after: Seq<char>| page == #[trigger] (part + after)
}

pub proof fn lemma_leads_add(a: Seq<char>, b: Seq<char>, part: Seq<char>)
    requires
        leads(a, part),
    ensures
        leads(a + b, part),
{
    let x = choose|x: Seq<char>| a == #[trigger] (part + x);
    assert(a + b =~= part + (x + b));
}

/// The page begins with the machine the recipe asks for: its processors, its
/// memory and its root image.
pub proof fn the_page_begins_with_the_machine(cfg: ConfigView)
    ensures
        leads(
            render::policy_summary(cfg),
            "  hardware: "@ + text::decimal(cfg.hw.cpus as nat) + " vCPU, "@ + text::decimal(
                cfg.hw.mem_mib as nat,
            ) + " MiB RAM, "@ + text::decimal(cfg.hw.rootfs_mib as nat) + " MiB rootfs\n"@,
        ),
{
    let machine = "  hardware: "@ + text::decimal(cfg.hw.cpus as nat) + " vCPU, "@ + text::decimal(
        cfg.hw.mem_mib as nat,
    ) + " MiB RAM, "@ + text::decimal(cfg.hw.rootfs_mib as nat) + " MiB rootfs\n"@;
    let p1 = "  components: "@;
    let p2 = text::decimal(cfg.components.memory_mib as nat);
    let p3 = " MiB each\n"@;
    let p4 = match cfg.components.network {
        Some(network) => "  network component: "@ + text::decimal(network.memory_mib as nat)
            + " MiB\n"@,
        None => Seq::empty(),
    };
    let p5 = "  egress:   "@;
    let p6 = network::posture(cfg.network);
    let p7 = "\n"@;
    let p8 = render::labelled("  allow:    "@, cfg.network.allow, "\n"@);
    let p9 = if cfg.mounts.len() == 0 {
        "  mounts:   none\n"@
    } else {
        render::mount_lines(cfg.mounts)
    };
    let q0 = match cfg.env_file {
        Some(file) => "  env_file: "@ + render::printable(file) + "\n"@,
        None => Seq::empty(),
    };
    let q1 = render::labelled("  publish:  127.0.0.1 -> guest ("@, cfg.network.ports, ")\n"@);
    let q2 = render::dns_lines(cfg.network.hosts);
    let q3 = if cfg.sudo.len() == 0 {
        Seq::empty()
    } else {
        "  sudo:     "@ + render::printable(text::joined(cfg.sudo, ", "@)) + "\n"@
    };
    let q4 = render::labelled("  as root:  "@, cfg.hooks.on_create, "\n"@);
    let q5 = render::labelled("  as root:  "@, cfg.hooks.on_start, "\n"@);
    let q6 = render::labelled("  as root:  "@, cfg.hooks.pre_stop, "\n"@);
    let q7 = render::labelled("  daemon:   "@, cfg.daemons, "\n"@);
    let q8 = "  workload: "@;
    let q9 = render::workload_line(cfg);
    let m1 = machine + p1;
    let m2 = m1 + p2;
    let m3 = m2 + p3;
    let m4 = m3 + p4;
    let m5 = m4 + p5;
    let m6 = m5 + p6;
    let m7 = m6 + p7;
    let m8 = m7 + p8;
    let m9 = m8 + p9;
    let n0 = m9 + q0;
    let n1 = n0 + q1;
    let n2 = n1 + q2;
    let n3 = n2 + q3;
    let n4 = n3 + q4;
    let n5 = n4 + q5;
    let n6 = n5 + q6;
    let n7 = n6 + q7;
    let n8 = n7 + q8;
    assert(render::policy_summary(cfg) == n8 + q9);
    assert(machine =~= machine + Seq::<char>::empty());
    assert(leads(machine, machine));
    lemma_leads_add(machine, p1, machine);
    lemma_leads_add(m1, p2, machine);
    lemma_leads_add(m2, p3, machine);
    lemma_leads_add(m3, p4, machine);
    lemma_leads_add(m4, p5, machine);
    lemma_leads_add(m5, p6, machine);
    lemma_leads_add(m6, p7, machine);
    lemma_leads_add(m7, p8, machine);
    lemma_leads_add(m8, p9, machine);
    lemma_leads_add(m9, q0, machine);
    lemma_leads_add(n0, q1, machine);
    lemma_leads_add(n1, q2, machine);
    lemma_leads_add(n2, q3, machine);
    lemma_leads_add(n3, q4, machine);
    lemma_leads_add(n4, q5, machine);
    lemma_leads_add(n5, q6, machine);
    lemma_leads_add(n6, q7, machine);
    lemma_leads_add(n7, q8, machine);
    lemma_leads_add(n8, q9, machine);
}

/// The page shows what is reachable at all and what runs in the box: the program
/// first, and its arguments in their order.
pub proof fn what_runs_is_on_the_page(cfg: ConfigView)
    ensures
        shows(render::policy_summary(cfg), render::workload_line(cfg)),
        cfg.workload.args.len() == 0 ==> render::workload_line(cfg) == render::printable(
            cfg.workload.entrypoint,
        ),
        cfg.workload.args.len() > 0 ==> render::spaced(cfg.workload.args) == render::spaced(
            cfg.workload.args.drop_last(),
        ) + seq![' '] + render::printable(cfg.workload.args.last()),
{
    let line = render::workload_line(cfg);
    lemma_shows_itself(line);
    if cfg.workload.args.len() == 0 {
        assert(line =~= render::printable(cfg.workload.entrypoint));
    } else {
        let fewer = render::spaced(cfg.workload.args.drop_last());
        assert(render::spaced(cfg.workload.args) =~= fewer + seq![' '] + render::printable(
            cfg.workload.args.last(),
        ));
    }
    lemma_page_ends(cfg);
}

proof fn lemma_page_ends(cfg: ConfigView)
    ensures
        exists|before: Seq<char>|
            render::policy_summary(cfg) == #[trigger] (before + render::workload_line(cfg)),
        shows(render::policy_summary(cfg), render::workload_line(cfg)),
{
    let page = render::policy_summary(cfg);
    let line = render::workload_line(cfg);
    let none = Seq::<char>::empty();
    let before = choose|before: Seq<char>| page == #[trigger] (before + line);
    assert(page =~= before + line + none);
}

/// Redacting keeps the name of every variable, in its order, and replaces its
/// value.
pub proof fn redacting_keeps_the_names(env: Seq<(Seq<char>, Seq<char>)>, shown: Seq<char>)
    ensures
        ordered::with_every_value(env, shown).len() == env.len(),
        forall|i: int|
            0 <= i < env.len() ==> (#[trigger] ordered::with_every_value(env, shown)[i]).0 == env[i].0
                && ordered::with_every_value(env, shown)[i].1 == shown,
{
}

} // verus!
