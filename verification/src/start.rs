//! `terra [BOX]`: what one invocation of the bare form does about its box.

use crate::cli::BootArgs;
use crate::error::{self, Error, Refusal, refuse};
use crate::state::{self, BoxRef, BoxView, Holder};
use vstd::prelude::*;

verus! {

/// The exit code of a start that found the box running and could neither start
/// nor attach.
pub const EXIT_VM_ALREADY_RUNNING: u8 = 125;

/// What one invocation does about the box it names.
#[derive(Debug, Clone, Copy, PartialEq, Eq, Structural)]
pub enum StartPlan {
    Boot,
    Attach,
    AlreadyRunning,
    NothingToDo,
}

/// What a start does, going by who holds the box, what was asked for and
/// whether there is a terminal.
pub open spec fn start_plan(
    bx: BoxView,
    holder: Holder,
    args: BootArgs,
    is_at_a_terminal: bool,
) -> Result<StartPlan, Refusal> {
    match holder {
        Holder::Free => Ok(StartPlan::Boot),
        Holder::SettingUp => Err(state::being_set_up(bx)),
        Holder::Running => if args.command@.len() > 0 || args.root {
            let asked = if args.command@.len() == 0 {
                "as root"@
            } else {
                "a command of its own"@
            };
            let root = if args.root {
                " --root"@
            } else {
                Seq::empty()
            };
            Err(
                error::refusal(
                    state::shown(bx) + " is already running, so it cannot be started with "@ + asked
                        + " - `terra exec "@ + bx.name + root
                        + " -- …` runs one in it, or `terra stop "@ + bx.name
                        + "` first to boot it differently"@,
                ),
            )
        } else if args.foreground {
            Err(
                error::refusal(
                    state::shown(bx)
                        + " is already running, so there is no VM to run in this process - `terra stop "@
                        + bx.name
                        + "` first to run it here, or leave --foreground off to attach to the one that is up"@,
                ),
            )
        } else if args.detach {
            Ok(StartPlan::AlreadyRunning)
        } else if !is_at_a_terminal {
            Ok(StartPlan::NothingToDo)
        } else {
            Ok(StartPlan::Attach)
        },
    }
}

pub fn build_start_plan(bx: &BoxRef, holder: Holder, args: &BootArgs, is_at_a_terminal: bool) -> (
    plan: Result<StartPlan, Error>)
    ensures
        crate::error::outcome(plan) == start_plan(bx@, holder, *args, is_at_a_terminal),
{
    match holder {
        Holder::Free => {
            return Ok(StartPlan::Boot);
        },
        Holder::SettingUp => {
            return Err(bx.setup_holds_it());
        },
        Holder::Running => {},
    }
    if args.command.len() > 0 || args.root {
        let mut message: String = bx.describe();
        message.append(" is already running, so it cannot be started with ");
        if args.command.len() == 0 {
            message.append("as root");
        } else {
            message.append("a command of its own");
        }
        message.append(" - `terra exec ");
        message.append(bx.name());
        let ghost before = message@;
        if args.root {
            message.append(" --root");
        } else {
            proof {
                assert(before + Seq::empty() =~= before);
            }
        }
        message.append(" -- …` runs one in it, or `terra stop ");
        message.append(bx.name());
        message.append("` first to boot it differently");
        return Err(Error::new(message));
    }
    if args.foreground {
        let mut message: String = bx.describe();
        message.append(
            " is already running, so there is no VM to run in this process - `terra stop ",
        );
        message.append(bx.name());
        message.append(
            "` first to run it here, or leave --foreground off to attach to the one that is up",
        );
        return Err(Error::new(message));
    }
    if args.detach {
        return Ok(StartPlan::AlreadyRunning);
    }
    if !is_at_a_terminal {
        return Ok(StartPlan::NothingToDo);
    }
    Ok(StartPlan::Attach)
}

/// A start boots exactly where nobody holds the box: a second VM is never put
/// on the images of the first.
pub proof fn only_free_boxes_boot(
    bx: BoxView,
    holder: Holder,
    args: BootArgs,
    is_at_a_terminal: bool,
)
    ensures
        start_plan(bx, holder, args, is_at_a_terminal) == Ok::<StartPlan, Refusal>(StartPlan::Boot)
            <==> holder == Holder::Free,
{
}

/// How the VM of a box runs.
#[derive(Debug, Clone, Copy, PartialEq, Eq, Structural)]
pub enum BootMode {
    Detached,
    Foreground,
    /// In the background, with this terminal as its first client.
    DetachedWithJoin,
}

/// How a box that is free is run.
pub open spec fn boot_mode(args: BootArgs, is_at_a_terminal: bool) -> Result<BootMode, Refusal> {
    if args.detach {
        Ok(BootMode::Detached)
    } else if args.foreground {
        Ok(BootMode::Foreground)
    } else if is_at_a_terminal {
        Ok(BootMode::DetachedWithJoin)
    } else {
        Err(
            error::refusal(
                "no terminal to join - say which way to run the box: `-d` boots it in the background, `--foreground` runs the VM in this process (for a service manager)"@,
            ),
        )
    }
}

/// What terra exits with.
pub open spec fn status_of(plan: StartPlan) -> u8 {
    if plan == StartPlan::NothingToDo {
        EXIT_VM_ALREADY_RUNNING
    } else {
        0
    }
}

/// Whether so many hooks have to run before a box boots.
pub open spec fn is_baked_first(hooks: nat, fresh_rootfs: bool, has_stamp: bool) -> bool {
    hooks > 0 && (fresh_rootfs || !has_stamp)
}

pub fn choose_boot_mode(args: &BootArgs, is_at_a_terminal: bool) -> (mode: Result<BootMode, Error>)
    ensures
        crate::error::outcome(mode) == boot_mode(*args, is_at_a_terminal),
{
    if args.detach {
        return Ok(BootMode::Detached);
    }
    if args.foreground {
        return Ok(BootMode::Foreground);
    }
    if is_at_a_terminal {
        return Ok(BootMode::DetachedWithJoin);
    }
    Err(
        refuse(
            "no terminal to join - say which way to run the box: `-d` boots it in the background, `--foreground` runs the VM in this process (for a service manager)",
        ),
    )
}

/// The exit code of a start that does not boot.
pub fn exit_code(plan: StartPlan) -> (code: u8)
    ensures
        code == status_of(plan),
{
    if plan == StartPlan::NothingToDo {
        EXIT_VM_ALREADY_RUNNING
    } else {
        0
    }
}

/// Whether the hooks that make a box have to run before it boots: there are
/// some, and the root has not been through them.
pub fn needs_bake(on_create: &Vec<String>, fresh_rootfs: bool, has_stamp: bool) -> (yes: bool)
    ensures
        yes == is_baked_first(on_create@.len(), fresh_rootfs, has_stamp),
{
    on_create.len() > 0 && (fresh_rootfs || !has_stamp)
}

} // verus!
