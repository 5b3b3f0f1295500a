//! The command line once it is parsed, and the rules on it that no single
//! option can state.

use crate::error::{self, Error, Refusal};
use crate::host::HostOs;
use crate::resolve::{self, BoxArg};
use vstd::prelude::*;

verus! {

/// `terra [BOX]` with or without a verb.
#[derive(Debug)]
pub struct Cli {
    /// Box name. Default: this directory's only box.
    pub name: Option<String>,
    pub cmd: Option<Cmd>,
    pub boot: BootArgs,
    /// The project directory whose boxes to address (default: the current one).
    pub project: Option<String>,
}

/// One operation on a box, or on the directory's boxes.
#[derive(Debug)]
pub enum Cmd {
    Setup(SetupArgs),
    Exec(ExecArgs),
    Put(CopyArgs),
    Get(CopyArgs),
    Logs(LogsArgs),
    Sessions(SessionsArgs),
    Detach(DetachArgs),
    Show(ShowArgs),
    Ls(LsArgs),
    Stop(StopArgs),
    Storage(StorageArgs),
    Rm(RmArgs),
}

#[derive(Debug)]
pub struct SetupArgs {
    /// Pin the recipe without asking, even when a guest could have written it.
    pub trust_recipe: bool,
    /// Rebuild the guest filesystem from scratch.
    pub rebuild: bool,
    /// Run every refusal and change nothing.
    pub dry_run: bool,
}

#[derive(Debug)]
pub struct ShowArgs {
    /// Print the `env:` values too, instead of a placeholder.
    pub with_env_values: bool,
}

#[derive(Debug)]
pub struct ExecArgs {
    /// Run as root instead of the workload's own user.
    pub root: bool,
    /// Give the command a terminal even when there is none here.
    pub tty: bool,
    /// Give the command pipes even at a terminal.
    pub no_tty: bool,
    pub agent: AgentTimeoutArg,
    pub command: Vec<String>,
}

#[derive(Debug)]
pub struct CopyArgs {
    pub src: String,
    pub dst: String,
    pub agent: AgentTimeoutArg,
}

/// How long to wait for the agent of a box, in seconds; without it, for as
/// long as the box is running.
#[derive(Debug)]
pub struct AgentTimeoutArg {
    pub agent_timeout: Option<u64>,
}

#[derive(Debug)]
pub struct StopArgs {
    /// How long to wait in seconds for the guest to shut down.
    pub wait: u64,
}

#[derive(Debug)]
pub struct RmArgs {
    /// Remove the recipe too.
    pub purge: bool,
    /// Remove it even while a VM is running.
    pub force: bool,
    /// How long to wait in seconds for a graceful stop.
    pub wait: u64,
}

#[derive(Debug)]
pub struct StorageArgs {
    pub cmd: StorageCmd,
}

#[derive(Debug)]
pub enum StorageCmd {
    Show,
    Export(StorageFileArgs),
    Import(StorageFileArgs),
    Prune,
}

#[derive(Debug)]
pub struct StorageFileArgs {
    /// The artifact's path on the host.
    pub file: String,
}

#[derive(Debug)]
pub struct LsArgs {
    /// Every box on this machine instead.
    pub all: bool,
    /// One box per line, separated by tabs.
    pub tsv: bool,
}

#[derive(Debug)]
pub struct LogsArgs {
    /// Follow the log as it grows.
    pub follow: bool,
    /// Show guest VM diagnostics instead of the host log.
    pub diagnostics: bool,
}

#[derive(Debug)]
pub struct SessionsArgs {
    pub agent: AgentTimeoutArg,
}

#[derive(Debug)]
pub struct DetachArgs {
    /// The client to detach.
    pub id: Option<u64>,
    /// Detach every attached client instead of one by id.
    pub all: bool,
    pub agent: AgentTimeoutArg,
}

/// What shapes a boot.
#[derive(Debug)]
pub struct BootArgs {
    /// Run the workload as root.
    pub root: bool,
    /// Run headless in the background.
    pub detach: bool,
    /// Run the VM in this process.
    pub foreground: bool,
    pub agent: AgentTimeoutArg,
    /// The command to run instead of the recipe's workload.
    pub command: Vec<String>,
}

/// How a verb is spelled.
pub open spec fn verb_of(cmd: Cmd) -> Seq<char> {
    match cmd {
        Cmd::Setup(_) => "setup"@,
        Cmd::Exec(_) => "exec"@,
        Cmd::Put(_) => "put"@,
        Cmd::Get(_) => "get"@,
        Cmd::Logs(_) => "logs"@,
        Cmd::Sessions(_) => "sessions"@,
        Cmd::Detach(_) => "detach"@,
        Cmd::Show(_) => "show"@,
        Cmd::Ls(_) => "ls"@,
        Cmd::Stop(_) => "stop"@,
        Cmd::Storage(_) => "storage"@,
        Cmd::Rm(_) => "rm"@,
    }
}

/// No verb names a box, so `terra <word>` never means two things.
pub proof fn verbs_name_no_box(cmd: Cmd)
    ensures
        crate::name::box_name(verb_of(cmd)) is Err,
{
}

impl Cmd {
    pub fn verb(&self) -> (word: &'static str)
        ensures
            word@ == verb_of(*self),
    {
        match self {
            Cmd::Setup(_) => "setup",
            Cmd::Exec(_) => "exec",
            Cmd::Put(_) => "put",
            Cmd::Get(_) => "get",
            Cmd::Logs(_) => "logs",
            Cmd::Sessions(_) => "sessions",
            Cmd::Detach(_) => "detach",
            Cmd::Show(_) => "show",
            Cmd::Ls(_) => "ls",
            Cmd::Stop(_) => "stop",
            Cmd::Storage(_) => "storage",
            Cmd::Rm(_) => "rm",
        }
    }

    /// Whether `terra <box> <verb>` means anything for this verb.
    pub fn takes_the_box(&self) -> (yes: bool)
        ensures
            yes == !(*self is Ls),
    {
        match self {
            Cmd::Ls(_) => false,
            _ => true,
        }
    }
}

/// What is held against a command line.
pub open spec fn command_verdict(cli: Cli) -> Result<(), Refusal> {
    match cli.cmd {
        None => Ok(()),
        Some(cmd) => {
            let verb = verb_of(cmd);
            let box_name = match cli.name {
                Some(name) => name@,
                None => "<box>"@,
            };
            let hint = if cmd is Ls {
                "or run `terra ls` without a box"@
            } else {
                "or run the box first (`terra "@ + box_name + " -d`) and then `terra "@ + box_name
                    + " "@ + verb + "`"@
            };
            if shapes_a_boot(cli.boot) {
                Err(
                    error::refusal(
                        "the boot flags shape a boot, and `"@ + verb
                            + "` is not one - drop them, "@ + hint,
                    ),
                )
            } else if cmd is Ls && cli.name is Some {
                Err(
                    error::refusal(
                        "`"@ + verb + "` takes no box before it - write `terra "@ + verb + "`"@,
                    ),
                )
            } else {
                Ok(())
            }
        },
    }
}

/// Whether a command that is run in a box gets a terminal.
pub open spec fn gets_a_terminal(args: ExecArgs, is_at_a_terminal: bool) -> bool {
    (is_at_a_terminal || args.tty) && !args.no_tty
}

/// Whether anything was asked for that only a boot can do.
pub open spec fn shapes_a_boot(boot: BootArgs) -> bool {
    boot.root || boot.detach || boot.foreground || boot.agent.agent_timeout is Some
        || boot.command@.len() > 0
}

impl Cli {
    pub fn has_boot_flags(&self) -> (yes: bool)
        ensures
            yes == shapes_a_boot(self.boot),
    {
        self.boot.root || self.boot.detach || self.boot.foreground
            || self.boot.agent.agent_timeout.is_some() || self.boot.command.len() > 0
    }

    /// Refuses what would be dropped silently: boot flags beside a verb, and a
    /// box before a verb that takes none.
    pub fn validate(&self) -> (verdict: Result<(), Error>)
        ensures
            error::outcome(verdict) == command_verdict(*self),
    {
        let cmd = match &self.cmd {
            Some(cmd) => cmd,
            None => {
                return Ok(());
            },
        };
        let verb = cmd.verb();
        if self.has_boot_flags() {
            let mut message: String = "the boot flags shape a boot, and `".to_owned();
            message.append(verb);
            message.append("` is not one - drop them, ");
            let mut hint: String = "or run `terra ls` without a box".to_owned();
            if cmd.takes_the_box() {
                let box_name: &str = match &self.name {
                    Some(name) => name.as_str(),
                    None => "<box>",
                };
                hint = "or run the box first (`terra ".to_owned();
                hint.append(box_name);
                hint.append(" -d`) and then `terra ");
                hint.append(box_name);
                hint.append(" ");
                hint.append(verb);
                hint.append("`");
            }
            message.append(hint.as_str());
            return Err(Error::new(message));
        }
        if !cmd.takes_the_box() && self.name.is_some() {
            let mut message: String = "`".to_owned();
            message.append(verb);
            message.append("` takes no box before it - write `terra ");
            message.append(verb);
            message.append("`");
            return Err(Error::new(message));
        }
        Ok(())
    }
}

impl ExecArgs {
    /// Whether the command gets a terminal: as terra itself has one, unless a
    /// flag says otherwise.
    pub fn wants_a_terminal(&self, is_at_a_terminal: bool) -> (yes: bool)
        ensures
            yes == gets_a_terminal(*self, is_at_a_terminal),
    {
        (is_at_a_terminal || self.tty) && !self.no_tty
    }
}

/// The box-first spelling of a verb-first command line like `terra stop dev`,
/// where that is all that is wrong with it: two words, the second of which a
/// box could be called. `bare` is the first as a command line of its own, and
/// how many words the verb takes; `None` where that is no command line.
pub fn build_reversal_hint(typed: &Vec<String>, bare: &Option<(Cmd, usize)>, os: HostOs) -> (
    hint: Option<String>)
    ensures
        ({
            let fits = typed@.len() == 2 && resolve::box_arg(typed@[1]@, os) is Ok && bare is Some
                && !((bare->0).0 is Ls) && (bare->0).1 == 0;
            match hint {
                Some(text) => fits && text@ == "terra: the box comes before the verb - `terra "@
                    + typed@[1]@ + " "@ + typed@[0]@ + "`"@,
                None => !fits,
            }
        }),
{
    if typed.len() != 2 {
        return None;
    }
    let verb = typed[0].as_str();
    let name = typed[1].as_str();
    match BoxArg::parse(name, os) {
        Ok(_) => {},
        Err(_) => {
            return None;
        },
    }
    match bare {
        Some((cmd, positionals)) => {
            if !cmd.takes_the_box() || *positionals != 0 {
                return None;
            }
        },
        None => {
            return None;
        },
    }
    let mut hint: String = "terra: the box comes before the verb - `terra ".to_owned();
    hint.append(name);
    hint.append(" ");
    hint.append(verb);
    hint.append("`");
    Some(hint)
}

} // verus!
