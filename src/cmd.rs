use vstd::prelude::*;

verus! {

/// A change to the set of loaded modules that can be staged for confirmation.
#[derive(Clone, Copy, Debug, PartialEq, Eq, Structural)]
pub enum ModuleCommand {
    NoCommand,
    Load,
    Unload,
    Reload,
    Blacklist,
}

/// A shell command line and what it does.
#[derive(Clone, Debug)]
pub struct Command {
    pub cmd: String,
    pub desc: String,
}

/// The shell command line that carries out `c` on the module `name`.
pub open spec fn command_line(c: ModuleCommand, name: Seq<char>) -> Seq<char> {
    match c {
        ModuleCommand::NoCommand => Seq::empty(),
        ModuleCommand::Load => "modprobe "@ + name,
        ModuleCommand::Unload => "modprobe -r "@ + name,
        ModuleCommand::Reload => "modprobe -r "@ + name + " && modprobe "@ + name,
        ModuleCommand::Blacklist => "echo 'blacklist "@ + name
            + "' >> /etc/modprobe.d/blacklist.conf"@,
    }
}

/// What the command `c` does, in words.
pub open spec fn command_desc(c: ModuleCommand) -> Seq<char> {
    match c {
        ModuleCommand::NoCommand => Seq::empty(),
        ModuleCommand::Load => "Insert the module into the kernel."@,
        ModuleCommand::Unload => "Remove the module from the kernel."@,
        ModuleCommand::Reload => "Remove the module from the kernel and insert it again."@,
        ModuleCommand::Blacklist => "Keep the module from being loaded automatically."@,
    }
}

impl ModuleCommand {
    pub fn is_none(&self) -> (r: bool)
        ensures
            r == (*self == ModuleCommand::NoCommand),
    {
        match self {
            ModuleCommand::NoCommand => true,
            _ => false,
        }
    }

    /// The command line and description of this command for the module `name`.
    pub fn get(&self, name: &str) -> (r: Command)
        ensures
            r.cmd@ == command_line(*self, name@),
            r.desc@ == command_desc(*self),
    {
        match self {
            ModuleCommand::NoCommand => Command { cmd: String::new(), desc: String::new() },
            ModuleCommand::Load => {
                let mut cmd = String::from_str("modprobe ");
                cmd.append(name);
                Command { cmd, desc: String::from_str("Insert the module into the kernel.") }
            },
            ModuleCommand::Unload => {
                let mut cmd = String::from_str("modprobe -r ");
                cmd.append(name);
                Command { cmd, desc: String::from_str("Remove the module from the kernel.") }
            },
            ModuleCommand::Reload => {
                let mut cmd = String::from_str("modprobe -r ");
                cmd.append(name);
                cmd.append(" && modprobe ");
                cmd.append(name);
                Command {
                    cmd,
                    desc: String::from_str(
                        "Remove the module from the kernel and insert it again.",
                    ),
                }
            },
            ModuleCommand::Blacklist => {
                let mut cmd = String::from_str("echo 'blacklist ");
                cmd.append(name);
                cmd.append("' >> /etc/modprobe.d/blacklist.conf");
                Command {
                    cmd,
                    desc: String::from_str("Keep the module from being loaded automatically."),
                }
            },
        }
    }
}

} // verus!
