use vstd::prelude::*;
use vstd::string::StringSliceAdditionalSpecFns;

verus! {

/// The solver phases at which the worker may pause for the user.
#[derive(Debug, Clone, Copy, PartialEq, Eq, Structural)]
pub enum CommandFlag {
    AstarFrontierOrUpdatePosterior,
    AstarInOut,
    UpdatePosteriorResult,
    ProbaModelResult,
    Auto,
}

/// Highest command level that the user can set.
pub const MAX_COMMAND_LEVEL: u8 = 3;

pub open spec fn flag_level(f: CommandFlag) -> u8 {
    match f {
        CommandFlag::AstarFrontierOrUpdatePosterior => 0,
        CommandFlag::AstarInOut => 1,
        CommandFlag::UpdatePosteriorResult => 2,
        CommandFlag::ProbaModelResult => 3,
        CommandFlag::Auto => 4,
    }
}

impl CommandFlag {
    /// The command level up to which the worker blocks at this phase.
    pub fn get_level(&self) -> (r: u8)
        ensures
            r == flag_level(*self),
    {
        match self {
            CommandFlag::AstarFrontierOrUpdatePosterior => 0,
            CommandFlag::AstarInOut => 1,
            CommandFlag::UpdatePosteriorResult => 2,
            CommandFlag::ProbaModelResult => 3,
            CommandFlag::Auto => 4,
        }
    }
}

/// A command typed by the user.
#[derive(Debug, Clone, Copy, PartialEq, Eq, Structural)]
pub enum Command {
    /// An empty line: release every waiting phase.
    ProceedAll,
    /// `i`: one level less.
    Decrease,
    /// `o`: one level more.
    Increase,
    Unknown,
}

/// Reads a trimmed input line as a command.
pub fn parse_command(token: &str) -> (r: Command)
    ensures
        r == (if token.spec_bytes().len() == 0 {
            Command::ProceedAll
        } else if token.spec_bytes() == seq![105u8] {
            Command::Decrease
        } else if token.spec_bytes() == seq![111u8] {
            Command::Increase
        } else {
            Command::Unknown
        }),
{
    let b = token.as_bytes();
    if b.len() == 0 {
        Command::ProceedAll
    } else if b.len() == 1 && b[0] == 105u8 {
        assert(b@ =~= seq![105u8]);
        Command::Decrease
    } else if b.len() == 1 && b[0] == 111u8 {
        assert(b@ =~= seq![111u8]);
        Command::Increase
    } else {
        Command::Unknown
    }
}

/// What a command does: the new command level (kept within
/// `0..=MAX_COMMAND_LEVEL`) and whether every waiting phase is to be released.
pub fn apply_command(level: u8, command: Command) -> (r: (u8, bool))
    ensures
        r.0 == (match command {
            Command::Decrease => if level == 0 { 0 } else if level > MAX_COMMAND_LEVEL { MAX_COMMAND_LEVEL } else { (level - 1) as u8 },
            Command::Increase => if level >= MAX_COMMAND_LEVEL { MAX_COMMAND_LEVEL } else { (level + 1) as u8 },
            _ => level,
        }),
        r.1 == (command == Command::ProceedAll),
{
    match command {
        Command::ProceedAll => (level, true),
        Command::Decrease => {
            if level == 0 {
                (0, false)
            } else if level > MAX_COMMAND_LEVEL {
                (MAX_COMMAND_LEVEL, false)
            } else {
                (level - 1, false)
            }
        },
        Command::Increase => {
            if level >= MAX_COMMAND_LEVEL {
                (MAX_COMMAND_LEVEL, false)
            } else {
                (level + 1, false)
            }
        },
        Command::Unknown => (level, false),
    }
}

/// Whether the worker waits at phase `flag` under command level `level`.
pub fn should_block(level: u8, flag: CommandFlag) -> (r: bool)
    ensures
        r == (level <= flag_level(flag)),
{
    level <= flag.get_level()
}

} // verus!
