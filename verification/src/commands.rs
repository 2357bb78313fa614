//! Commands and responses exchanged between the fleet's services.
use vstd::prelude::*;

verus! {

/// Outcome of a command at the firmware.
#[derive(Debug, Clone, PartialEq)]
pub enum CommandStatus {
    /// Command accepted and executing.
    Accepted,
    /// Command rejected, with a reason.
    Rejected { reason: String },
}

/// Response from the firmware after applying a command.
#[derive(Debug, Clone)]
pub struct CommandResponse {
    pub cmd_id: u64,
    pub robot_id: u32,
    pub status: CommandStatus,
}

impl CommandResponse {
    /// A response accepting command `cmd_id` of robot `robot_id`.
    pub fn accepted(cmd_id: u64, robot_id: u32) -> (r: CommandResponse)
        ensures
            r.cmd_id == cmd_id,
            r.robot_id == robot_id,
            r.status is Accepted,
    {
        CommandResponse { cmd_id, robot_id, status: CommandStatus::Accepted }
    }

    /// A response rejecting command `cmd_id` of robot `robot_id` for
    /// `reason`.
    pub fn rejected(cmd_id: u64, robot_id: u32, reason: String) -> (r: CommandResponse)
        ensures
            r.cmd_id == cmd_id,
            r.robot_id == robot_id,
            r.status matches CommandStatus::Rejected { reason: rr } && rr@ == reason@,
    {
        CommandResponse { cmd_id, robot_id, status: CommandStatus::Rejected { reason } }
    }
}

/// Control of a single robot (orchestrator to firmware).
#[derive(Debug, Clone, Copy, PartialEq, Eq, Structural)]
pub enum RobotControl {
    /// Disable a robot: it stops publishing updates and ignores commands.
    Down(u32),
    /// Enable a disabled robot.
    Up(u32),
    /// Restart a robot at its station.
    Restart(u32),
}

impl RobotControl {
    /// The robot this control command is for.
    pub fn id(&self) -> (id: u32)
        ensures
            id == match *self {
                RobotControl::Down(i) => i,
                RobotControl::Up(i) => i,
                RobotControl::Restart(i) => i,
            },
    {
        match self {
            RobotControl::Down(id) | RobotControl::Up(id) | RobotControl::Restart(id) => *id,
        }
    }
}

/// A command for every service of the fleet (orchestrator to all).
#[derive(Debug, Clone, Copy, PartialEq, Eq, Structural)]
pub enum SystemCommand {
    Pause,
    Resume,
    /// Set verbose mode everywhere.
    Verbose(bool),
    /// Switch fault injection on or off.
    Chaos(bool),
    /// Set the simulation's time scale, in thousandths (1000 is real time).
    SetTimeScale(u32),
}

/// What applying a system command changed.
#[derive(Debug, Clone, Copy, PartialEq, Eq, Structural)]
pub enum SystemCommandEffect {
    Paused(bool),
    Verbose(bool),
    Chaos(bool),
    /// The time scale, in thousandths.
    TimeScale(u32),
    NoChange,
}

/// The effect of `cmd` whatever state a service tracks.
pub open spec fn effect_of(cmd: SystemCommand) -> SystemCommandEffect {
    match cmd {
        SystemCommand::Pause => SystemCommandEffect::Paused(true),
        SystemCommand::Resume => SystemCommandEffect::Paused(false),
        SystemCommand::Verbose(v) => SystemCommandEffect::Verbose(v),
        SystemCommand::Chaos(c) => SystemCommandEffect::Chaos(c),
        SystemCommand::SetTimeScale(s) => SystemCommandEffect::TimeScale(s),
    }
}

/// The paused flag after `cmd`, from `before`.
pub open spec fn paused_after(cmd: SystemCommand, before: bool) -> bool {
    match cmd {
        SystemCommand::Pause => true,
        SystemCommand::Resume => false,
        _ => before,
    }
}

/// The verbose flag after `cmd`, from `before`.
pub open spec fn verbose_after(cmd: SystemCommand, before: bool) -> bool {
    match cmd {
        SystemCommand::Verbose(v) => v,
        _ => before,
    }
}

/// The chaos flag after `cmd`, from `before`.
pub open spec fn chaos_after(cmd: SystemCommand, before: bool) -> bool {
    match cmd {
        SystemCommand::Chaos(c) => c,
        _ => before,
    }
}

impl SystemCommand {
    /// Applies the command to the state that the caller tracks (`None` for
    /// a flag it does not track) and says what the command changes.  The
    /// time scale is left to the callers that track it.
    pub fn apply(
        &self,
        paused: Option<&mut bool>,
        verbose: Option<&mut bool>,
        chaos: Option<&mut bool>,
    ) -> (e: SystemCommandEffect)
        ensures
            e == effect_of(*self),
            paused matches Some(p) ==> *final(p) == paused_after(*self, *p),
            verbose matches Some(v) ==> *final(v) == verbose_after(*self, *v),
            chaos matches Some(c) ==> *final(c) == chaos_after(*self, *c),
    {
        match self {
            SystemCommand::Pause => {
                if let Some(p) = paused {
                    *p = true;
                }
                SystemCommandEffect::Paused(true)
            },
            SystemCommand::Resume => {
                if let Some(p) = paused {
                    *p = false;
                }
                SystemCommandEffect::Paused(false)
            },
            SystemCommand::Verbose(v) => {
                if let Some(verb) = verbose {
                    *verb = *v;
                }
                SystemCommandEffect::Verbose(*v)
            },
            SystemCommand::Chaos(c) => {
                if let Some(ch) = chaos {
                    *ch = *c;
                }
                SystemCommandEffect::Chaos(*c)
            },
            SystemCommand::SetTimeScale(s) => SystemCommandEffect::TimeScale(*s),
        }
    }
}

} // verus!
