//! The control plane, the earlier system controller: its command words and
//! its record of the services it launched.
use vstd::prelude::*;
use crate::text::{chars_of, chars_equal, str_equal, trim, trim_chars, lower_seq, lower_chars, string_from_chars};

verus! {

/// The services the control plane starts, in startup order.
pub const PLANE_SERVICES: [&'static str; 4] = ["fleet_server", "swarm_driver", "mission_control", "visualizer"];

/// A line typed at the control plane's prompt.
#[derive(Debug, Clone, PartialEq)]
pub enum PlaneCommand {
    Start,
    Stop,
    Status,
    Pause,
    Resume,
    Verbose(bool),
    Reset,
    Quit,
    Help,
    Empty,
    /// Unrecognised input, trimmed and lower-cased.
    Unknown(String),
}

/// What the trimmed, lower-cased line `w` asks for.
pub open spec fn plane_command_of(w: Seq<char>, c: PlaneCommand) -> bool {
    if w == "start"@ || w == "start-all"@ {
        c is Start
    } else if w == "stop"@ || w == "stop-all"@ {
        c is Stop
    } else if w == "status"@ || w == "ps"@ {
        c is Status
    } else if w == "pause"@ || w == "p"@ {
        c is Pause
    } else if w == "resume"@ || w == "r"@ {
        c is Resume
    } else if w == "verbose on"@ || w == "v on"@ {
        c == PlaneCommand::Verbose(true)
    } else if w == "verbose off"@ || w == "v off"@ {
        c == PlaneCommand::Verbose(false)
    } else if w == "reset"@ {
        c is Reset
    } else if w == "quit"@ || w == "exit"@ || w == "q"@ {
        c is Quit
    } else if w == "help"@ || w == "h"@ || w == "?"@ {
        c is Help
    } else if w.len() == 0 {
        c is Empty
    } else {
        c matches PlaneCommand::Unknown(u) && u@ == w
    }
}

/// Whether `w` is one of two words.
fn is_either(w: &Vec<char>, a: &str, b: &str) -> (r: bool)
    ensures
        r == (w@ == a@ || w@ == b@),
{
    let ca = chars_of(a);
    let cb = chars_of(b);
    chars_equal(w.as_slice(), ca.as_slice()) || chars_equal(w.as_slice(), cb.as_slice())
}

/// Read a line typed at the control plane's prompt; the words are matched
/// ignoring surrounding blanks and ASCII case.
pub fn parse_plane_command(line: &str) -> (c: PlaneCommand)
    ensures
        plane_command_of(lower_seq(trim(line@)), c),
{
    let t = trim_chars(&chars_of(line));
    let w = lower_chars(&t);
    if is_either(&w, "start", "start-all") {
        PlaneCommand::Start
    } else if is_either(&w, "stop", "stop-all") {
        PlaneCommand::Stop
    } else if is_either(&w, "status", "ps") {
        PlaneCommand::Status
    } else if is_either(&w, "pause", "p") {
        PlaneCommand::Pause
    } else if is_either(&w, "resume", "r") {
        PlaneCommand::Resume
    } else if is_either(&w, "verbose on", "v on") {
        PlaneCommand::Verbose(true)
    } else if is_either(&w, "verbose off", "v off") {
        PlaneCommand::Verbose(false)
    } else if is_either(&w, "reset", "reset") {
        PlaneCommand::Reset
    } else if is_either(&w, "quit", "exit") || is_either(&w, "q", "q") {
        PlaneCommand::Quit
    } else if is_either(&w, "help", "h") || is_either(&w, "?", "?") {
        PlaneCommand::Help
    } else if w.len() == 0 {
        PlaneCommand::Empty
    } else {
        PlaneCommand::Unknown(string_from_chars(&w))
    }
}

/// How a service stands, as the status table shows it.
#[derive(Debug, Clone, Copy, PartialEq, Eq, Structural)]
pub enum PlaneStatus {
    Running,
    Exited,
    NotStarted,
}

impl PlaneStatus {
    /// The status table's word.
    pub fn label(self) -> (s: &'static str)
        ensures
            s@ == match self {
                PlaneStatus::Running => "running"@,
                PlaneStatus::Exited => "exited"@,
                PlaneStatus::NotStarted => "not started"@,
            },
    {
        match self {
            PlaneStatus::Running => "running",
            PlaneStatus::Exited => "exited",
            PlaneStatus::NotStarted => "not started",
        }
    }
}

/// The services the control plane launched, in launch order.
pub struct ManagedProcesses {
    running: Vec<String>,
}

impl ManagedProcesses {
    /// The names of the launched services, in launch order.
    pub closed spec fn launched(&self) -> Seq<Seq<char>> {
        self.running@.map_values(|s: String| s@)
    }

    /// No service launched.
    pub fn new() -> (p: ManagedProcesses)
        ensures
            p.launched() == Seq::<Seq<char>>::empty(),
    {
        ManagedProcesses { running: Vec::new() }
    }

    /// Whether some service was launched.
    pub fn any_launched(&self) -> (b: bool)
        ensures
            b == (self.launched().len() > 0),
    {
        self.running.len() > 0
    }

    /// Record that service `name` was launched.
    pub fn record_start(&mut self, name: &str)
        ensures
            final(self).launched() == old(self).launched().push(name@),
    {
        let s = string_from_chars(&chars_of(name));
        self.running.push(s);
        assert(final(self).launched() =~= old(self).launched().push(name@));
    }

    /// The launched services in the order to stop them (the reverse of
    /// launch order); the record is then empty.
    pub fn take_stop_order(&mut self) -> (v: Vec<String>)
        ensures
            v@.map_values(|s: String| s@) == old(self).launched().reverse(),
            final(self).launched() == Seq::<Seq<char>>::empty(),
    {
        let mut v: Vec<String> = Vec::new();
        while self.running.len() > 0
            invariant
                self.launched() + v@.map_values(|s: String| s@).reverse() == old(self).launched(),
            decreases self.running.len(),
        {
            let ghost before = self.launched();
            let ghost vb = v@.map_values(|s: String| s@);
            let s = self.running.pop().unwrap();
            v.push(s);
            proof {
                assert(self.launched() =~= before.drop_last());
                assert(v@.map_values(|s: String| s@) =~= vb.push(before.last()));
                assert(vb.push(before.last()).reverse() =~= seq![before.last()] + vb.reverse());
                assert(before =~= before.drop_last() + seq![before.last()]);
                assert(self.launched() + v@.map_values(|s: String| s@).reverse() =~= before.drop_last() + (
                seq![before.last()] + vb.reverse()));
            }
        }
        proof {
            let w = v@.map_values(|s: String| s@);
            assert(self.launched() =~= Seq::<Seq<char>>::empty());
            assert(w.reverse() =~= old(self).launched());
            assert(w.reverse().reverse() =~= w);
        }
        v
    }

    /// How service `name` stands: running where it is observed to run,
    /// exited where it was launched and is not, not started otherwise.
    pub fn status_of(&self, name: &str, observed_running: bool) -> (s: PlaneStatus)
        ensures
            s == (if observed_running {
                PlaneStatus::Running
            } else if self.launched().contains(name@) {
                PlaneStatus::Exited
            } else {
                PlaneStatus::NotStarted
            }),
    {
        if observed_running {
            return PlaneStatus::Running;
        }
        let mut i: usize = 0;
        while i < self.running.len()
            invariant
                i <= self.running.len(),
                !observed_running,
                forall|j: int| 0 <= j < i ==> self.launched()[j] != name@,
            decreases self.running.len() - i,
        {
            if str_equal(self.running[i].as_str(), name) {
                assert(self.launched()[i as int] == name@);
                return PlaneStatus::Exited;
            }
            i = i + 1;
        }
        assert(!self.launched().contains(name@));
        PlaneStatus::NotStarted
    }
}

} // verus!
