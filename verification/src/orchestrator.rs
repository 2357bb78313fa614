//! The orchestrator's command language and its bookkeeping of the managed
//! services: which are running, which have exited, and which show their
//! output in a window.
use vstd::prelude::*;
use crate::text::{chars_of, chars_equal, str_equal, trim, trim_chars, lower_seq, lower_chars, tokens, split_tokens, views, string_from_chars, lemma_trim_lower};

verus! {

/// The managed services, in startup order.
pub const CRATE_ORDER: [&'static str; 4] = ["coordinator", "mock_firmware", "scheduler", "visualizer"];

/// The position of service `name` in the startup order, if it is one.
pub open spec fn crate_pos(name: Seq<char>) -> Option<int> {
    if name == "coordinator"@ {
        Some(0)
    } else if name == "mock_firmware"@ {
        Some(1)
    } else if name == "scheduler"@ {
        Some(2)
    } else if name == "visualizer"@ {
        Some(3)
    } else {
        None
    }
}

/// The position of service `name` in the startup order, if it is one.
pub fn crate_index(name: &str) -> (r: Option<usize>)
    ensures
        r matches Some(i) ==> crate_pos(name@) == Some(i as int),
        r is None ==> crate_pos(name@) is None,
{
    if str_equal(name, "coordinator") {
        Some(0)
    } else if str_equal(name, "mock_firmware") {
        Some(1)
    } else if str_equal(name, "scheduler") {
        Some(2)
    } else if str_equal(name, "visualizer") {
        Some(3)
    } else {
        None
    }
}

/// The name of the service at position `i` of the startup order.
pub fn crate_name(i: usize) -> (s: &'static str)
    requires
        i < 4,
    ensures
        crate_pos(s@) == Some(i as int),
{
    proof {
        reveal_strlit("coordinator");
        reveal_strlit("mock_firmware");
        reveal_strlit("scheduler");
        reveal_strlit("visualizer");
        assert("coordinator"@.len() == 11);
        assert("mock_firmware"@.len() == 13);
        assert("scheduler"@.len() == 9);
        assert("visualizer"@.len() == 10);
    }
    if i == 0 {
        "coordinator"
    } else if i == 1 {
        "mock_firmware"
    } else if i == 2 {
        "scheduler"
    } else {
        "visualizer"
    }
}

/// The lifecycle state of a managed service.
#[derive(Debug, Clone, Copy, PartialEq, Eq, Structural)]
pub enum ProcessState {
    NotStarted,
    Running,
    Exited,
}

/// The state after observing whether a service in state `previous` runs:
/// a running service is `Running`; one that stopped after starting is
/// `Exited`; one never started stays `NotStarted`.
pub open spec fn observed_state(previous: ProcessState, observed_running: bool) -> ProcessState {
    if observed_running {
        ProcessState::Running
    } else {
        match previous {
            ProcessState::NotStarted => ProcessState::NotStarted,
            _ => ProcessState::Exited,
        }
    }
}

impl ProcessState {
    /// The state after observing whether the service runs.
    pub fn from_observation(previous: ProcessState, observed_running: bool) -> (s: ProcessState)
        ensures
            s == observed_state(previous, observed_running),
    {
        if observed_running {
            ProcessState::Running
        } else {
            match previous {
                ProcessState::NotStarted => ProcessState::NotStarted,
                ProcessState::Running | ProcessState::Exited => ProcessState::Exited,
            }
        }
    }

    /// A label for status tables.
    pub fn label(self) -> (s: &'static str)
        ensures
            self is NotStarted ==> s@ == "⚫ not started"@,
            self is Running ==> s@ == "🟢 running"@,
            self is Exited ==> s@ == "🔴 exited"@,
    {
        match self {
            ProcessState::NotStarted => "⚫ not started",
            ProcessState::Running => "🟢 running",
            ProcessState::Exited => "🔴 exited",
        }
    }
}

/// The build profile services run with.
#[derive(Debug, Clone, Copy, PartialEq, Eq, Structural)]
pub enum RunMode {
    Debug,
    Release,
}

/// One row of the status table.
#[derive(Debug, Clone, Copy)]
pub struct ProcessStatusEntry {
    pub name: &'static str,
    pub state: ProcessState,
    pub windowed: bool,
}

/// What a change of output visibility did.
#[derive(Debug, Clone, Copy, PartialEq, Eq, Structural)]
pub enum VisibilityChange {
    /// Every service shows its output.
    AllShown,
    /// No service shows its output.
    AllHidden,
    /// The named service shows its output.
    Shown,
    /// The named service runs silently.
    Hidden,
    /// The name is not a managed service; nothing changed.
    UnknownCrate,
}

/// How many states are `Exited`.
pub open spec fn count_exited(s: Seq<ProcessState>) -> nat
    decreases s.len(),
{
    if s.len() == 0 {
        0
    } else {
        count_exited(s.drop_last()) + if s.last() == ProcessState::Exited { 1nat } else { 0nat }
    }
}

/// The bookkeeping of the managed services.
pub struct Processes {
    states: Vec<ProcessState>,
    show_output: Vec<bool>,
    active_layout: String,
    active_mode: RunMode,
}

impl Processes {
    /// The state of each service, in startup order.
    pub closed spec fn state_seq(&self) -> Seq<ProcessState> {
        self.states@
    }

    /// Whether each service shows its output, in startup order.
    pub closed spec fn shown_seq(&self) -> Seq<bool> {
        self.show_output@
    }

    /// The layout services are started with.
    pub closed spec fn layout(&self) -> Seq<char> {
        self.active_layout@
    }

    /// The build profile services are started with.
    pub closed spec fn mode(&self) -> RunMode {
        self.active_mode
    }

    /// One state and one visibility flag per service.
    pub closed spec fn wf(&self) -> bool {
        self.states@.len() == 4 && self.show_output@.len() == 4
    }

    /// Every service not started, none windowed, release builds, with the
    /// given layout.
    pub fn new(active_layout: String) -> (p: Processes)
        ensures
            p.wf(),
            forall|i: int| 0 <= i < 4 ==> p.state_seq()[i] == ProcessState::NotStarted,
            forall|i: int| 0 <= i < 4 ==> !p.shown_seq()[i],
            p.layout() == active_layout@,
            p.mode() == RunMode::Release,
    {
        let mut states: Vec<ProcessState> = Vec::new();
        let mut show_output: Vec<bool> = Vec::new();
        let mut i: usize = 0;
        while i < 4
            invariant
                i <= 4,
                states@.len() == i,
                show_output@.len() == i,
                forall|j: int| 0 <= j < i ==> states@[j] == ProcessState::NotStarted,
                forall|j: int| 0 <= j < i ==> !show_output@[j],
            decreases 4 - i,
        {
            states.push(ProcessState::NotStarted);
            show_output.push(false);
            i = i + 1;
        }
        Processes { states, show_output, active_layout, active_mode: RunMode::Release }
    }

    /// The state of each service, in startup order.
    pub fn states(&self) -> (s: &Vec<ProcessState>)
        ensures
            s@ == self.state_seq(),
    {
        &self.states
    }

    /// The state of service `name`; `NotStarted` for an unknown name.
    pub fn process_state(&self, name: &str) -> (s: ProcessState)
        requires
            self.wf(),
        ensures
            s == match crate_pos(name@) {
                Some(i) => self.state_seq()[i],
                None => ProcessState::NotStarted,
            },
    {
        match crate_index(name) {
            Some(i) => self.states[i],
            None => ProcessState::NotStarted,
        }
    }

    /// Set the state of service `name`; an unknown name changes nothing.
    pub fn set_state(&mut self, name: &str, state: ProcessState)
        requires
            old(self).wf(),
        ensures
            final(self).wf(),
            final(self).state_seq() == match crate_pos(name@) {
                Some(i) => old(self).state_seq().update(i, state),
                None => old(self).state_seq(),
            },
            final(self).shown_seq() == old(self).shown_seq(),
            final(self).layout() == old(self).layout(),
            final(self).mode() == old(self).mode(),
    {
        if let Some(i) = crate_index(name) {
            self.states.set(i, state);
        }
    }

    /// Whether service `name` shows its output.
    pub fn is_windowed(&self, name: &str) -> (b: bool)
        requires
            self.wf(),
        ensures
            b == match crate_pos(name@) {
                Some(i) => self.shown_seq()[i],
                None => false,
            },
    {
        match crate_index(name) {
            Some(i) => self.show_output[i],
            None => false,
        }
    }

    /// Show or hide the output of service `name`, or of every service for
    /// `"all"`; takes effect on the next start.
    pub fn set_output_visibility(&mut self, name: &str, show: bool) -> (c: VisibilityChange)
        requires
            old(self).wf(),
        ensures
            final(self).wf(),
            final(self).state_seq() == old(self).state_seq(),
            final(self).layout() == old(self).layout(),
            final(self).mode() == old(self).mode(),
            name@ == "all"@ ==> c == (if show { VisibilityChange::AllShown } else { VisibilityChange::AllHidden })
                && forall|i: int| 0 <= i < 4 ==> final(self).shown_seq()[i] == show,
            name@ != "all"@ ==> match crate_pos(name@) {
                Some(i) => final(self).shown_seq() == old(self).shown_seq().update(i, show) && c == (if show {
                    VisibilityChange::Shown
                } else {
                    VisibilityChange::Hidden
                }),
                None => final(self).shown_seq() == old(self).shown_seq() && c == VisibilityChange::UnknownCrate,
            },
    {
        if str_equal(name, "all") {
            let mut i: usize = 0;
            while i < 4
                invariant
                    i <= 4,
                    self.show_output@.len() == 4,
                    self.states@ == old(self).states@,
                    self.active_layout@ == old(self).active_layout@,
                    self.active_mode == old(self).active_mode,
                    forall|j: int| 0 <= j < i ==> self.show_output@[j] == show,
                decreases 4 - i,
            {
                self.show_output.set(i, show);
                i = i + 1;
            }
            return if show { VisibilityChange::AllShown } else { VisibilityChange::AllHidden };
        }
        match crate_index(name) {
            Some(i) => {
                self.show_output.set(i, show);
                if show {
                    VisibilityChange::Shown
                } else {
                    VisibilityChange::Hidden
                }
            },
            None => VisibilityChange::UnknownCrate,
        }
    }

    /// Show the output of service `name` (or of all) on its next start.
    pub fn show_output(&mut self, name: &str) -> (c: VisibilityChange)
        requires
            old(self).wf(),
        ensures
            final(self).wf(),
            final(self).state_seq() == old(self).state_seq(),
            name@ == "all"@ ==> c == VisibilityChange::AllShown && forall|i: int| 0 <= i < 4 ==> final(self).shown_seq()[i],
            name@ != "all"@ ==> match crate_pos(name@) {
                Some(i) => final(self).shown_seq() == old(self).shown_seq().update(i, true) && c == VisibilityChange::Shown,
                None => final(self).shown_seq() == old(self).shown_seq() && c == VisibilityChange::UnknownCrate,
            },
    {
        self.set_output_visibility(name, true)
    }

    /// Run service `name` (or all) silently from its next start.
    pub fn hide_output(&mut self, name: &str) -> (c: VisibilityChange)
        requires
            old(self).wf(),
        ensures
            final(self).wf(),
            final(self).state_seq() == old(self).state_seq(),
            name@ == "all"@ ==> c == VisibilityChange::AllHidden && forall|i: int| 0 <= i < 4 ==> !final(self).shown_seq()[i],
            name@ != "all"@ ==> match crate_pos(name@) {
                Some(i) => final(self).shown_seq() == old(self).shown_seq().update(i, false) && c == VisibilityChange::Hidden,
                None => final(self).shown_seq() == old(self).shown_seq() && c == VisibilityChange::UnknownCrate,
            },
    {
        self.set_output_visibility(name, false)
    }

    /// Whether some service is running.
    pub fn any_running(&self) -> (b: bool)
        requires
            self.wf(),
        ensures
            b == exists|i: int| 0 <= i < 4 && self.state_seq()[i] == ProcessState::Running,
    {
        let mut i: usize = 0;
        while i < 4
            invariant
                i <= 4,
                self.states@.len() == 4,
                forall|j: int| 0 <= j < i ==> self.states@[j] != ProcessState::Running,
            decreases 4 - i,
        {
            if self.states[i] == ProcessState::Running {
                return true;
            }
            i = i + 1;
        }
        false
    }

    /// Reset every `Exited` service to `NotStarted`; returns how many were
    /// reset.
    pub fn clear_exited_states(&mut self) -> (cleared: usize)
        requires
            old(self).wf(),
        ensures
            final(self).wf(),
            forall|i: int|
                0 <= i < 4 ==> #[trigger] final(self).state_seq()[i] == (if old(self).state_seq()[i] == ProcessState::Exited {
                    ProcessState::NotStarted
                } else {
                    old(self).state_seq()[i]
                }),
            cleared == count_exited(old(self).state_seq()),
            final(self).shown_seq() == old(self).shown_seq(),
            final(self).layout() == old(self).layout(),
            final(self).mode() == old(self).mode(),
    {
        let ghost s0 = self.states@;
        let mut cleared: usize = 0;
        let mut i: usize = 0;
        assert(s0.take(0) =~= Seq::<ProcessState>::empty());
        while i < 4
            invariant
                i <= 4,
                s0.len() == 4,
                self.states@.len() == 4,
                self.show_output@ == old(self).show_output@,
                self.active_layout@ == old(self).active_layout@,
                self.active_mode == old(self).active_mode,
                forall|j: int|
                    0 <= j < i ==> self.states@[j] == (if s0[j] == ProcessState::Exited {
                        ProcessState::NotStarted
                    } else {
                        s0[j]
                    }),
                forall|j: int| i <= j < 4 ==> self.states@[j] == s0[j],
                cleared == count_exited(s0.take(i as int)),
                cleared <= i,
            decreases 4 - i,
        {
            assert(s0.take(i + 1).drop_last() =~= s0.take(i as int));
            if self.states[i] == ProcessState::Exited {
                self.states.set(i, ProcessState::NotStarted);
                cleared = cleared + 1;
            }
            i = i + 1;
        }
        assert(s0.take(4) =~= s0);
        cleared
    }

    /// Record the observation of whether service `name` runs; returns its
    /// new state.
    pub fn reconcile_process(&mut self, name: &str, observed_running: bool) -> (s: ProcessState)
        requires
            old(self).wf(),
        ensures
            final(self).wf(),
            crate_pos(name@) matches Some(i) ==> s == observed_state(old(self).state_seq()[i], observed_running)
                && final(self).state_seq() == old(self).state_seq().update(i, s),
            crate_pos(name@) is None ==> s == observed_state(ProcessState::NotStarted, observed_running)
                && final(self).state_seq() == old(self).state_seq(),
            final(self).shown_seq() == old(self).shown_seq(),
            final(self).layout() == old(self).layout(),
            final(self).mode() == old(self).mode(),
    {
        let previous = self.process_state(name);
        let next = ProcessState::from_observation(previous, observed_running);
        self.set_state(name, next);
        next
    }

    /// Record an observation of every service, in startup order.
    pub fn reconcile_all(&mut self, observed_running: &[bool])
        requires
            old(self).wf(),
            observed_running@.len() == 4,
        ensures
            final(self).wf(),
            forall|i: int|
                0 <= i < 4 ==> #[trigger] final(self).state_seq()[i] == observed_state(
                    old(self).state_seq()[i],
                    observed_running@[i],
                ),
            final(self).shown_seq() == old(self).shown_seq(),
            final(self).layout() == old(self).layout(),
            final(self).mode() == old(self).mode(),
    {
        let mut i: usize = 0;
        while i < 4
            invariant
                i <= 4,
                observed_running@.len() == 4,
                self.states@.len() == 4,
                self.show_output@ == old(self).show_output@,
                self.active_layout@ == old(self).active_layout@,
                self.active_mode == old(self).active_mode,
                forall|j: int| 0 <= j < i ==> self.states@[j] == observed_state(old(self).states@[j], observed_running@[j]),
                forall|j: int| i <= j < 4 ==> self.states@[j] == old(self).states@[j],
            decreases 4 - i,
        {
            let next = ProcessState::from_observation(self.states[i], observed_running[i]);
            self.states.set(i, next);
            i = i + 1;
        }
    }

    /// The status table after recording an observation of every service.
    pub fn status_snapshot(&mut self, observed_running: &[bool]) -> (v: Vec<ProcessStatusEntry>)
        requires
            old(self).wf(),
            observed_running@.len() == 4,
        ensures
            final(self).wf(),
            forall|i: int|
                0 <= i < 4 ==> #[trigger] final(self).state_seq()[i] == observed_state(
                    old(self).state_seq()[i],
                    observed_running@[i],
                ),
            v@.len() == 4,
            forall|i: int|
                0 <= i < 4 ==> crate_pos((#[trigger] v@[i]).name@) == Some(i) && v@[i].state == final(self).state_seq()[i]
                    && v@[i].windowed == final(self).shown_seq()[i],
    {
        self.reconcile_all(observed_running);
        let mut v: Vec<ProcessStatusEntry> = Vec::new();
        let mut i: usize = 0;
        while i < 4
            invariant
                i <= 4,
                self.wf(),
                v@.len() == i,
                forall|j: int|
                    0 <= j < i ==> crate_pos((#[trigger] v@[j]).name@) == Some(j) && v@[j].state == self.state_seq()[j]
                        && v@[j].windowed == self.shown_seq()[j],
            decreases 4 - i,
        {
            v.push(ProcessStatusEntry { name: crate_name(i), state: self.states[i], windowed: self.show_output[i] });
            i = i + 1;
        }
        v
    }

    /// The layout services are started with.
    pub fn active_layout(&self) -> (s: &String)
        ensures
            s@ == self.layout(),
    {
        &self.active_layout
    }

    /// The build profile services are started with.
    pub fn active_mode(&self) -> (m: RunMode)
        ensures
            m == self.mode(),
    {
        self.active_mode
    }

    /// Use `layout` (when given) and `mode` for the next starts.
    pub fn select_run(&mut self, layout: Option<&str>, mode: RunMode)
        requires
            old(self).wf(),
        ensures
            final(self).wf(),
            final(self).state_seq() == old(self).state_seq(),
            final(self).shown_seq() == old(self).shown_seq(),
            final(self).layout() == match layout {
                Some(l) => l@,
                None => old(self).layout(),
            },
            final(self).mode() == mode,
    {
        if let Some(path) = layout {
            self.active_layout = path.to_owned();
        }
        self.active_mode = mode;
    }
}


/// A command typed at the orchestrator prompt.
#[derive(Debug, Clone, PartialEq)]
pub enum Command {
    /// Start every service, with an optional layout selector.
    RunAll(Option<String>),
    /// Start one service, with an optional layout selector.
    Run { name: String, layout: Option<String> },
    KillAll,
    Kill(String),
    Restart,
    Status,
    /// Show (`true`) or hide the output of a service, or of `"all"`.
    ShowOutput(String, bool),
    Pause,
    Resume,
    Verbose(bool),
    Chaos(bool),
    Help,
    Quit,
    /// Unrecognised input, trimmed and lower-cased.
    Unknown(String),
    Empty,
}

/// The view of an optional string.
pub open spec fn opt_view(o: Option<String>) -> Option<Seq<char>> {
    match o {
        Some(s) => Some(s@),
        None => None,
    }
}

/// The view of an optional character vector.
pub open spec fn opt_chars(o: Option<Vec<char>>) -> Option<Seq<char>> {
    match o {
        Some(s) => Some(s@),
        None => None,
    }
}

/// The arguments of a `run` command from token `i` on, with the layout and
/// target seen so far: `-l`/`--layout` takes the next token as the layout
/// selector; any other token is the target, of which there may be only
/// one. `None` when the arguments are malformed.
pub open spec fn run_scan(
    parts: Seq<Seq<char>>,
    i: int,
    layout: Option<Seq<char>>,
    target: Option<Seq<char>>,
) -> Option<(Option<Seq<char>>, Option<Seq<char>>)>
    decreases parts.len() - i,
{
    if i < 0 || i >= parts.len() {
        Some((layout, target))
    } else if parts[i] == "-l"@ || parts[i] == "--layout"@ {
        if i + 1 < parts.len() {
            run_scan(parts, i + 2, Some(parts[i + 1]), target)
        } else {
            None
        }
    } else if target is Some {
        None
    } else if parts[i] == "all"@ {
        run_scan(parts, i + 1, layout, Some("all"@))
    } else {
        run_scan(parts, i + 1, layout, Some(parts[i]))
    }
}

/// Whether `c` is the command a `run`/`up` line with tokens `parts` and
/// text `text` stands for.
pub open spec fn run_command_of(parts: Seq<Seq<char>>, text: Seq<char>, c: Command) -> bool {
    match run_scan(parts, 1, None, None) {
        None => c matches Command::Unknown(s) && s@ == text,
        Some((layout, target)) => if target is None || target == Some("all"@) {
            c matches Command::RunAll(l) && opt_view(l) == layout
        } else {
            c matches Command::Run { name, layout: l } && Some(name@) == target && opt_view(l) == layout
        },
    }
}

/// Whether `c` is the command the input line `input` stands for. The line
/// is trimmed and lower-cased, then split at whitespace.
pub open spec fn parsed_command(input: Seq<char>, c: Command) -> bool {
    let text = lower_seq(trim(input));
    let p = tokens(text);
    if p.len() > 0 && (p[0] == "run"@ || p[0] == "up"@) {
        run_command_of(p, text, c)
    } else if (p.len() == 1 && (p[0] == "kill"@ || p[0] == "down"@)) || (p.len() == 2 && (p[0] == "kill"@ || p[0]
        == "down"@) && p[1] == "all"@) {
        c is KillAll
    } else if p.len() == 2 && (p[0] == "kill"@ || p[0] == "down"@) {
        c matches Command::Kill(n) && n@ == p[1]
    } else if p.len() == 1 && (p[0] == "restart"@ || p[0] == "reset"@) {
        c is Restart
    } else if p.len() == 1 && (p[0] == "status"@ || p[0] == "ps"@) {
        c is Status
    } else if p.len() == 2 && p[0] == "show"@ {
        c matches Command::ShowOutput(n, b) && n@ == p[1] && b
    } else if p.len() == 2 && p[0] == "hide"@ {
        c matches Command::ShowOutput(n, b) && n@ == p[1] && !b
    } else if p.len() == 1 && (p[0] == "pause"@ || p[0] == "p"@) {
        c is Pause
    } else if p.len() == 1 && (p[0] == "resume"@ || p[0] == "r"@) {
        c is Resume
    } else if p.len() == 2 && (p[0] == "verbose"@ || p[0] == "v"@) && p[1] == "on"@ {
        c == Command::Verbose(true)
    } else if p.len() == 2 && (p[0] == "verbose"@ || p[0] == "v"@) && p[1] == "off"@ {
        c == Command::Verbose(false)
    } else if p.len() == 2 && p[0] == "chaos"@ && p[1] == "on"@ {
        c == Command::Chaos(true)
    } else if p.len() == 2 && p[0] == "chaos"@ && p[1] == "off"@ {
        c == Command::Chaos(false)
    } else if p.len() == 1 && (p[0] == "help"@ || p[0] == "h"@ || p[0] == "?"@) {
        c is Help
    } else if p.len() == 1 && (p[0] == "quit"@ || p[0] == "exit"@ || p[0] == "q"@) {
        c is Quit
    } else if p.len() == 0 {
        c is Empty
    } else {
        c matches Command::Unknown(s) && s@ == text
    }
}

/// What an observation does to a service's state: a service seen running
/// is `Running`; one seen stopped is never `Running`, and one never
/// started stays `NotStarted`; observing the same thing twice changes
/// nothing more.
pub proof fn law_observation_settles(previous: ProcessState, observed_running: bool)
    ensures
        observed_running ==> observed_state(previous, observed_running) == ProcessState::Running,
        !observed_running ==> observed_state(previous, observed_running) != ProcessState::Running,
        !observed_running && previous == ProcessState::NotStarted ==> observed_state(previous, observed_running)
            == ProcessState::NotStarted,
        observed_state(observed_state(previous, observed_running), observed_running) == observed_state(
            previous,
            observed_running,
        ),
{
}

/// After clearing exited services none is `Exited`, and running services
/// are untouched.
pub proof fn law_clear_leaves_no_exited(before: Seq<ProcessState>, after: Seq<ProcessState>)
    requires
        before.len() == 4,
        after.len() == 4,
        forall|i: int|
            0 <= i < 4 ==> #[trigger] after[i] == (if before[i] == ProcessState::Exited {
                ProcessState::NotStarted
            } else {
                before[i]
            }),
    ensures
        forall|i: int| 0 <= i < 4 ==> #[trigger] after[i] != ProcessState::Exited,
        forall|i: int| 0 <= i < 4 ==> (#[trigger] before[i] == ProcessState::Running <==> after[i] == ProcessState::Running),
{
}

/// Commands ignore letter case: a line and its lower-cased form stand for
/// the same command.
pub proof fn law_parse_ignores_case(input: Seq<char>, c: Command)
    ensures
        parsed_command(lower_seq(input), c) == parsed_command(input, c),
{
    lemma_trim_lower(input);
    assert(lower_seq(trim(lower_seq(input))) == lower_seq(trim(input)));
}

/// Whether token `tok` is the word `w`.
fn is_word(tok: &Vec<char>, w: &str) -> (b: bool)
    ensures
        b == (tok@ == w@),
{
    let c = chars_of(w);
    chars_equal(tok.as_slice(), c.as_slice())
}

/// An optional character vector as an optional string.
fn opt_string(o: &Option<Vec<char>>) -> (r: Option<String>)
    ensures
        opt_view(r) == opt_chars(*o),
{
    match o {
        Some(v) => Some(string_from_chars(v)),
        None => None,
    }
}

impl Command {
    /// Parse a command from an input line.
    pub fn parse(input: &str) -> (c: Command)
        ensures
            parsed_command(input@, c),
    {
        let raw = chars_of(input);
        let trimmed = trim_chars(&raw);
        let text = lower_chars(&trimmed);
        let parts = split_tokens(&text);
        let ghost p = views(parts@);
        let n = parts.len();
        proof {
            assert(forall|k: int| 0 <= k < n ==> #[trigger] p[k] == parts@[k]@);
        }
        if n > 0 && (is_word(&parts[0], "run") || is_word(&parts[0], "up")) {
            return Self::parse_run_command(&parts, &text);
        }
        let first_kill = n > 0 && (is_word(&parts[0], "kill") || is_word(&parts[0], "down"));
        if (n == 1 && first_kill) || (n == 2 && first_kill && is_word(&parts[1], "all")) {
            return Command::KillAll;
        }
        if n == 2 && first_kill {
            return Command::Kill(string_from_chars(&parts[1]));
        }
        if n == 1 && (is_word(&parts[0], "restart") || is_word(&parts[0], "reset")) {
            return Command::Restart;
        }
        if n == 1 && (is_word(&parts[0], "status") || is_word(&parts[0], "ps")) {
            return Command::Status;
        }
        if n == 2 && is_word(&parts[0], "show") {
            return Command::ShowOutput(string_from_chars(&parts[1]), true);
        }
        if n == 2 && is_word(&parts[0], "hide") {
            return Command::ShowOutput(string_from_chars(&parts[1]), false);
        }
        if n == 1 && (is_word(&parts[0], "pause") || is_word(&parts[0], "p")) {
            return Command::Pause;
        }
        if n == 1 && (is_word(&parts[0], "resume") || is_word(&parts[0], "r")) {
            return Command::Resume;
        }
        let first_verbose = n > 0 && (is_word(&parts[0], "verbose") || is_word(&parts[0], "v"));
        if n == 2 && first_verbose && is_word(&parts[1], "on") {
            return Command::Verbose(true);
        }
        if n == 2 && first_verbose && is_word(&parts[1], "off") {
            return Command::Verbose(false);
        }
        if n == 2 && is_word(&parts[0], "chaos") && is_word(&parts[1], "on") {
            return Command::Chaos(true);
        }
        if n == 2 && is_word(&parts[0], "chaos") && is_word(&parts[1], "off") {
            return Command::Chaos(false);
        }
        if n == 1 && (is_word(&parts[0], "help") || is_word(&parts[0], "h") || is_word(&parts[0], "?")) {
            return Command::Help;
        }
        if n == 1 && (is_word(&parts[0], "quit") || is_word(&parts[0], "exit") || is_word(&parts[0], "q")) {
            return Command::Quit;
        }
        if n == 0 {
            return Command::Empty;
        }
        Command::Unknown(string_from_chars(&text))
    }

    /// Parse the arguments of a `run`/`up` line with tokens `parts` and
    /// text `input`.
    fn parse_run_command(parts: &Vec<Vec<char>>, input: &Vec<char>) -> (c: Command)
        requires
            parts@.len() >= 1,
        ensures
            run_command_of(views(parts@), input@, c),
    {
        let ghost p = views(parts@);
        let mut layout: Option<Vec<char>> = None;
        let mut target: Option<Vec<char>> = None;
        let mut i: usize = 1;
        while i < parts.len()
            invariant
                1 <= i <= parts@.len(),
                p == views(parts@),
                run_scan(p, 1, None, None) == run_scan(p, i as int, opt_chars(layout), opt_chars(target)),
            decreases parts@.len() - i,
        {
            assert(p[i as int] == parts@[i as int]@);
            if is_word(&parts[i], "-l") || is_word(&parts[i], "--layout") {
                if i + 1 >= parts.len() {
                    return Command::Unknown(string_from_chars(input));
                }
                i = i + 1;
                assert(p[i as int] == parts@[i as int]@);
                layout = Some(parts[i].clone());
            } else if target.is_some() {
                return Command::Unknown(string_from_chars(input));
            } else if is_word(&parts[i], "all") {
                target = Some(chars_of("all"));
            } else {
                target = Some(parts[i].clone());
            }
            i = i + 1;
        }
        let is_all = match &target {
            None => true,
            Some(t) => is_word(t, "all"),
        };
        if is_all {
            Command::RunAll(opt_string(&layout))
        } else {
            let name = match &target {
                Some(t) => string_from_chars(t),
                None => string_from_chars(input),
            };
            Command::Run { name, layout: opt_string(&layout) }
        }
    }
}

} // verus!
