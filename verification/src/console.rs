//! The scheduler's console: what a line typed at its prompt asks for.
use vstd::prelude::*;
use crate::orchestrator::opt_view;
use crate::scheduler::{named_location, named_location_safe, parse_named_location};
use crate::tasks::Priority;
use crate::text::{
    lower_seq, lower_chars, tokens, views, parse_unsigned, parse_unsigned_chars, chars_of, chars_equal, split_tokens, string_from_chars,
    upper_case, lower_case, to_uppercase, to_lowercase,
};

verus! {

/// A command typed at the scheduler's prompt.
#[derive(Debug, PartialEq)]
pub enum StdinCmd {
    Status,
    /// Add a shelf-to-destination task; coordinates at or above the shelf
    /// marker base stand for named shelves and dropoffs.
    AddTask { pickup: (usize, usize), dropoff: (usize, usize) },
    RandomTask,
    /// Add `count` random tasks; the optional argument is the dropoff
    /// percentage as typed, which the console front end checks.
    MassAdd { count: u32, dropoff_percent: Option<String> },
    CancelTask { task_id: u64 },
    SetPriority { task_id: u64, priority: Priority },
    History,
    ListShelves,
    ListDropoffs,
    ListStations,
    ShowMap,
    Help,
}

/// Which usage hint a malformed line calls for.
#[derive(Debug, PartialEq)]
pub enum Usage {
    /// `list <shelves|dropoffs|stations>`
    List,
    /// `add <pickup_x> <pickup_y> <dropoff_x> <dropoff_y>`
    AddCoords,
    /// `add <S#> <D#|S#>` or the coordinate form
    Add,
    /// `mass_add <count> [dropoff_%]`
    MassAdd,
    /// `cancel <task_id>`
    Cancel,
    /// `priority <task_id> <low|normal|high|critical>`
    Priority,
    /// A system command, which another service handles now.
    SystemCommand,
    /// An unknown command word, as typed.
    Unknown(String),
}

/// What a console line asks for.
#[derive(Debug, PartialEq)]
pub enum StdinLine {
    /// Nothing but whitespace.
    Blank,
    Command(StdinCmd),
    Usage(Usage),
}

/// The priority a (lower-cased) level word names.
pub open spec fn level_of(w: Seq<char>) -> Option<Priority> {
    if w == "low"@ || w == "l"@ {
        Some(Priority::Low)
    } else if w == "normal"@ || w == "n"@ {
        Some(Priority::Normal)
    } else if w == "high"@ || w == "h"@ {
        Some(Priority::High)
    } else if w == "critical"@ || w == "c"@ {
        Some(Priority::Critical)
    } else {
        None
    }
}

/// The marker of a named location, or the origin when the name is not one.
pub open spec fn marker_or_origin(name: Seq<char>) -> (usize, usize) {
    match named_location(name) {
        Some(m) => m,
        None => (0, 0),
    }
}

/// Whether `p` is a named-location `add` line (`add <S#> <D#|S#>`).
pub open spec fn is_named_add(p: Seq<Seq<char>>) -> bool {
    p.len() == 3 && p[0] == "add"@
}

/// Whether `p` is a `priority <id> <level>` line.
pub open spec fn is_priority_line(p: Seq<Seq<char>>) -> bool {
    p.len() == 3 && p[0] == "priority"@
}

/// The task count of a `mass_add <count> [dropoff_%]` line: a positive
/// `u32`.
pub open spec fn mass_count(p: Seq<Seq<char>>) -> Option<nat> {
    if p.len() == 2 || p.len() == 3 {
        match parse_unsigned(p[1], u32::MAX as nat) {
            Some(c) => if c > 0 {
                Some(c)
            } else {
                None
            },
            None => None,
        }
    } else {
        None
    }
}

/// Whether `r` is what the console line with tokens `p` asks for, where
/// `up1` and `up2` are the upper-cased location names of a named `add` and
/// `low2` the lower-cased level word of a `priority` line.
pub open spec fn stdin_line_is(p: Seq<Seq<char>>, up1: Seq<char>, up2: Seq<char>, low2: Seq<char>, r: StdinLine) -> bool {
    let n = p.len();
    if n == 0 {
        r is Blank
    } else if p[0] == "status"@ || p[0] == "s"@ {
        r matches StdinLine::Command(StdinCmd::Status)
    } else if p[0] == "list"@ {
        if n >= 2 && (p[1] == "shelves"@ || p[1] == "shelf"@) {
            r matches StdinLine::Command(StdinCmd::ListShelves)
        } else if n >= 2 && (p[1] == "dropoffs"@ || p[1] == "dropoff"@ || p[1] == "drop"@) {
            r matches StdinLine::Command(StdinCmd::ListDropoffs)
        } else if n >= 2 && (p[1] == "stations"@ || p[1] == "station"@) {
            r matches StdinLine::Command(StdinCmd::ListStations)
        } else {
            r matches StdinLine::Usage(Usage::List)
        }
    } else if p[0] == "map"@ {
        r matches StdinLine::Command(StdinCmd::ShowMap)
    } else if p[0] == "add"@ {
        if n == 3 {
            r matches StdinLine::Command(StdinCmd::AddTask { pickup, dropoff }) && pickup == marker_or_origin(up1)
                && dropoff == marker_or_origin(up2)
        } else if n == 5 {
            match (
                parse_unsigned(p[1], usize::MAX as nat),
                parse_unsigned(p[2], usize::MAX as nat),
                parse_unsigned(p[3], usize::MAX as nat),
                parse_unsigned(p[4], usize::MAX as nat),
            ) {
                (Some(px), Some(py), Some(dx), Some(dy)) => r matches StdinLine::Command(
                    StdinCmd::AddTask { pickup, dropoff },
                ) && pickup == (px as usize, py as usize) && dropoff == (dx as usize, dy as usize),
                _ => r matches StdinLine::Usage(Usage::AddCoords),
            }
        } else {
            r matches StdinLine::Usage(Usage::Add)
        }
    } else if p[0] == "random"@ || p[0] == "rand"@ {
        r matches StdinLine::Command(StdinCmd::RandomTask)
    } else if p[0] == "mass_add"@ || p[0] == "massadd"@ || p[0] == "mass"@ {
        match mass_count(p) {
            Some(c) => r matches StdinLine::Command(StdinCmd::MassAdd { count, dropoff_percent }) && count == c
                && opt_view(dropoff_percent) == (if n == 3 {
                Some(p[2])
            } else {
                None
            }),
            None => r matches StdinLine::Usage(Usage::MassAdd),
        }
    } else if p[0] == "cancel"@ && n == 2 {
        match parse_unsigned(p[1], u64::MAX as nat) {
            Some(id) => r matches StdinLine::Command(StdinCmd::CancelTask { task_id }) && task_id == id,
            None => r matches StdinLine::Usage(Usage::Cancel),
        }
    } else if p[0] == "priority"@ && n == 3 {
        match (parse_unsigned(p[1], u64::MAX as nat), level_of(low2)) {
            (Some(id), Some(l)) => r matches StdinLine::Command(StdinCmd::SetPriority { task_id, priority })
                && task_id == id && priority == l,
            _ => r matches StdinLine::Usage(Usage::Priority),
        }
    } else if p[0] == "history"@ || p[0] == "hist"@ {
        r matches StdinLine::Command(StdinCmd::History)
    } else if p[0] == "help"@ || p[0] == "h"@ {
        r matches StdinLine::Command(StdinCmd::Help)
    } else {
        r matches StdinLine::Usage(Usage::Unknown(w)) && w@ == p[0]
    }
}

/// Whether token `tok` is the word `w`.
fn word(tok: &Vec<char>, w: &str) -> (b: bool)
    ensures
        b == (tok@ == w@),
{
    let c = chars_of(w);
    chars_equal(tok.as_slice(), c.as_slice())
}

/// The priority a level word names.
fn level_word(w: &str) -> (r: Option<Priority>)
    ensures
        r == level_of(w@),
{
    let t = chars_of(w);
    if word(&t, "low") || word(&t, "l") {
        Some(Priority::Low)
    } else if word(&t, "normal") || word(&t, "n") {
        Some(Priority::Normal)
    } else if word(&t, "high") || word(&t, "h") {
        Some(Priority::High)
    } else if word(&t, "critical") || word(&t, "c") {
        Some(Priority::Critical)
    } else {
        None
    }
}

/// The marker of a named location, or the origin.
fn marker_or_zero(name: &str) -> (m: (usize, usize))
    requires
        named_location_safe(name@),
    ensures
        m == marker_or_origin(name@),
{
    match parse_named_location(name) {
        Some(m) => m,
        None => (0, 0),
    }
}

/// What the console line with tokens `parts` asks for, given the
/// upper-cased location names of a named `add` (`up1`, `up2`) and the
/// lower-cased level word of a `priority` line (`low2`).
pub fn command_from_parts(parts: &Vec<Vec<char>>, up1: &str, up2: &str, low2: &str) -> (r: StdinLine)
    requires
        is_named_add(views(parts@)) ==> named_location_safe(up1@) && named_location_safe(up2@),
    ensures
        stdin_line_is(views(parts@), up1@, up2@, low2@, r),
{
    let ghost p = views(parts@);
    let n = parts.len();
    proof {
        assert(forall|k: int| 0 <= k < n ==> #[trigger] p[k] == parts@[k]@);
    }
    if n == 0 {
        return StdinLine::Blank;
    }
    let w = &parts[0];
    if word(w, "status") || word(w, "s") {
        return StdinLine::Command(StdinCmd::Status);
    }
    if word(w, "list") {
        if n >= 2 && (word(&parts[1], "shelves") || word(&parts[1], "shelf")) {
            return StdinLine::Command(StdinCmd::ListShelves);
        }
        if n >= 2 && (word(&parts[1], "dropoffs") || word(&parts[1], "dropoff") || word(&parts[1], "drop")) {
            return StdinLine::Command(StdinCmd::ListDropoffs);
        }
        if n >= 2 && (word(&parts[1], "stations") || word(&parts[1], "station")) {
            return StdinLine::Command(StdinCmd::ListStations);
        }
        return StdinLine::Usage(Usage::List);
    }
    if word(w, "map") {
        return StdinLine::Command(StdinCmd::ShowMap);
    }
    if word(w, "add") {
        if n == 3 {
            let pickup = marker_or_zero(up1);
            let dropoff = marker_or_zero(up2);
            return StdinLine::Command(StdinCmd::AddTask { pickup, dropoff });
        }
        if n == 5 {
            let max = usize::MAX as u64;
            proof {
                assert(parts@[1]@.subrange(0, parts@[1]@.len() as int) =~= parts@[1]@);
                assert(parts@[2]@.subrange(0, parts@[2]@.len() as int) =~= parts@[2]@);
                assert(parts@[3]@.subrange(0, parts@[3]@.len() as int) =~= parts@[3]@);
                assert(parts@[4]@.subrange(0, parts@[4]@.len() as int) =~= parts@[4]@);
            }
            let px = parse_unsigned_chars(parts[1].as_slice(), 0, max);
            let py = parse_unsigned_chars(parts[2].as_slice(), 0, max);
            let dx = parse_unsigned_chars(parts[3].as_slice(), 0, max);
            let dy = parse_unsigned_chars(parts[4].as_slice(), 0, max);
            return match (px, py, dx, dy) {
                (Some(a), Some(b), Some(c), Some(d)) => StdinLine::Command(
                    StdinCmd::AddTask { pickup: (a as usize, b as usize), dropoff: (c as usize, d as usize) },
                ),
                _ => StdinLine::Usage(Usage::AddCoords),
            };
        }
        return StdinLine::Usage(Usage::Add);
    }
    if word(w, "random") || word(w, "rand") {
        return StdinLine::Command(StdinCmd::RandomTask);
    }
    if word(w, "mass_add") || word(w, "massadd") || word(w, "mass") {
        if n == 2 || n == 3 {
            proof {
                assert(parts@[1]@.subrange(0, parts@[1]@.len() as int) =~= parts@[1]@);
            }
            let count = parse_unsigned_chars(parts[1].as_slice(), 0, u32::MAX as u64);
            if let Some(c) = count {
                if c > 0 {
                    let dropoff_percent = if n == 3 {
                        Some(string_from_chars(&parts[2]))
                    } else {
                        None
                    };
                    return StdinLine::Command(StdinCmd::MassAdd { count: c as u32, dropoff_percent });
                }
            }
        }
        return StdinLine::Usage(Usage::MassAdd);
    }
    if word(w, "cancel") && n == 2 {
        proof {
            assert(parts@[1]@.subrange(0, parts@[1]@.len() as int) =~= parts@[1]@);
        }
        return match parse_unsigned_chars(parts[1].as_slice(), 0, u64::MAX) {
            Some(id) => StdinLine::Command(StdinCmd::CancelTask { task_id: id }),
            None => StdinLine::Usage(Usage::Cancel),
        };
    }
    if word(w, "priority") && n == 3 {
        proof {
            assert(parts@[1]@.subrange(0, parts@[1]@.len() as int) =~= parts@[1]@);
        }
        let id = parse_unsigned_chars(parts[1].as_slice(), 0, u64::MAX);
        let level = level_word(low2);
        return match (id, level) {
            (Some(i), Some(l)) => StdinLine::Command(StdinCmd::SetPriority { task_id: i, priority: l }),
            _ => StdinLine::Usage(Usage::Priority),
        };
    }
    if word(w, "history") || word(w, "hist") {
        return StdinLine::Command(StdinCmd::History);
    }
    if word(w, "help") || word(w, "h") {
        return StdinLine::Command(StdinCmd::Help);
    }
    StdinLine::Usage(Usage::Unknown(string_from_chars(w)))
}

/// The upper-cased argument `i` of a named `add` line; empty otherwise.
pub open spec fn add_name_upper(p: Seq<Seq<char>>, i: int) -> Seq<char> {
    if is_named_add(p) {
        upper_case(p[i])
    } else {
        Seq::empty()
    }
}

/// The lower-cased level word of a `priority` line; empty otherwise.
pub open spec fn level_lower(p: Seq<Seq<char>>) -> Seq<char> {
    if is_priority_line(p) {
        lower_case(p[2])
    } else {
        Seq::empty()
    }
}

/// What a console line asks for. `None` for a named `add` whose upper-cased
/// location name starts with a multi-byte character or whose marker
/// overflows a `usize`, on which the name's parse is undefined.
pub fn parse_stdin_line(line: &str) -> (r: Option<StdinLine>)
    ensures
        r is None <==> is_named_add(tokens(line@)) && !(named_location_safe(add_name_upper(tokens(line@), 1))
            && named_location_safe(add_name_upper(tokens(line@), 2))),
        r matches Some(l) ==> stdin_line_is(
            tokens(line@),
            add_name_upper(tokens(line@), 1),
            add_name_upper(tokens(line@), 2),
            level_lower(tokens(line@)),
            l,
        ),
{
    let raw = chars_of(line);
    let parts = split_tokens(&raw);
    let ghost p = views(parts@);
    let n = parts.len();
    proof {
        assert(forall|k: int| 0 <= k < n ==> #[trigger] p[k] == parts@[k]@);
    }
    let named = n == 3 && word(&parts[0], "add");
    let level_line = n == 3 && word(&parts[0], "priority");
    let up1 = if named {
        to_uppercase(string_from_chars(&parts[1]).as_str())
    } else {
        string_from_chars(&Vec::new())
    };
    let up2 = if named {
        to_uppercase(string_from_chars(&parts[2]).as_str())
    } else {
        string_from_chars(&Vec::new())
    };
    let low2 = if level_line {
        to_lowercase(string_from_chars(&parts[2]).as_str())
    } else {
        string_from_chars(&Vec::new())
    };
    assert(up1@ == add_name_upper(p, 1));
    assert(up2@ == add_name_upper(p, 2));
    assert(low2@ == level_lower(p));
    if named && !(name_is_safe(up1.as_str()) && name_is_safe(up2.as_str())) {
        return None;
    }
    Some(command_from_parts(&parts, up1.as_str(), up2.as_str(), low2.as_str()))
}

/// Whether parsing `name` as a named location is defined.
fn name_is_safe(name: &str) -> (b: bool)
    ensures
        b == named_location_safe(name@),
{
    let c = chars_of(name);
    if c.len() == 0 {
        return true;
    }
    if (c[0] as u32) >= 128 {
        return false;
    }
    if c.len() < 2 || !(c[0] == 'S' || c[0] == 'D') {
        return true;
    }
    assert(c@.subrange(1, c@.len() as int) =~= name@.drop_first());
    match parse_unsigned_chars(c.as_slice(), 1, usize::MAX as u64) {
        None => true,
        Some(v) => if c[0] == 'S' {
            v <= (usize::MAX - 10000) as u64
        } else {
            v <= (usize::MAX - 20000) as u64
        },
    }
}

/// Whether `w` is a command word of the mission control console, which
/// knows a subset of the scheduler's commands.
pub open spec fn mission_word(w: Seq<char>) -> bool {
    w == "status"@ || w == "s"@ || w == "list"@ || w == "map"@ || w == "add"@ || w == "help"@ || w == "h"@
}

/// Whether `w` is a system command word that moved to another service.
pub open spec fn system_word(w: Seq<char>) -> bool {
    w == "pause"@ || w == "resume"@ || w == "reset"@ || w == "kill"@
}

/// The hint for an unknown mission control command word `w`.
pub open spec fn mission_hint(w: Seq<char>, l: StdinLine) -> bool {
    if system_word(w) {
        l matches StdinLine::Usage(Usage::SystemCommand)
    } else {
        l matches StdinLine::Usage(Usage::Unknown(u)) && u@ == w
    }
}

/// What a line typed at the mission control prompt asks for: the
/// scheduler's reading for the commands both know, a hint for system
/// commands, and an unknown command otherwise. `None` exactly where the
/// scheduler's reading is undefined.
pub fn parse_mission_control_line(line: &str) -> (r: Option<StdinLine>)
    ensures
        tokens(line@).len() > 0 && !mission_word(tokens(line@)[0]) ==> (r matches Some(l) && mission_hint(
            tokens(line@)[0],
            l,
        )),
        tokens(line@).len() == 0 || mission_word(tokens(line@)[0]) ==> {
            &&& r is None <==> is_named_add(tokens(line@)) && !(named_location_safe(add_name_upper(tokens(line@), 1))
                && named_location_safe(add_name_upper(tokens(line@), 2)))
            &&& r matches Some(l) ==> stdin_line_is(
                tokens(line@),
                add_name_upper(tokens(line@), 1),
                add_name_upper(tokens(line@), 2),
                level_lower(tokens(line@)),
                l,
            )
        },
{
    let raw = chars_of(line);
    let parts = split_tokens(&raw);
    let ghost p = views(parts@);
    proof {
        assert(forall|k: int| 0 <= k < parts@.len() ==> #[trigger] p[k] == parts@[k]@);
    }
    if parts.len() > 0 {
        let w = &parts[0];
        let known = word(w, "status") || word(w, "s") || word(w, "list") || word(w, "map") || word(w, "add")
            || word(w, "help") || word(w, "h");
        if !known {
            if word(w, "pause") || word(w, "resume") || word(w, "reset") || word(w, "kill") {
                return Some(StdinLine::Usage(Usage::SystemCommand));
            }
            return Some(StdinLine::Usage(Usage::Unknown(string_from_chars(w))));
        }
    }
    parse_stdin_line(line)
}

/// What a line typed at the coordinator's prompt asks for.
#[derive(Debug, Clone, Copy, PartialEq, Eq)]
pub enum CoordinatorLine {
    /// Nothing but whitespace.
    Blank,
    Status,
    /// Send robot `robot_id` to cell `(x, y)`.
    Goto { robot_id: u32, x: usize, y: usize },
    /// A `goto` whose arguments do not parse.
    GotoUsage,
    Help,
    /// A system command, which the orchestrator handles now.
    MovedToOrchestrator,
    Unknown,
}

/// What the coordinator line with tokens `p` asks for; the command word is
/// matched ignoring ASCII case.
pub open spec fn coordinator_line(p: Seq<Seq<char>>) -> CoordinatorLine {
    if p.len() == 0 {
        CoordinatorLine::Blank
    } else {
        let w = lower_seq(p[0]);
        if w == "status"@ || w == "s"@ {
            CoordinatorLine::Status
        } else if (w == "goto"@ || w == "g"@) && p.len() >= 4 {
            match (
                parse_unsigned(p[1], u32::MAX as nat),
                parse_unsigned(p[2], usize::MAX as nat),
                parse_unsigned(p[3], usize::MAX as nat),
            ) {
                (Some(r), Some(x), Some(y)) => CoordinatorLine::Goto { robot_id: r as u32, x: x as usize, y: y as usize },
                _ => CoordinatorLine::GotoUsage,
            }
        } else if w == "help"@ || w == "h"@ || w == "?"@ {
            CoordinatorLine::Help
        } else if w == "pause"@ || w == "resume"@ || w == "reset"@ || w == "kill"@ {
            CoordinatorLine::MovedToOrchestrator
        } else {
            CoordinatorLine::Unknown
        }
    }
}

/// What a line typed at the coordinator's prompt asks for.
pub fn parse_coordinator_line(line: &str) -> (r: CoordinatorLine)
    ensures
        r == coordinator_line(tokens(line@)),
{
    let raw = chars_of(line);
    let parts = split_tokens(&raw);
    let ghost p = views(parts@);
    let n = parts.len();
    proof {
        assert(forall|k: int| 0 <= k < n ==> #[trigger] p[k] == parts@[k]@);
    }
    if n == 0 {
        return CoordinatorLine::Blank;
    }
    let w = lower_chars(&parts[0]);
    if word(&w, "status") || word(&w, "s") {
        return CoordinatorLine::Status;
    }
    if (word(&w, "goto") || word(&w, "g")) && n >= 4 {
        proof {
            assert(parts@[1]@.subrange(0, parts@[1]@.len() as int) =~= parts@[1]@);
            assert(parts@[2]@.subrange(0, parts@[2]@.len() as int) =~= parts@[2]@);
            assert(parts@[3]@.subrange(0, parts@[3]@.len() as int) =~= parts@[3]@);
        }
        let r = parse_unsigned_chars(parts[1].as_slice(), 0, u32::MAX as u64);
        let x = parse_unsigned_chars(parts[2].as_slice(), 0, usize::MAX as u64);
        let y = parse_unsigned_chars(parts[3].as_slice(), 0, usize::MAX as u64);
        return match (r, x, y) {
            (Some(r), Some(x), Some(y)) => CoordinatorLine::Goto { robot_id: r as u32, x: x as usize, y: y as usize },
            _ => CoordinatorLine::GotoUsage,
        };
    }
    if word(&w, "help") || word(&w, "h") || word(&w, "?") {
        return CoordinatorLine::Help;
    }
    if word(&w, "pause") || word(&w, "resume") || word(&w, "reset") || word(&w, "kill") {
        return CoordinatorLine::MovedToOrchestrator;
    }
    CoordinatorLine::Unknown
}

/// The level words name their own priority: `low`/`l` and only they give
/// low, `normal`/`n` normal, `high`/`h` high, `critical`/`c` critical, and
/// every other word none.
pub proof fn law_level_words_name_their_priority(w: Seq<char>)
    ensures
        level_of(w) == Some(Priority::Low) <==> (w == "low"@ || w == "l"@),
        level_of(w) == Some(Priority::Normal) <==> (w == "normal"@ || w == "n"@),
        level_of(w) == Some(Priority::High) <==> (w == "high"@ || w == "h"@),
        level_of(w) == Some(Priority::Critical) <==> (w == "critical"@ || w == "c"@),
        level_of(w) is None <==> !(w == "low"@ || w == "l"@ || w == "normal"@ || w == "n"@ || w == "high"@ || w
            == "h"@ || w == "critical"@ || w == "c"@),
{
    reveal_strlit("low");
    reveal_strlit("l");
    reveal_strlit("normal");
    reveal_strlit("n");
    reveal_strlit("high");
    reveal_strlit("h");
    reveal_strlit("critical");
    reveal_strlit("c");
    assert("low"@ != "l"@ && "low"@ != "normal"@ && "low"@ != "n"@ && "low"@ != "high"@ && "low"@ != "h"@ && "low"@
        != "critical"@ && "low"@ != "c"@) by {
        assert("low"@.len() == 3);
        assert("normal"@[0] != "low"@[0]);
        assert("high"@[0] != "low"@[0]);
        assert("critical"@[0] != "low"@[0]);
    }
    assert("l"@ != "normal"@ && "l"@ != "n"@ && "l"@ != "high"@ && "l"@ != "h"@ && "l"@ != "critical"@ && "l"@
        != "c"@) by {
        assert("n"@[0] != "l"@[0]);
        assert("h"@[0] != "l"@[0]);
        assert("c"@[0] != "l"@[0]);
    }
    assert("normal"@ != "n"@ && "normal"@ != "high"@ && "normal"@ != "h"@ && "normal"@ != "critical"@ && "normal"@
        != "c"@) by {
        assert("normal"@.len() == 6 && "n"@.len() == 1 && "h"@.len() == 1 && "c"@.len() == 1);
        assert("high"@[0] != "normal"@[0]);
        assert("critical"@[0] != "normal"@[0]);
    }
    assert("n"@ != "high"@ && "n"@ != "h"@ && "n"@ != "critical"@ && "n"@ != "c"@) by {
        assert("h"@[0] != "n"@[0]);
        assert("c"@[0] != "n"@[0]);
    }
    assert("high"@ != "h"@ && "high"@ != "critical"@ && "high"@ != "c"@) by {
        assert("high"@.len() == 4 && "h"@.len() == 1 && "c"@.len() == 1);
        assert("critical"@[0] != "high"@[0]);
    }
    assert("h"@ != "critical"@ && "h"@ != "c"@) by {
        assert("c"@[0] != "h"@[0]);
    }
    assert("critical"@ != "c"@) by {
        assert("critical"@.len() == 8 && "c"@.len() == 1);
    }
}

} // verus!
