//! Merging the services' log files into one chronological log: how a log
//! line is read, how entries are ordered by time, and how repeated
//! firmware command logs are dropped.
use vstd::prelude::*;
use crate::layout::{seq_lt, chars_less, lemma_seq_lt_trans, lemma_seq_lt_asym};
use crate::text::{
    chars_of, chars_equal, push_all, string_from_chars, tokens, split_tokens, views, parse_unsigned, parse_unsigned_chars,
    lower_case, to_lowercase,
};

verus! {

/// One entry of the merged log: the time stamp it sorts by, the merged
/// line and the label of the service that wrote it.
#[derive(Debug, Clone)]
pub struct LogEntry {
    pub timestamp: String,
    pub line: String,
    pub label: String,
}

/// The views of a log entry.
pub open spec fn entry_view(e: LogEntry) -> (Seq<char>, Seq<char>, Seq<char>) {
    (e.timestamp@, e.line@, e.label@)
}

/// The views of a sequence of log entries.
pub open spec fn entries_view(es: Seq<LogEntry>) -> Seq<(Seq<char>, Seq<char>, Seq<char>)> {
    es.map_values(|e: LogEntry| entry_view(e))
}

/// ASCII upper-casing of one character (`char::to_ascii_uppercase`).
pub open spec fn upper(c: char) -> char {
    if 'a' <= c && c <= 'z' {
        ((c as u32) - 32) as char
    } else {
        c
    }
}

/// The label of a service's log file stem: the stem with its first letter
/// upper-cased (`scheduler` gives `Scheduler`).
pub open spec fn label_of(stem: Seq<char>) -> Seq<char> {
    seq![upper(stem[0])] + stem.drop_first()
}

/// The label of the service whose log file has stem `stem`. The stem is
/// sliced after its first byte, so it must start with an ASCII character.
pub fn crate_label(stem: &str) -> (s: String)
    requires
        stem@.len() > 0,
        (stem@[0] as u32) < 128,
    ensures
        s@ == label_of(stem@),
{
    let c = chars_of(stem);
    let first = c[0];
    let up: char = if 'a' <= first && first <= 'z' {
        let code: u32 = (first as u32) - 32;
        let b: u8 = code as u8;
        b as char
    } else {
        first
    };
    assert(up == upper(first));
    let mut v: Vec<char> = Vec::new();
    v.push(up);
    let mut i: usize = 1;
    while i < c.len()
        invariant
            1 <= i <= c@.len(),
            c@ == stem@,
            v@ == seq![upper(c@[0])] + c@.subrange(1, i as int),
        decreases c@.len() - i,
    {
        v.push(c[i]);
        i = i + 1;
        assert(v@ =~= seq![upper(c@[0])] + c@.subrange(1, i as int));
    }
    assert(c@.subrange(1, c@.len() as int) =~= stem@.drop_first());
    string_from_chars(&v)
}

/// Whether the logs of the service labelled `label` stay out of the merged
/// log (its lower-cased label is `firmware`).
pub fn is_excluded_label(label: &str) -> (b: bool)
    ensures
        b == (lower_case(label@) == "firmware"@),
{
    let low = to_lowercase(label);
    let l = chars_of(low.as_str());
    let f = chars_of("firmware");
    chars_equal(l.as_slice(), f.as_slice())
}

/// Index of the first `]` of `l` after its first character.
pub open spec fn close_index(l: Seq<char>) -> Option<int>
    decreases l.len(),
{
    if l.len() <= 1 {
        None
    } else {
        match close_index(l.drop_last()) {
            Some(j) => Some(j),
            None => if l.last() == ']' {
                Some(l.len() - 1)
            } else {
                None
            },
        }
    }
}

/// Whether reading log line `l` is defined: the character after its
/// closing bracket, when there is one, is ASCII (the message starts two
/// bytes after the bracket).
pub open spec fn log_line_safe(l: Seq<char>) -> bool {
    l.len() > 0 && l[0] == '[' ==> match close_index(l) {
        Some(j) => j + 1 < l.len() ==> (l[j + 1] as u32) < 128,
        None => true,
    }
}

/// What log line `l` of the service labelled `label` gives: for a line
/// `[<time>] <message>`, the time and the merged line
/// `[<time>] <label> <message>`; nothing for other lines.
pub open spec fn read_log_line(l: Seq<char>, label: Seq<char>) -> Option<(Seq<char>, Seq<char>)> {
    if l.len() == 0 || l[0] != '[' {
        None
    } else {
        match close_index(l) {
            None => None,
            Some(j) => {
                let ts = l.subrange(1, j);
                let msg = if j + 2 <= l.len() {
                    l.subrange(j + 2, l.len() as int)
                } else {
                    Seq::empty()
                };
                Some((ts, "["@ + ts + "] "@ + label + " "@ + msg))
            },
        }
    }
}

proof fn lemma_close_index_bounds(l: Seq<char>)
    ensures
        close_index(l) matches Some(j) ==> 1 <= j < l.len() && l[j] == ']' && forall|k: int| 1 <= k < j ==> l[k] != ']',
        close_index(l) is None ==> forall|k: int| 1 <= k < l.len() ==> l[k] != ']',
    decreases l.len(),
{
    if l.len() > 1 {
        lemma_close_index_bounds(l.drop_last());
        assert forall|k: int| 1 <= k < l.len() - 1 implies l[k] == l.drop_last()[k] by {}
    }
}

/// Read a line of the log file of the service labelled `label`.
pub fn parse_log_line(line: &str, label: &str) -> (r: Option<LogEntry>)
    requires
        log_line_safe(line@),
    ensures
        match read_log_line(line@, label@) {
            None => r is None,
            Some((ts, merged)) => r matches Some(e) && e.timestamp@ == ts && e.line@ == merged && e.label@ == label@,
        },
{
    let l = chars_of(line);
    proof {
        lemma_close_index_bounds(l@);
    }
    if l.len() == 0 || l[0] != '[' {
        return None;
    }
    let mut j: usize = 1;
    while j < l.len() && l[j] != ']'
        invariant
            1 <= j <= l@.len(),
            forall|k: int| 1 <= k < j ==> l@[k] != ']',
        decreases l@.len() - j,
    {
        j = j + 1;
    }
    if j == l.len() {
        return None;
    }
    assert(close_index(l@) == Some(j as int));
    let mut ts: Vec<char> = Vec::new();
    let mut i: usize = 1;
    while i < j
        invariant
            1 <= i <= j < l@.len(),
            ts@ == l@.subrange(1, i as int),
        decreases j - i,
    {
        ts.push(l[i]);
        i = i + 1;
        assert(ts@ =~= l@.subrange(1, i as int));
    }
    let m0: usize = if j + 1 < l.len() {
        j + 2
    } else {
        l.len()
    };
    let mut msg: Vec<char> = Vec::new();
    let mut k: usize = m0;
    while k < l.len()
        invariant
            m0 <= k <= l@.len(),
            msg@ == l@.subrange(m0 as int, k as int),
        decreases l@.len() - k,
    {
        msg.push(l[k]);
        k = k + 1;
        assert(msg@ =~= l@.subrange(m0 as int, k as int));
    }
    let mut out: Vec<char> = Vec::new();
    out.push('[');
    push_all(&mut out, &ts);
    push_all(&mut out, &chars_of("] "));
    push_all(&mut out, &chars_of(label));
    push_all(&mut out, &chars_of(" "));
    push_all(&mut out, &msg);
    proof {
        if j + 2 > l@.len() {
            assert(msg@ =~= Seq::<char>::empty());
        }
        reveal_strlit("[");
        assert(seq!['['] =~= "["@);
    }
    Some(LogEntry { timestamp: string_from_chars(&ts), line: string_from_chars(&out), label: label.to_owned() })
}

/// The position at which an entry stamped `ts` goes into `out`: after
/// every entry stamped no later.
pub open spec fn insert_pos(out: Seq<(Seq<char>, Seq<char>, Seq<char>)>, ts: Seq<char>) -> int
    decreases out.len(),
{
    if out.len() == 0 {
        0
    } else if seq_lt(ts, out.last().0) {
        insert_pos(out.drop_last(), ts)
    } else {
        out.len() as int
    }
}

/// The entries `es` ordered by time stamp, entries with equal stamps in
/// their original order (a stable sort by stamp).
pub open spec fn time_sorted(es: Seq<(Seq<char>, Seq<char>, Seq<char>)>) -> Seq<(Seq<char>, Seq<char>, Seq<char>)>
    decreases es.len(),
{
    if es.len() == 0 {
        Seq::empty()
    } else {
        let out = time_sorted(es.drop_last());
        out.insert(insert_pos(out, es.last().0), es.last())
    }
}

/// Whether `s` is ordered by time stamp.
pub open spec fn stamps_ordered(s: Seq<(Seq<char>, Seq<char>, Seq<char>)>) -> bool {
    forall|i: int, j: int| 0 <= i < j < s.len() ==> !seq_lt(#[trigger] s[j].0, #[trigger] s[i].0)
}

proof fn lemma_insert_pos(out: Seq<(Seq<char>, Seq<char>, Seq<char>)>, ts: Seq<char>)
    requires
        stamps_ordered(out),
    ensures
        0 <= insert_pos(out, ts) <= out.len(),
        forall|i: int| 0 <= i < insert_pos(out, ts) ==> !seq_lt(ts, #[trigger] out[i].0),
        forall|i: int| insert_pos(out, ts) <= i < out.len() ==> seq_lt(ts, #[trigger] out[i].0),
    decreases out.len(),
{
    if out.len() > 0 {
        let d = out.drop_last();
        assert forall|i: int, j: int| 0 <= i < j < d.len() implies !seq_lt(#[trigger] d[j].0, #[trigger] d[i].0) by {
            assert(d[i] == out[i] && d[j] == out[j]);
        }
        lemma_insert_pos(d, ts);
        if seq_lt(ts, out.last().0) {
            assert forall|i: int| 0 <= i < insert_pos(out, ts) implies !seq_lt(ts, #[trigger] out[i].0) by {
                assert(out[i] == d[i]);
            }
            assert forall|i: int| insert_pos(out, ts) <= i < out.len() implies seq_lt(ts, #[trigger] out[i].0) by {
                if i < out.len() - 1 {
                    assert(out[i] == d[i]);
                }
            }
        } else {
            assert forall|i: int| 0 <= i < insert_pos(out, ts) implies !seq_lt(ts, #[trigger] out[i].0) by {
                if i < out.len() - 1 {
                    assert(out[i] == d[i]);
                    if seq_lt(ts, out[i].0) {
                        // out[i] is no later than the last entry
                        assert(!seq_lt(out.last().0, out[i].0));
                        lemma_total_or_lt(out[i].0, out.last().0);
                        if seq_lt(out[i].0, out.last().0) {
                            lemma_seq_lt_trans(ts, out[i].0, out.last().0);
                        }
                    }
                }
            }
        }
    }
}

/// Two texts are equal or one sorts before the other.
proof fn lemma_total_or_lt(a: Seq<char>, b: Seq<char>)
    ensures
        a == b || seq_lt(a, b) || seq_lt(b, a),
    decreases a.len(),
{
    if a.len() == 0 && b.len() == 0 {
        assert(a =~= b);
    } else if a.len() == 0 || b.len() == 0 {
    } else if a[0] != b[0] {

    } else {
        lemma_total_or_lt(a.drop_first(), b.drop_first());
        if a.drop_first() == b.drop_first() {
            assert forall|k: int| 0 <= k < a.len() implies a[k] == b[k] by {
                if k > 0 {
                    assert(a[k] == a.drop_first()[k - 1]);
                    assert(b[k] == b.drop_first()[k - 1]);
                }
            }
            assert(a =~= b);
        } else {
            assert(seq_lt(a, b) == seq_lt(a.drop_first(), b.drop_first()));
            assert(seq_lt(b, a) == seq_lt(b.drop_first(), a.drop_first()));
        }
    }
}

proof fn lemma_insert_keeps_order(out: Seq<(Seq<char>, Seq<char>, Seq<char>)>, e: (Seq<char>, Seq<char>, Seq<char>))
    requires
        stamps_ordered(out),
    ensures
        stamps_ordered(out.insert(insert_pos(out, e.0), e)),
{
    lemma_insert_pos(out, e.0);
    let p = insert_pos(out, e.0);
    let s = out.insert(p, e);
    assert forall|i: int, j: int| 0 <= i < j < s.len() implies !seq_lt(#[trigger] s[j].0, #[trigger] s[i].0) by {
        if j < p {
            assert(s[i] == out[i] && s[j] == out[j]);
        } else if j == p {
            assert(s[i] == out[i]);
        } else if i < p {
            assert(s[i] == out[i] && s[j] == out[j - 1]);
            if seq_lt(s[j].0, s[i].0) {
                // out[i] <= e < out[j - 1]
                lemma_seq_lt_trans(e.0, out[j - 1].0, out[i].0);
            }
        } else if i == p {
            assert(s[j] == out[j - 1]);
            lemma_seq_lt_asym(e.0, out[j - 1].0);
        } else {
            assert(s[i] == out[i - 1] && s[j] == out[j - 1]);
        }
    }
}

/// `time_sorted` orders entries by time stamp.
pub proof fn lemma_time_sorted_ordered(es: Seq<(Seq<char>, Seq<char>, Seq<char>)>)
    ensures
        stamps_ordered(time_sorted(es)),
        time_sorted(es).len() == es.len(),
    decreases es.len(),
{
    if es.len() > 0 {
        lemma_time_sorted_ordered(es.drop_last());
        lemma_insert_keeps_order(time_sorted(es.drop_last()), es.last());
        lemma_insert_pos(time_sorted(es.drop_last()), es.last().0);
    }
}

/// Merging logs loses no entry and orders them by time: the time-ordered
/// entries are the given entries, rearranged, and no entry follows one
/// stamped later.
pub proof fn law_merge_keeps_every_entry_in_time_order(es: Seq<(Seq<char>, Seq<char>, Seq<char>)>)
    ensures
        time_sorted(es).to_multiset() == es.to_multiset(),
        stamps_ordered(time_sorted(es)),
    decreases es.len(),
{
    lemma_time_sorted_ordered(es);
    if es.len() > 0 {
        law_merge_keeps_every_entry_in_time_order(es.drop_last());
        let out = time_sorted(es.drop_last());
        lemma_insert_pos(out, es.last().0);
        let p = insert_pos(out, es.last().0);
        vstd::seq_lib::to_multiset_insert(out, p, es.last());
        vstd::seq_lib::to_multiset_build(es.drop_last(), es.last());
        assert(es.drop_last().push(es.last()) =~= es);
        assert(time_sorted(es) == out.insert(p, es.last()));
        assert(time_sorted(es).to_multiset() == out.to_multiset().insert(es.last()));
        assert(es.to_multiset() == es.drop_last().to_multiset().insert(es.last()));
    } else {
        assert(es =~= Seq::<(Seq<char>, Seq<char>, Seq<char>)>::empty());
    }
}

/// The entries ordered by time stamp; entries with equal stamps keep
/// their order.
pub fn sort_by_time(entries: Vec<LogEntry>) -> (s: Vec<LogEntry>)
    ensures
        entries_view(s@) == time_sorted(entries_view(entries@)),
        stamps_ordered(entries_view(s@)),
{
    let ghost ev = entries_view(entries@);
    let ghost total = entries@;
    let mut rest = entries;
    let mut out: Vec<LogEntry> = Vec::new();
    let mut stamps: Vec<Vec<char>> = Vec::new();
    let mut i: usize = 0;
    let n = rest.len();
    assert(total.skip(0) =~= total);
    while rest.len() > 0
        invariant
            total.len() == n,
            rest@ == total.skip(i as int),
            i <= total.len(),
            i + rest@.len() == total.len(),
            entries_view(out@) == time_sorted(entries_view(total.take(i as int))),
            views(stamps@) == entries_view(out@).map_values(|t: (Seq<char>, Seq<char>, Seq<char>)| t.0),
            out@.len() == stamps@.len(),
            ev == entries_view(total),
        decreases rest@.len(),
    {
        let ghost before = entries_view(out@);
        let e = rest.remove(0);
        assert(e == total[i as int]);
        let ts = chars_of(e.timestamp.as_str());
        let mut p: usize = out.len();
        assert(before.take(p as int) =~= before);
        while p > 0 && chars_less(&ts, &stamps[p - 1])
            invariant
                p <= out@.len(),
                out@.len() == stamps@.len(),
                views(stamps@) == before.map_values(|t: (Seq<char>, Seq<char>, Seq<char>)| t.0),
                before == entries_view(out@),
                insert_pos(before, ts@) == insert_pos(before.take(p as int), ts@),
            decreases p,
        {
            assert(views(stamps@)[p - 1] == stamps@[p - 1]@);
            assert(before.take(p as int).drop_last() =~= before.take(p - 1));
            p = p - 1;
        }
        proof {
            if p > 0 {
                assert(views(stamps@)[p - 1] == stamps@[p - 1]@);
            }
            assert(insert_pos(before.take(p as int), ts@) == p);
        }
        let ghost old_stamps = stamps@;
        let ghost tsv = ts@;
        stamps.insert(p, ts);
        out.insert(p, e);
        proof {
            assert(views(stamps@) =~= views(old_stamps).insert(p as int, tsv));
            assert(before.insert(p as int, entry_view(e)).map_values(|t: (Seq<char>, Seq<char>, Seq<char>)| t.0)
                =~= before.map_values(|t: (Seq<char>, Seq<char>, Seq<char>)| t.0).insert(p as int, tsv));
            assert(total.take(i + 1).drop_last() =~= total.take(i as int));
            let s1 = entries_view(total.take(i + 1));
            assert(s1.drop_last() =~= entries_view(total.take(i as int)));
            assert(s1.last() == entry_view(e));
            assert(insert_pos(before, tsv) == p);
            assert(time_sorted(s1) == before.insert(p as int, entry_view(e)));
            assert(entries_view(out@) =~= before.insert(p as int, entry_view(e)));
            assert(views(stamps@) =~= entries_view(out@).map_values(|t: (Seq<char>, Seq<char>, Seq<char>)| t.0));
            assert(rest@ =~= total.skip(i + 1));
        }
        i = i + 1;
    }
    proof {
        assert(total.take(i as int) =~= total);
        lemma_time_sorted_ordered(ev);
    }
    out
}

/// The first index from `i` on at which `w` occurs in `s`.
pub open spec fn find_from(s: Seq<char>, w: Seq<char>, i: int) -> Option<int>
    decreases s.len() + 1 - i,
{
    if i < 0 || i + w.len() > s.len() {
        None
    } else if s.subrange(i, i + w.len()) == w {
        Some(i)
    } else {
        find_from(s, w, i + 1)
    }
}

/// The first index at which `w` occurs in `s` (`str::find`).
pub open spec fn find(s: Seq<char>, w: Seq<char>) -> Option<int> {
    find_from(s, w, 0)
}

/// The robot a firmware log line names: the number in the first word
/// after `Robot `.
pub open spec fn robot_of(line: Seq<char>) -> Option<nat> {
    match find(line, "Robot "@) {
        Some(i) => {
            let t = tokens(line.subrange(i + "Robot "@.len(), line.len() as int));
            if t.len() > 0 {
                parse_unsigned(t[0], u32::MAX as nat)
            } else {
                None
            }
        },
        None => None,
    }
}

/// The robot and command of a firmware command log entry: the robot the
/// line names and the line from `executed command:` on.
pub open spec fn firmware_key(e: (Seq<char>, Seq<char>, Seq<char>)) -> Option<(u32, Seq<char>)> {
    if e.2 == "Firmware"@ {
        match (find(e.1, "executed command:"@), robot_of(e.1)) {
            (Some(k), Some(r)) => Some((r as u32, e.1.subrange(k, e.1.len() as int))),
            _ => None,
        }
    } else {
        None
    }
}

/// Index of the first entry of robot `r` in the per-robot command list.
pub open spec fn cmd_index(st: Seq<(u32, Seq<char>)>, r: u32) -> Option<int>
    decreases st.len(),
{
    if st.len() == 0 {
        None
    } else {
        match cmd_index(st.drop_last(), r) {
            Some(i) => Some(i),
            None => if st.last().0 == r {
                Some(st.len() - 1)
            } else {
                None
            },
        }
    }
}

/// The last command logged for robot `r`.
pub open spec fn last_cmd(st: Seq<(u32, Seq<char>)>, r: u32) -> Option<Seq<char>> {
    match cmd_index(st, r) {
        Some(i) => Some(st[i].1),
        None => None,
    }
}

/// The per-robot command list with robot `r`'s last command set to `k`.
pub open spec fn set_cmd(st: Seq<(u32, Seq<char>)>, r: u32, k: Seq<char>) -> Seq<(u32, Seq<char>)> {
    match cmd_index(st, r) {
        Some(i) => st.update(i, (r, k)),
        None => st.push((r, k)),
    }
}

/// The merged lines of `es` with repeated firmware commands dropped, and
/// the last command seen per robot: a firmware command log is dropped when
/// it repeats the last command logged for the same robot.
pub open spec fn dedup_fold(es: Seq<(Seq<char>, Seq<char>, Seq<char>)>) -> (Seq<Seq<char>>, Seq<(u32, Seq<char>)>)
    decreases es.len(),
{
    if es.len() == 0 {
        (Seq::empty(), Seq::empty())
    } else {
        let (out, st) = dedup_fold(es.drop_last());
        let e = es.last();
        match firmware_key(e) {
            Some((r, key)) => if last_cmd(st, r) == Some(key) {
                (out, st)
            } else {
                (out.push(e.1), set_cmd(st, r, key))
            },
            None => (out.push(e.1), st),
        }
    }
}

/// The lines of the merged log for the time-ordered entries `es`.
pub open spec fn merged_lines(es: Seq<(Seq<char>, Seq<char>, Seq<char>)>) -> Seq<Seq<char>> {
    dedup_fold(es).0
}

proof fn lemma_find_from(s: Seq<char>, w: Seq<char>, i: int)
    requires
        0 <= i,
    ensures
        find_from(s, w, i) matches Some(k) ==> i <= k && k + w.len() <= s.len() && s.subrange(k, k + w.len()) == w,
    decreases s.len() + 1 - i,
{
    if i + w.len() <= s.len() && s.subrange(i, i + w.len()) != w {
        lemma_find_from(s, w, i + 1);
    }
}

/// The first index at which `w` occurs in `s`.
fn find_chars(s: &Vec<char>, w: &Vec<char>) -> (r: Option<usize>)
    ensures
        r matches Some(k) ==> find(s@, w@) == Some(k as int),
        r is None ==> find(s@, w@) is None,
{
    let n = s.len();
    let m = w.len();
    if m > n {
        return None;
    }
    let mut i: usize = 0;
    while i <= n - m
        invariant
            n == s@.len(),
            m == w@.len(),
            m <= n,
            i <= n - m + 1,
            find(s@, w@) == find_from(s@, w@, i as int),
        decreases n - i,
    {
        let mut j: usize = 0;
        let mut same = true;
        while j < m
            invariant
                i + m <= n,
                n == s@.len(),
                m == w@.len(),
                j <= m,
                same == (forall|k: int| 0 <= k < j ==> s@[i + k] == w@[k]),
            decreases m - j,
        {
            if s[i + j] != w[j] {
                same = false;
            }
            j = j + 1;
        }
        if same {
            assert(s@.subrange(i as int, i + m) =~= w@);
            return Some(i);
        }
        assert(s@.subrange(i as int, i + m) != w@) by {
            let k = choose|k: int| 0 <= k < m && s@[i + k] != w@[k];
            assert(s@.subrange(i as int, i + m)[k] == s@[i + k]);
        }
        i = i + 1;
    }
    None
}

/// The characters of `s` from index `from` on.
fn chars_from(s: &Vec<char>, from: usize) -> (v: Vec<char>)
    requires
        from <= s@.len(),
    ensures
        v@ == s@.subrange(from as int, s@.len() as int),
{
    let mut v: Vec<char> = Vec::new();
    let mut i: usize = from;
    while i < s.len()
        invariant
            from <= i <= s@.len(),
            v@ == s@.subrange(from as int, i as int),
        decreases s@.len() - i,
    {
        v.push(s[i]);
        i = i + 1;
        assert(v@ =~= s@.subrange(from as int, i as int));
    }
    v
}

/// The robot a firmware log line names.
fn robot_in_line(line: &Vec<char>) -> (r: Option<u32>)
    ensures
        r matches Some(v) ==> robot_of(line@) == Some(v as nat),
        r is None ==> robot_of(line@) is None,
{
    let key = chars_of("Robot ");
    match find_chars(line, &key) {
        Some(i) => {
            proof {
                lemma_find_from(line@, key@, 0);
                assert(find_from(line@, key@, 0) == Some(i as int));
                assert(i + key@.len() <= line@.len());
            }
            let n = line.len();
            let kl = key.len();
            assert(i + kl <= n);
            let rest = chars_from(line, i + kl);
            let t = split_tokens(&rest);
            if t.len() > 0 {
                proof {
                    assert(views(t@)[0] == t@[0]@);
                    assert(t@[0]@.subrange(0, t@[0]@.len() as int) =~= t@[0]@);
                }
                match parse_unsigned_chars(t[0].as_slice(), 0, u32::MAX as u64) {
                    Some(v) => Some(v as u32),
                    None => None,
                }
            } else {
                None
            }
        },
        None => None,
    }
}

/// The robot and command of a firmware command log entry.
fn firmware_key_of(e: &LogEntry) -> (r: Option<(u32, Vec<char>)>)
    ensures
        match firmware_key(entry_view(*e)) {
            Some((rid, k)) => r matches Some((x, v)) && x == rid && v@ == k,
            None => r is None,
        },
{
    let label = chars_of(e.label.as_str());
    let fw = chars_of("Firmware");
    if !chars_equal(label.as_slice(), fw.as_slice()) {
        return None;
    }
    let line = chars_of(e.line.as_str());
    let marker = chars_of("executed command:");
    match find_chars(&line, &marker) {
        Some(k) => {
            proof {
                lemma_find_from(line@, marker@, 0);
            }
            match robot_in_line(&line) {
                Some(r) => Some((r, chars_from(&line, k))),
                None => None,
            }
        },
        None => None,
    }
}

/// The views of a per-robot command list.
pub open spec fn cmds_view(st: Seq<(u32, Vec<char>)>) -> Seq<(u32, Seq<char>)> {
    st.map_values(|p: (u32, Vec<char>)| (p.0, p.1@))
}

/// Index of the first entry of robot `r`.
fn find_cmd(st: &Vec<(u32, Vec<char>)>, r: u32) -> (i: Option<usize>)
    ensures
        i matches Some(k) ==> cmd_index(cmds_view(st@), r) == Some(k as int) && k < st@.len(),
        i is None ==> cmd_index(cmds_view(st@), r) is None,
{
    let ghost v = cmds_view(st@);
    let mut i: usize = 0;
    while i < st.len()
        invariant
            i <= st@.len(),
            v == cmds_view(st@),
            cmd_index(v.take(i as int), r) is None,
        decreases st@.len() - i,
    {
        assert(v.take(i + 1).drop_last() =~= v.take(i as int));
        if st[i].0 == r {
            proof {
                assert(cmd_index(v.take(i + 1), r) == Some(i as int));
                lemma_cmd_index_prefix(v, i + 1, r);
            }
            return Some(i);
        }
        i = i + 1;
    }
    assert(v.take(i as int) =~= v);
    None
}

proof fn lemma_cmd_index_prefix(st: Seq<(u32, Seq<char>)>, k: int, r: u32)
    requires
        0 <= k <= st.len(),
        cmd_index(st.take(k), r) is Some,
    ensures
        cmd_index(st, r) == cmd_index(st.take(k), r),
    decreases st.len() - k,
{
    if k < st.len() {
        assert(st.take(k + 1).drop_last() =~= st.take(k));
        lemma_cmd_index_prefix(st, k + 1, r);
    } else {
        assert(st.take(k) =~= st);
    }
}

proof fn lemma_cmd_index_bounds(st: Seq<(u32, Seq<char>)>, r: u32)
    ensures
        cmd_index(st, r) matches Some(i) ==> 0 <= i < st.len() && st[i].0 == r,
    decreases st.len(),
{
    if st.len() > 0 {
        lemma_cmd_index_bounds(st.drop_last(), r);
    }
}

/// The lines of the merged log for the time-ordered entries, with each
/// firmware command log that repeats its robot's last command dropped.
pub fn dedup_firmware_lines(entries: &Vec<LogEntry>) -> (lines: Vec<String>)
    ensures
        lines@.map_values(|s: String| s@) == merged_lines(entries_view(entries@)),
{
    let ghost ev = entries_view(entries@);
    let mut out: Vec<String> = Vec::new();
    let mut st: Vec<(u32, Vec<char>)> = Vec::new();
    let mut i: usize = 0;
    while i < entries.len()
        invariant
            i <= entries@.len(),
            ev == entries_view(entries@),
            (out@.map_values(|s: String| s@), cmds_view(st@)) == dedup_fold(ev.take(i as int)),
        decreases entries@.len() - i,
    {
        let e = &entries[i];
        let ghost prev_out = out@.map_values(|s: String| s@);
        let ghost prev_st = cmds_view(st@);
        assert(ev.take(i + 1).drop_last() =~= ev.take(i as int));
        assert(ev.take(i + 1).last() == entry_view(*e));
        match firmware_key_of(e) {
            Some((r, key)) => {
                proof {
                    lemma_cmd_index_bounds(prev_st, r);
                }
                let repeated = match find_cmd(&st, r) {
                    Some(k) => {
                        assert(cmds_view(st@)[k as int] == (st@[k as int].0, st@[k as int].1@));
                        chars_equal(st[k].1.as_slice(), key.as_slice())
                    },
                    None => false,
                };
                if !repeated {
                    out.push(e.line.clone());
                    let ghost kv = key@;
                    match find_cmd(&st, r) {
                        Some(k) => {
                            st.set(k, (r, key));
                            assert(cmds_view(st@) =~= prev_st.update(k as int, (r, kv)));
                        },
                        None => {
                            st.push((r, key));
                            assert(cmds_view(st@) =~= prev_st.push((r, kv)));
                        },
                    }
                    assert(out@.map_values(|s: String| s@) =~= prev_out.push(e.line@));
                }
            },
            None => {
                out.push(e.line.clone());
                assert(out@.map_values(|s: String| s@) =~= prev_out.push(e.line@));
            },
        }
        i = i + 1;
    }
    assert(ev.take(i as int) =~= ev);
    out
}

} // verus!
