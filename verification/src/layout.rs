//! Layout files: which files of the layouts directory are layouts, their
//! order, how a user's selector picks one, and which layout is active.
use vstd::prelude::*;
use crate::text::{chars_of, chars_equal, trim, trim_chars, lower_seq, lower_chars, parse_unsigned, parse_unsigned_chars, string_from_chars};

verus! {

broadcast use vstd::seq_lib::group_to_multiset_ensures;

/// Default warehouse layout file, relative to the workspace root.
pub const LAYOUT_FILE_PATH: &'static str = "assets/layouts/l1_basic_small.layout";

/// Directory holding the discoverable layout files.
pub const LAYOUTS_DIR: &'static str = "assets/layouts";

/// Extension of layout files.
pub const LAYOUT_FILE_EXTENSION: &'static str = "layout";

/// Environment variable that overrides the active layout.
pub const LAYOUT_OVERRIDE_ENV: &'static str = "TESSERA_LAYOUT";

/// A discoverable layout file.
#[derive(Debug, Clone, PartialEq, Eq)]
pub struct LayoutEntry {
    pub file_name: String,
    pub stem: String,
    pub path: String,
}

/// Whether two texts are equal ignoring ASCII letter case.
pub open spec fn eq_ignore_case(a: Seq<char>, b: Seq<char>) -> bool {
    lower_seq(a) == lower_seq(b)
}

/// Whether `e` is selected by the lower-cased selector `n` by name: its
/// stem or its file name equal `n` ignoring case.
pub open spec fn named_by(e: LayoutEntry, n: Seq<char>) -> bool {
    eq_ignore_case(e.stem@, n) || eq_ignore_case(e.file_name@, n)
}

/// The path a selector picks among `entries`: the selector is trimmed and
/// lower-cased; a number `i` picks the `i`-th entry (from 1); otherwise
/// the first entry named by it.
pub open spec fn selected(entries: Seq<LayoutEntry>, selector: Seq<char>, r: Option<String>) -> bool {
    let n = lower_seq(trim(selector));
    let idx = parse_unsigned(n, usize::MAX as nat);
    if n.len() == 0 {
        r is None
    } else if idx is Some && 1 <= idx->Some_0 <= entries.len() {
        r matches Some(p) && p@ == entries[idx->Some_0 - 1].path@
    } else {
        match r {
            Some(p) => exists|j: int|
                0 <= j < entries.len() && #[trigger] named_by(entries[j], n) && p@ == entries[j].path@ && forall|k: int|
                    0 <= k < j ==> !named_by(#[trigger] entries[k], n),
            None => forall|j: int| 0 <= j < entries.len() ==> !named_by(#[trigger] entries[j], n),
        }
    }
}

/// Whether `a` and `b` are equal ignoring ASCII letter case.
fn eq_ignore_ascii_case(a: &String, b: &Vec<char>) -> (r: bool)
    ensures
        r == eq_ignore_case(a@, b@),
{
    let x = lower_chars(&chars_of(a.as_str()));
    let y = lower_chars(b);
    chars_equal(x.as_slice(), y.as_slice())
}

/// The layout path that `selector` picks among `entries`, if any.
pub fn select_layout_path(entries: &[LayoutEntry], selector: &str) -> (r: Option<String>)
    ensures
        selected(entries@, selector@, r),
{
    let raw = chars_of(selector);
    let trimmed = trim_chars(&raw);
    let normalized = lower_chars(&trimmed);
    if normalized.len() == 0 {
        return None;
    }
    assert(normalized@.subrange(0, normalized@.len() as int) =~= normalized@);
    if let Some(index) = parse_unsigned_chars(normalized.as_slice(), 0, usize::MAX as u64) {
        if 1 <= index && index <= entries.len() as u64 {
            let i = index as usize;
            return Some(entries[i - 1].path.clone());
        }
    }
    let mut j: usize = 0;
    while j < entries.len()
        invariant
            j <= entries@.len(),
            normalized@ == lower_seq(trim(selector@)),
            normalized@.len() > 0,
            !(parse_unsigned(normalized@, usize::MAX as nat) matches Some(v) && 1 <= v <= entries@.len()),
            forall|k: int| 0 <= k < j ==> !named_by(#[trigger] entries@[k], normalized@),
        decreases entries@.len() - j,
    {
        if eq_ignore_ascii_case(&entries[j].stem, &normalized) || eq_ignore_ascii_case(&entries[j].file_name, &normalized) {
            let p = entries[j].path.clone();
            assert(named_by(entries@[j as int], normalized@));
            return Some(p);
        }
        j = j + 1;
    }
    None
}

/// The stem and extension of a file name, as `std::path::Path` splits
/// them: at the last `'.'`, unless the name is `".."` or the dot is its
/// first character, in which case the whole name is the stem and there is
/// no extension.
pub open spec fn split_extension(name: Seq<char>) -> (Seq<char>, Option<Seq<char>>) {
    if name == seq!['.', '.'] {
        (name, None)
    } else if exists|i: int| 0 <= i < name.len() && name[i] == '.' {
        let d = last_dot(name);
        if d == 0 {
            (name, None)
        } else {
            (name.take(d), Some(name.skip(d + 1)))
        }
    } else {
        (name, None)
    }
}

/// The index of the last `'.'` of `name`.
pub open spec fn last_dot(name: Seq<char>) -> int
    decreases name.len(),
{
    if name.len() == 0 {
        -1
    } else if name.last() == '.' {
        name.len() - 1
    } else {
        last_dot(name.drop_last())
    }
}

proof fn lemma_last_dot(name: Seq<char>)
    ensures
        -1 <= last_dot(name) < name.len(),
        last_dot(name) >= 0 ==> name[last_dot(name)] == '.',
        forall|i: int| last_dot(name) < i < name.len() ==> name[i] != '.',
        (exists|i: int| 0 <= i < name.len() && name[i] == '.') <==> last_dot(name) >= 0,
    decreases name.len(),
{
    if name.len() > 0 {
        lemma_last_dot(name.drop_last());
        if name.last() != '.' {
            assert forall|i: int| 0 <= i < name.len() - 1 implies name[i] == name.drop_last()[i] by {}
            if exists|i: int| 0 <= i < name.len() && name[i] == '.' {
                let i = choose|i: int| 0 <= i < name.len() && name[i] == '.';
                assert(name.drop_last()[i] == '.');
            }
        }
    }
}

/// The layout entry of a file named `file_name` in the layouts directory,
/// when its extension is `layout` in any letter case.
pub open spec fn entry_for(file_name: Seq<char>, e: Option<LayoutEntry>) -> bool {
    let (stem, ext) = split_extension(file_name);
    if ext matches Some(x) && eq_ignore_case(x, "layout"@) {
        e matches Some(en) && en.file_name@ == file_name && en.stem@ == stem && en.path@ == "assets/layouts"@ + seq!['/']
            + file_name
    } else {
        e is None
    }
}

/// The layout entry of a file of the layouts directory, or `None` when it
/// is not a layout file.
pub fn layout_entry_for_file(file_name: &str) -> (e: Option<LayoutEntry>)
    requires
        forall|i: int| 0 <= i < file_name@.len() ==> file_name@[i] != '/',
    ensures
        entry_for(file_name@, e),
{
    let name = chars_of(file_name);
    let n = name.len();
    proof {
        lemma_last_dot(name@);
    }
    if n == 2 && name[0] == '.' && name[1] == '.' {
        assert(name@ =~= seq!['.', '.']);
        return None;
    }
    let mut d: usize = n;
    let mut k: usize = n;
    while k > 0
        invariant
            k <= n,
            d <= n,
            n == name@.len(),
            d == n ==> forall|i: int| k <= i < n ==> name@[i] != '.',
            d < n ==> d == last_dot(name@),
            -1 <= last_dot(name@) < n,
            last_dot(name@) >= 0 ==> name@[last_dot(name@)] == '.',
            forall|i: int| last_dot(name@) < i < n ==> name@[i] != '.',
        decreases k,
    {
        if d == n && name[k - 1] == '.' {
            d = k - 1;
            proof {
                let ld = last_dot(name@);
                if ld < k - 1 {
                    assert(name@[k - 1] != '.');
                }
                if ld >= k {
                    assert(name@[ld] != '.');
                }
            }
        }
        k = k - 1;
    }
    if d == n || d == 0 {
        proof {
            if d == n {
                assert(!(exists|i: int| 0 <= i < name@.len() && name@[i] == '.'));
            } else {
                assert(name@ != seq!['.', '.']) by {
                    if name@ == seq!['.', '.'] {
                        assert(name@.len() == 2);
                    }
                }
            }
        }
        return None;
    }
    let mut stem: Vec<char> = Vec::new();
    let mut ext: Vec<char> = Vec::new();
    let mut i: usize = 0;
    assert(name@.take(0) =~= Seq::<char>::empty());
    while i < n
        invariant
            i <= n,
            n == name@.len(),
            0 < d < n,
            i <= d ==> stem@ == name@.take(i as int) && ext@.len() == 0,
            i > d ==> stem@ == name@.take(d as int) && ext@ == name@.subrange(d + 1, i as int),
        decreases n - i,
    {
        if i < d {
            stem.push(name[i]);
            assert(stem@ =~= name@.take(i + 1));
        } else if i > d {
            ext.push(name[i]);
            assert(ext@ =~= name@.subrange(d + 1, i + 1));
        } else {
            assert(name@.subrange(d + 1, d + 1) =~= Seq::<char>::empty());
            assert(ext@ =~= name@.subrange(d + 1, i + 1));
        }
        i = i + 1;
    }
    assert(ext@ =~= name@.skip(d + 1));
    proof {
        assert(d == last_dot(name@));
        assert(name@[d as int] == '.');
        assert(exists|x: int| 0 <= x < name@.len() && name@[x] == '.');
        assert(name@ != seq!['.', '.']);
        assert(split_extension(name@) == (name@.take(d as int), Some(name@.skip(d + 1))));
        assert(LAYOUTS_DIR@ == "assets/layouts"@);
        assert(LAYOUT_FILE_EXTENSION@ == "layout"@);
    }
    let ext_lower = lower_chars(&ext);
    let want = lower_chars(&chars_of(LAYOUT_FILE_EXTENSION));
    if !chars_equal(ext_lower.as_slice(), want.as_slice()) {
        return None;
    }
    let mut path = chars_of(LAYOUTS_DIR);
    path.push('/');
    let mut j: usize = 0;
    let ghost base = path@;
    assert(base =~= "assets/layouts"@ + seq!['/']);
    while j < n
        invariant
            j <= n,
            n == name@.len(),
            path@ == base + name@.take(j as int),
        decreases n - j,
    {
        path.push(name[j]);
        j = j + 1;
        assert(path@ =~= base + name@.take(j as int));
    }
    assert(name@.take(n as int) =~= name@);
    assert(path@ =~= "assets/layouts"@ + seq!['/'] + name@);
    Some(LayoutEntry {
        file_name: file_name.to_owned(),
        stem: string_from_chars(&stem),
        path: string_from_chars(&path),
    })
}

/// The layout a service runs: the override when it is set and not blank,
/// else the first discovered layout, else the default layout file.
pub open spec fn chosen_layout(override_value: Option<Seq<char>>, first_discovered: Option<Seq<char>>) -> Seq<char> {
    match override_value {
        Some(v) if trim(v).len() > 0 => v,
        _ => match first_discovered {
            Some(p) => p,
            None => "assets/layouts/l1_basic_small.layout"@,
        },
    }
}

/// Choose the active layout from the override variable's value and the
/// first discovered layout.
pub fn choose_layout_path(override_value: Option<String>, first_discovered: Option<String>) -> (r: String)
    ensures
        r@ == chosen_layout(
            match override_value {
                Some(v) => Some(v@),
                None => None,
            },
            match first_discovered {
                Some(p) => Some(p@),
                None => None,
            },
        ),
{
    if let Some(v) = override_value {
        let raw = chars_of(v.as_str());
        if trim_chars(&raw).len() > 0 {
            return v;
        }
    }
    match first_discovered {
        Some(p) => p,
        None => LAYOUT_FILE_PATH.to_owned(),
    }
}


/// Lexicographic order of texts by code point (the order of `str`).
pub open spec fn seq_lt(a: Seq<char>, b: Seq<char>) -> bool
    decreases a.len(),
{
    if a.len() == 0 {
        b.len() > 0
    } else if b.len() == 0 {
        false
    } else if a[0] != b[0] {
        a[0] < b[0]
    } else {
        seq_lt(a.drop_first(), b.drop_first())
    }
}

pub proof fn lemma_seq_lt_trans(a: Seq<char>, b: Seq<char>, c: Seq<char>)
    requires
        seq_lt(a, b),
        seq_lt(b, c),
    ensures
        seq_lt(a, c),
    decreases a.len(),
{
    if a.len() > 0 && b.len() > 0 && c.len() > 0 && a[0] == b[0] && b[0] == c[0] {
        lemma_seq_lt_trans(a.drop_first(), b.drop_first(), c.drop_first());
    }
}

pub proof fn lemma_seq_lt_asym(a: Seq<char>, b: Seq<char>)
    requires
        seq_lt(a, b),
    ensures
        !seq_lt(b, a),
        a != b,
    decreases a.len(),
{
    if a.len() > 0 && b.len() > 0 && a[0] == b[0] {
        lemma_seq_lt_asym(a.drop_first(), b.drop_first());
        if a == b {
            assert(a.drop_first() == b.drop_first());
        }
    }
}

pub proof fn lemma_seq_lt_irrefl(a: Seq<char>)
    ensures
        !seq_lt(a, a),
    decreases a.len(),
{
    if a.len() > 0 {
        lemma_seq_lt_irrefl(a.drop_first());
    }
}

/// Whether layout `a` sorts before layout `b`: by file name ignoring
/// ASCII case, then by exact file name.
pub open spec fn entry_before(a: LayoutEntry, b: LayoutEntry) -> bool {
    ||| seq_lt(lower_seq(a.file_name@), lower_seq(b.file_name@))
    ||| (lower_seq(a.file_name@) == lower_seq(b.file_name@) && seq_lt(a.file_name@, b.file_name@))
}

proof fn lemma_entry_before_trans(a: LayoutEntry, b: LayoutEntry, c: LayoutEntry)
    requires
        entry_before(a, b),
        entry_before(b, c),
    ensures
        entry_before(a, c),
{
    let (la, lb, lc) = (lower_seq(a.file_name@), lower_seq(b.file_name@), lower_seq(c.file_name@));
    if seq_lt(la, lb) && seq_lt(lb, lc) {
        lemma_seq_lt_trans(la, lb, lc);
    } else if seq_lt(a.file_name@, b.file_name@) && seq_lt(b.file_name@, c.file_name@) && la == lb && lb == lc {
        lemma_seq_lt_trans(a.file_name@, b.file_name@, c.file_name@);
    }
}

proof fn lemma_entry_before_asym(a: LayoutEntry, b: LayoutEntry)
    requires
        entry_before(a, b),
    ensures
        !entry_before(b, a),
{
    let (la, lb) = (lower_seq(a.file_name@), lower_seq(b.file_name@));
    if seq_lt(la, lb) {
        lemma_seq_lt_asym(la, lb);
    } else {
        lemma_seq_lt_asym(a.file_name@, b.file_name@);
    }
}

/// Whether `s` is in layout order.
pub open spec fn layouts_sorted(s: Seq<LayoutEntry>) -> bool {
    forall|i: int, j: int| 0 <= i < j < s.len() ==> !entry_before(#[trigger] s[j], #[trigger] s[i])
}

/// Whether text `a` sorts before text `b`.
pub fn chars_less(a: &Vec<char>, b: &Vec<char>) -> (r: bool)
    ensures
        r == seq_lt(a@, b@),
{
    let mut i: usize = 0;
    assert(a@.skip(0) =~= a@);
    assert(b@.skip(0) =~= b@);
    while i < a.len() && i < b.len() && a[i] == b[i]
        invariant
            i <= a@.len(),
            i <= b@.len(),
            seq_lt(a@, b@) == seq_lt(a@.skip(i as int), b@.skip(i as int)),
        decreases a@.len() - i,
    {
        assert(a@.skip(i as int).drop_first() =~= a@.skip(i + 1));
        assert(b@.skip(i as int).drop_first() =~= b@.skip(i + 1));
        i = i + 1;
    }
    if i == a.len() {
        i < b.len()
    } else if i == b.len() {
        false
    } else {
        assert(a@.skip(i as int)[0] == a@[i as int]);
        assert(b@.skip(i as int)[0] == b@[i as int]);
        a[i] < b[i]
    }
}

/// Whether layout `a` sorts before layout `b`.
fn layout_before(a: &LayoutEntry, b: &LayoutEntry) -> (r: bool)
    ensures
        r == entry_before(*a, *b),
{
    let fa = chars_of(a.file_name.as_str());
    let fb = chars_of(b.file_name.as_str());
    let la = lower_chars(&fa);
    let lb = lower_chars(&fb);
    if chars_less(&la, &lb) {
        return true;
    }
    chars_equal(la.as_slice(), lb.as_slice()) && chars_less(&fa, &fb)
}

/// The index of the first layout of `w` that sorts first.
fn first_layout_index(w: &Vec<LayoutEntry>) -> (i: usize)
    requires
        w@.len() > 0,
    ensures
        i < w@.len(),
        forall|j: int| 0 <= j < w@.len() ==> !entry_before(#[trigger] w@[j], w@[i as int]),
{
    let mut best: usize = 0;
    let mut i: usize = 1;
    proof {
        lemma_seq_lt_irrefl(lower_seq(w@[0].file_name@));
        lemma_seq_lt_irrefl(w@[0].file_name@);
    }
    while i < w.len()
        invariant
            1 <= i <= w@.len(),
            best < i,
            forall|j: int| 0 <= j < i ==> !entry_before(#[trigger] w@[j], w@[best as int]),
        decreases w@.len() - i,
    {
        if layout_before(&w[i], &w[best]) {
            proof {
                assert forall|j: int| 0 <= j < i + 1 implies !entry_before(#[trigger] w@[j], w@[i as int]) by {
                    if j < i && entry_before(w@[j], w@[i as int]) {
                        lemma_entry_before_trans(w@[j], w@[i as int], w@[best as int]);
                    }
                    if j == i && entry_before(w@[j], w@[i as int]) {
                        lemma_entry_before_asym(w@[j], w@[i as int]);
                    }
                }
            }
            best = i;
        }
        i = i + 1;
    }
    best
}

/// The layouts of `entries` in layout order: by file name ignoring ASCII
/// case, then by exact file name; equal names keep their order.
pub fn sort_layout_entries(entries: Vec<LayoutEntry>) -> (s: Vec<LayoutEntry>)
    ensures
        layouts_sorted(s@),
        s@.to_multiset() == entries@.to_multiset(),
{
    let mut rest = entries;
    let mut out: Vec<LayoutEntry> = Vec::new();
    let ghost total = rest@.to_multiset();
    while rest.len() > 0
        invariant
            out@.to_multiset().add(rest@.to_multiset()) == total,
            total == entries@.to_multiset(),
            layouts_sorted(out@),
            forall|a: int, b: int| 0 <= a < out@.len() && 0 <= b < rest@.len() ==> !entry_before(#[trigger] rest@[b], #[trigger] out@[a]),
        decreases rest@.len(),
    {
        let i = first_layout_index(&rest);
        let ghost before_rest = rest@;
        let ghost before_out = out@;
        let t = rest.remove(i);
        proof {
            assert(before_rest.remove(i as int).to_multiset() =~= before_rest.to_multiset().remove(before_rest[i as int]));
            assert(before_rest.to_multiset().count(t) > 0) by {
                assert(before_rest.contains(t));
            }
        }
        out.push(t);
        proof {
            assert(out@.to_multiset() =~= before_out.to_multiset().insert(t));
            assert(out@.to_multiset().add(rest@.to_multiset()) =~= total);
            assert forall|a: int, b: int| 0 <= a < out@.len() && 0 <= b < rest@.len() implies !entry_before(#[trigger] rest@[b], #[trigger] out@[a]) by {
                let jb = if b < i { b } else { b + 1 };
                assert(rest@[b] == before_rest[jb]);
                if a < before_out.len() {
                    assert(out@[a] == before_out[a]);
                } else {
                    assert(out@[a] == before_rest[i as int]);
                }
            }
            assert forall|a: int, b: int| 0 <= a < b < out@.len() implies !entry_before(#[trigger] out@[b], #[trigger] out@[a]) by {
                if b < before_out.len() {
                    assert(out@[a] == before_out[a] && out@[b] == before_out[b]);
                } else {
                    assert(out@[a] == before_out[a]);
                    assert(out@[b] == before_rest[i as int]);
                }
            }
        }
    }
    proof {
        assert(rest@.to_multiset() =~= vstd::multiset::Multiset::empty());
        assert(out@.to_multiset().add(vstd::multiset::Multiset::empty()) =~= out@.to_multiset());
    }
    out
}

} // verus!
