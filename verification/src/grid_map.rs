//! Warehouse grid map: tile types, layout text parsing and map queries.
//!
//! A layout text has one grid row per kept line. A line is kept when it
//! holds at least one whitespace-separated token and its first token does
//! not start with `'/'` (comment lines). Each token is one tile:
//! `~` empty, `.` ground, `#` wall, `_` charging station, `v` dropoff,
//! a single hex digit `1`..`9`, `A`..`F` a shelf of that capacity (`0`
//! standing for 16), `xN` a shelf with capacity `N` (5 when `N` is not a
//! `u8`), anything else empty.
use vstd::prelude::*;
use crate::text::{is_ws, tokens, split_lines, parse_unsigned, is_whitespace_char, parse_unsigned_chars, chars_of, views, lemma_tokens_len};

verus! {

/// Tile types in the warehouse grid.
#[derive(Debug, Clone, Copy, PartialEq, Eq, Hash, Structural)]
pub enum TileType {
    Empty,
    Ground,
    Wall,
    Shelf(u8),
    Station,
    Dropoff,
}

/// A single tile with position and type.
#[derive(Debug, Clone, Copy, PartialEq, Eq, Structural)]
pub struct Tile {
    pub x: usize,
    pub y: usize,
    pub tile_type: TileType,
}

/// The warehouse grid map, as loaded from a layout text.
#[derive(Debug, Clone)]
pub struct GridMap {
    pub width: usize,
    pub height: usize,
    pub tiles: Vec<Tile>,
    /// Fingerprint of the layout, compared across services at startup.
    pub hash: u64,
}

/// Map validation message sent on startup.
#[derive(Debug)]
pub struct MapValidation {
    pub sender: String,
    pub map_hash: u64,
    pub map_dimensions: (usize, usize),
}

// ---------------------------------------------------------------------------
// Specification of the layout format
// ---------------------------------------------------------------------------

/// The shelf capacity a single-character shelf token stands for: `1`..`9`
/// and `A`..`F` their hex value, `0` sixteen.
pub open spec fn hex_shelf_capacity(c: char) -> Option<u8> {
    if '1' <= c <= '9' {
        Some((c as u32 - '0' as u32) as u8)
    } else if 'A' <= c <= 'F' {
        Some((c as u32 - 'A' as u32 + 10) as u8)
    } else if c == '0' {
        Some(16u8)
    } else {
        None
    }
}

/// The tile type a layout token stands for.
pub open spec fn token_type(tok: Seq<char>) -> TileType {
    if tok =~= seq!['~'] {
        TileType::Empty
    } else if tok =~= seq!['.'] {
        TileType::Ground
    } else if tok =~= seq!['#'] {
        TileType::Wall
    } else if tok =~= seq!['_'] {
        TileType::Station
    } else if tok =~= seq!['v'] {
        TileType::Dropoff
    } else if tok.len() == 1 && hex_shelf_capacity(tok[0]) is Some {
        TileType::Shelf(hex_shelf_capacity(tok[0])->0)
    } else if tok.len() > 1 && tok[0] == 'x' {
        match parse_unsigned(tok.drop_first(), 255) {
            Some(v) => TileType::Shelf(v as u8),
            None => TileType::Shelf(5),
        }
    } else {
        TileType::Empty
    }
}

/// Whether a layout line contributes a grid row (not blank, not a comment).
pub open spec fn is_row_line(line: Seq<char>) -> bool {
    tokens(line).len() > 0 && tokens(line)[0][0] != '/'
}

/// The lines of `ls` that contribute grid rows, in order.
pub open spec fn row_lines(ls: Seq<Seq<char>>) -> Seq<Seq<char>>
    decreases ls.len(),
{
    if ls.len() == 0 {
        Seq::empty()
    } else if is_row_line(ls.last()) {
        row_lines(ls.drop_last()).push(ls.last())
    } else {
        row_lines(ls.drop_last())
    }
}

/// The tiles of grid row `y`, made from the row's tokens.
pub open spec fn row_tiles(toks: Seq<Seq<char>>, y: int) -> Seq<Tile> {
    Seq::new(toks.len(), |x: int| Tile { x: x as usize, y: y as usize, tile_type: token_type(toks[x]) })
}

/// The tiles of all rows, row by row, left to right.
pub open spec fn rows_tiles(rows: Seq<Seq<char>>) -> Seq<Tile>
    decreases rows.len(),
{
    if rows.len() == 0 {
        Seq::empty()
    } else {
        rows_tiles(rows.drop_last()) + row_tiles(tokens(rows.last()), rows.len() - 1)
    }
}

/// The largest number of tokens on any row.
pub open spec fn max_row_width(rows: Seq<Seq<char>>) -> nat
    decreases rows.len(),
{
    if rows.len() == 0 {
        0
    } else {
        let prev = max_row_width(rows.drop_last());
        let w = tokens(rows.last()).len();
        if w > prev {
            w
        } else {
            prev
        }
    }
}

/// The grid rows of a layout text.
pub open spec fn layout_rows(s: Seq<char>) -> Seq<Seq<char>> {
    row_lines(split_lines(s))
}

/// FNV-1a style mixing step over 64-bit words.
pub open spec fn mix(h: u64, w: u64) -> u64 {
    (((h ^ w) as nat * 1099511628211nat) % 0x1_0000_0000_0000_0000nat) as u64
}

/// A number standing for each tile type in the fingerprint.
pub open spec fn tile_code(t: TileType) -> u64 {
    match t {
        TileType::Empty => 1,
        TileType::Ground => 2,
        TileType::Wall => 3,
        TileType::Shelf(c) => (0x100 + c) as u64,
        TileType::Station => 4,
        TileType::Dropoff => 5,
    }
}

/// Fingerprint of a tile sequence, continuing from `h`.
pub open spec fn hash_tiles(h: u64, tiles: Seq<Tile>) -> u64
    decreases tiles.len(),
{
    if tiles.len() == 0 {
        h
    } else {
        let t = tiles.last();
        mix(mix(mix(hash_tiles(h, tiles.drop_last()), t.x as u64), t.y as u64), tile_code(t.tile_type))
    }
}

/// Fingerprint of a map's dimensions and tiles.
pub open spec fn map_hash(width: usize, height: usize, tiles: Seq<Tile>) -> u64 {
    hash_tiles(mix(mix(0xcbf29ce484222325u64, width as u64), height as u64), tiles)
}

/// The first tile of `tiles` at `(x, y)`, if any.
pub open spec fn tile_at(tiles: Seq<Tile>, x: usize, y: usize) -> Option<Tile>
    decreases tiles.len(),
{
    if tiles.len() == 0 {
        None
    } else {
        match tile_at(tiles.drop_last(), x, y) {
            Some(t) => Some(t),
            None => if tiles.last().x == x && tiles.last().y == y {
                Some(tiles.last())
            } else {
                None
            },
        }
    }
}

/// Robots may stand on ground, stations and dropoffs.
pub open spec fn is_walkable_type(t: TileType) -> bool {
    matches!(t, TileType::Ground | TileType::Station | TileType::Dropoff)
}

/// Whether the map has a walkable tile at `(x, y)`.
pub open spec fn walkable(map: GridMap, x: usize, y: usize) -> bool {
    match tile_at(map.tiles@, x, y) {
        Some(t) => is_walkable_type(t.tile_type),
        None => false,
    }
}

/// The tiles of `tiles` that satisfy `p`, in order.
pub open spec fn tiles_where(tiles: Seq<Tile>, p: spec_fn(TileType) -> bool) -> Seq<Tile>
    decreases tiles.len(),
{
    if tiles.len() == 0 {
        Seq::empty()
    } else if p(tiles.last().tile_type) {
        tiles_where(tiles.drop_last(), p).push(tiles.last())
    } else {
        tiles_where(tiles.drop_last(), p)
    }
}

/// The shelf tiles of `tiles`, in order.
pub open spec fn shelves_of(tiles: Seq<Tile>) -> Seq<Tile> {
    tiles_where(tiles, |t: TileType| t is Shelf)
}

/// The dropoff tiles of `tiles`, in order.
pub open spec fn dropoffs_of(tiles: Seq<Tile>) -> Seq<Tile> {
    tiles_where(tiles, |t: TileType| t is Dropoff)
}

// ---------------------------------------------------------------------------
// Lemmas
// ---------------------------------------------------------------------------

proof fn lemma_split_lines_nonempty(s: Seq<char>)
    ensures
        split_lines(s).len() >= 1,
    decreases s.len(),
{
    if s.len() > 0 {
        lemma_split_lines_nonempty(s.drop_last());
    }
}

proof fn lemma_row_lines_len(ls: Seq<Seq<char>>)
    ensures
        row_lines(ls).len() <= ls.len(),
    decreases ls.len(),
{
    if ls.len() > 0 {
        lemma_row_lines_len(ls.drop_last());
    }
}

proof fn lemma_rows_tiles_coords(rows: Seq<Seq<char>>)
    ensures
        forall|i: int| 0 <= i < rows_tiles(rows).len() ==> (#[trigger] rows_tiles(rows)[i]).y < rows.len(),
    decreases rows.len(),
{
    if rows.len() > 0 {
        lemma_rows_tiles_coords(rows.drop_last());
    }
}

// ---------------------------------------------------------------------------
// Executable code
// ---------------------------------------------------------------------------

fn seq_is_single(tok: &Vec<char>, c: char) -> (b: bool)
    ensures
        b == (tok@ =~= seq![c]),
{
    tok.len() == 1 && tok[0] == c
}

/// The shelf capacity of a single-character shelf token, if it is one.
fn hex_shelf_token(c: char) -> (r: Option<u8>)
    ensures
        r == hex_shelf_capacity(c),
{
    if '1' <= c && c <= '9' {
        Some((c as u32 - '0' as u32) as u8)
    } else if 'A' <= c && c <= 'F' {
        Some((c as u32 - 'A' as u32 + 10) as u8)
    } else if c == '0' {
        Some(16u8)
    } else {
        None
    }
}

/// The tile type of a layout token.
fn parse_token(tok: &Vec<char>) -> (t: TileType)
    ensures
        t == token_type(tok@),
{
    if seq_is_single(tok, '~') {
        TileType::Empty
    } else if seq_is_single(tok, '.') {
        TileType::Ground
    } else if seq_is_single(tok, '#') {
        TileType::Wall
    } else if seq_is_single(tok, '_') {
        TileType::Station
    } else if seq_is_single(tok, 'v') {
        TileType::Dropoff
    } else if tok.len() == 1 && hex_shelf_token(tok[0]).is_some() {
        match hex_shelf_token(tok[0]) {
            Some(c) => TileType::Shelf(c),
            None => TileType::Empty,
        }
    } else if tok.len() > 1 && tok[0] == 'x' {
        assert(tok@.subrange(1, tok@.len() as int) =~= tok@.drop_first());
        match parse_unsigned_chars(tok.as_slice(), 1, 255) {
            Some(v) => TileType::Shelf(v as u8),
            None => TileType::Shelf(5),
        }
    } else {
        TileType::Empty
    }
}

fn push_row(tiles: &mut Vec<Tile>, toks: &Vec<Vec<char>>, y: usize)
    ensures
        final(tiles)@ == old(tiles)@ + row_tiles(views(toks@), y as int),
{
    let ghost start = tiles@;
    let mut x: usize = 0;
    while x < toks.len()
        invariant
            x <= toks.len(),
            tiles@ == start + row_tiles(views(toks@).take(x as int), y as int),
        decreases toks.len() - x,
    {
        let t = parse_token(&toks[x]);
        tiles.push(Tile { x, y, tile_type: t });
        assert(views(toks@)[x as int] == toks[x as int]@);
        assert(row_tiles(views(toks@).take(x + 1), y as int) =~= row_tiles(
            views(toks@).take(x as int),
            y as int,
        ).push(Tile { x, y, tile_type: t }));
        x = x + 1;
    }
    assert(views(toks@).take(toks.len() as int) =~= views(toks@));
}

impl GridMap {
    /// Parse a layout text. Every text parses; `Err` is never returned.
    pub fn parse(contents: &str) -> (r: Result<GridMap, String>)
        ensures
            r matches Ok(map) && map.height == layout_rows(contents@).len() && map.width
                == max_row_width(layout_rows(contents@)) && map.tiles@ == rows_tiles(
                layout_rows(contents@),
            ) && map.hash == map_hash(map.width, map.height, map.tiles@),
            r matches Ok(map) && tiles_placed(map.tiles@, map.width as int, map.height as int),
    {
        let chars = chars_of(contents);
        let n = chars.len();
        let mut tiles: Vec<Tile> = Vec::new();
        let mut width: usize = 0;
        let mut height: usize = 0;
        let mut toks: Vec<Vec<char>> = Vec::new();
        let mut in_token = false;
        let ghost mut done: Seq<Seq<char>> = Seq::empty();
        let ghost mut cur: Seq<char> = Seq::empty();
        let mut i: usize = 0;
        assert(chars@.take(0) =~= Seq::<char>::empty());
        while i < n
            invariant
                n == chars.len(),
                chars@ == contents@,
                i <= n,
                split_lines(chars@.take(i as int)) == done.push(cur),
                done.len() + cur.len() <= i,
                views(toks@) == tokens(cur),
                in_token == (cur.len() > 0 && !is_ws(cur.last())),
                height == row_lines(done).len(),
                width == max_row_width(row_lines(done)),
                tiles@ == rows_tiles(row_lines(done)),
            decreases n - i,
        {
            let c = chars[i];
            let ghost prefix = chars@.take(i as int);
            assert(chars@.take(i + 1) =~= prefix.push(c));
            assert(chars@.take(i + 1).drop_last() =~= prefix);
            if c == '\n' {
                proof {
                    lemma_tokens_len(cur);
                    lemma_row_lines_len(done);
                }
                assert(done.push(cur).drop_last() =~= done);
                assert(done.push(cur).last() == cur);
                if toks.len() > 0 && toks[0].len() > 0 && toks[0][0] != '/' {
                    assert(views(toks@)[0] == toks[0]@);
                    assert(is_row_line(cur));
                    assert(row_lines(done.push(cur)) == row_lines(done).push(cur));
                    assert(row_lines(done).push(cur).drop_last() =~= row_lines(done));
                    push_row(&mut tiles, &toks, height);
                    if toks.len() > width {
                        width = toks.len();
                    }
                    height = height + 1;
                } else {
                    proof {
                        if toks.len() > 0 {
                            assert(views(toks@)[0] == toks[0]@);
                        }
                    }
                    assert(done.push(cur).drop_last() =~= done);
                }
                proof {
                    done = done.push(cur);
                    cur = Seq::empty();
                }
                toks = Vec::new();
                in_token = false;
                assert(views(toks@) =~= tokens(cur));
            } else {
                let ws = is_whitespace_char(c);
                let ghost old_cur = cur;
                proof {
                    cur = cur.push(c);
                }
                assert(cur.drop_last() =~= old_cur);
                assert(cur.last() == c);
                proof {
                    lemma_tokens_len(old_cur);
                    if old_cur.len() > 0 {
                        assert(cur[cur.len() - 2] == old_cur.last());
                    }
                }
                if ws {
                    in_token = false;
                } else if in_token {
                    let ghost old_dv = views(toks@);
                    assert(tokens(cur) == old_dv.update(old_dv.len() - 1, old_dv.last().push(c)));
                    let mut last = toks.pop().unwrap();
                    assert(last@ == old_dv.last());
                    last.push(c);
                    toks.push(last);
                    assert(views(toks@) =~= old_dv.update(old_dv.len() - 1, old_dv.last().push(c)));
                    in_token = true;
                } else {
                    let ghost old_dv = views(toks@);
                    assert(tokens(cur) == old_dv.push(seq![c]));
                    let mut fresh: Vec<char> = Vec::new();
                    fresh.push(c);
                    toks.push(fresh);
                    assert(views(toks@) =~= old_dv.push(seq![c]));
                    in_token = true;
                }
                assert(split_lines(chars@.take(i + 1)) =~= done.push(cur));
            }
            i = i + 1;
        }
        assert(chars@.take(n as int) =~= chars@);
        proof {
            lemma_tokens_len(cur);
            lemma_row_lines_len(done);
        }
        assert(done.push(cur).drop_last() =~= done);
        assert(done.push(cur).last() == cur);
        assert(layout_rows(contents@) == row_lines(done.push(cur)));
        if toks.len() > 0 && toks[0].len() > 0 && toks[0][0] != '/' {
            assert(views(toks@)[0] == toks[0]@);
            assert(is_row_line(cur));
            assert(row_lines(done.push(cur)) == row_lines(done).push(cur));
            assert(row_lines(done).push(cur).drop_last() =~= row_lines(done));
            push_row(&mut tiles, &toks, height);
            if toks.len() > width {
                width = toks.len();
            }
            height = height + 1;
        } else {
            proof {
                if toks.len() > 0 {
                    assert(views(toks@)[0] == toks[0]@);
                }
            }
        }
        let hash = compute_map_hash(width, height, &tiles);
        let map = GridMap { width, height, tiles, hash };
        proof {
            law_parse_places_each_tile_once(contents@, map);
        }
        Ok(map)
    }

    /// Whether `(x, y)` holds a walkable tile (ground, station or dropoff).
    pub fn is_walkable(&self, x: usize, y: usize) -> (b: bool)
        ensures
            b == walkable(*self, x, y),
    {
        match self.get_tile(x, y) {
            Some(t) => matches!(t.tile_type, TileType::Ground | TileType::Station | TileType::Dropoff),
            None => false,
        }
    }

    /// The first tile at `(x, y)`, if the map has one.
    pub fn get_tile(&self, x: usize, y: usize) -> (r: Option<&Tile>)
        ensures
            r matches Some(t) ==> tile_at(self.tiles@, x, y) == Some(*t),
            r is None ==> tile_at(self.tiles@, x, y) is None,
    {
        let mut i: usize = 0;
        while i < self.tiles.len()
            invariant
                i <= self.tiles.len(),
                tile_at(self.tiles@.take(i as int), x, y) is None,
            decreases self.tiles.len() - i,
        {
            assert(self.tiles@.take(i + 1).drop_last() =~= self.tiles@.take(i as int));
            if self.tiles[i].x == x && self.tiles[i].y == y {
                proof { lemma_tile_at_prefix(self.tiles@, i as int + 1, x, y); }
                return Some(&self.tiles[i]);
            }
            i = i + 1;
        }
        assert(self.tiles@.take(i as int) =~= self.tiles@);
        None
    }

    /// All tiles of exactly the given type, in map order.
    pub fn get_tiles_of_type(&self, tile_type: TileType) -> (v: Vec<&Tile>)
        ensures
            v@.map_values(|t: &Tile| *t) == tiles_where(self.tiles@, |t: TileType| t == tile_type),
    {
        self.collect_where(Ghost(|t: TileType| t == tile_type), tile_type, 0)
    }

    /// All charging station tiles, in map order.
    pub fn get_stations(&self) -> (v: Vec<&Tile>)
        ensures
            v@.map_values(|t: &Tile| *t) == tiles_where(self.tiles@, |t: TileType| t is Station),
    {
        self.collect_where(Ghost(|t: TileType| t is Station), TileType::Station, 1)
    }

    /// All shelf tiles, in map order.
    pub fn get_shelves(&self) -> (v: Vec<&Tile>)
        ensures
            v@.map_values(|t: &Tile| *t) == shelves_of(self.tiles@),
    {
        self.collect_where(Ghost(|t: TileType| t is Shelf), TileType::Shelf(0), 2)
    }

    /// All dropoff tiles, in map order.
    pub fn get_dropoffs(&self) -> (v: Vec<&Tile>)
        ensures
            v@.map_values(|t: &Tile| *t) == dropoffs_of(self.tiles@),
    {
        self.collect_where(Ghost(|t: TileType| t is Dropoff), TileType::Dropoff, 3)
    }

    /// Tiles selected by one of four fixed filters: `mode` 0 keeps tiles of
    /// type `wanted`, 1 stations, 2 shelves, 3 dropoffs.
    fn collect_where(&self, Ghost(p): Ghost<spec_fn(TileType) -> bool>, wanted: TileType, mode: u8) -> (v: Vec<&Tile>)
        requires
            mode == 0 ==> p == (|t: TileType| t == wanted),
            mode == 1 ==> p == (|t: TileType| t is Station),
            mode == 2 ==> p == (|t: TileType| t is Shelf),
            mode == 3 ==> p == (|t: TileType| t is Dropoff),
            mode <= 3,
        ensures
            v@.map_values(|t: &Tile| *t) == tiles_where(self.tiles@, p),
    {
        let mut v: Vec<&Tile> = Vec::new();
        let mut i: usize = 0;
        while i < self.tiles.len()
            invariant
                i <= self.tiles.len(),
                v@.map_values(|t: &Tile| *t) == tiles_where(self.tiles@.take(i as int), p),
                mode == 0 ==> p == (|t: TileType| t == wanted),
                mode == 1 ==> p == (|t: TileType| t is Station),
                mode == 2 ==> p == (|t: TileType| t is Shelf),
                mode == 3 ==> p == (|t: TileType| t is Dropoff),
                mode <= 3,
            decreases self.tiles.len() - i,
        {
            let t = &self.tiles[i];
            let keep = match mode {
                0 => t.tile_type == wanted,
                1 => matches!(t.tile_type, TileType::Station),
                2 => matches!(t.tile_type, TileType::Shelf(_)),
                _ => matches!(t.tile_type, TileType::Dropoff),
            };
            assert(keep == p(t.tile_type));
            assert(self.tiles@.take(i + 1).drop_last() =~= self.tiles@.take(i as int));
            let ghost before = v@;
            if keep {
                v.push(t);
                assert(v@.map_values(|t: &Tile| *t) =~= before.map_values(|t: &Tile| *t).push(*t));
            }
            i = i + 1;
        }
        assert(self.tiles@.take(i as int) =~= self.tiles@);
        v
    }
}

proof fn lemma_tile_at_prefix(tiles: Seq<Tile>, k: int, x: usize, y: usize)
    requires
        1 <= k <= tiles.len(),
        tile_at(tiles.take(k - 1), x, y) is None,
        tiles[k - 1].x == x && tiles[k - 1].y == y,
    ensures
        tile_at(tiles, x, y) == Some(tiles[k - 1]),
    decreases tiles.len() - k,
{
    assert(tiles.take(k).drop_last() =~= tiles.take(k - 1));
    if k < tiles.len() {
        lemma_tile_at_extend(tiles, k, x, y);
    } else {
        assert(tiles.take(k) =~= tiles);
    }
}

proof fn lemma_tile_at_extend(tiles: Seq<Tile>, k: int, x: usize, y: usize)
    requires
        0 <= k <= tiles.len(),
        tile_at(tiles.take(k), x, y) is Some,
    ensures
        tile_at(tiles, x, y) == tile_at(tiles.take(k), x, y),
    decreases tiles.len() - k,
{
    if k < tiles.len() {
        assert(tiles.take(k + 1).drop_last() =~= tiles.take(k));
        lemma_tile_at_extend(tiles, k + 1, x, y);
    } else {
        assert(tiles.take(k) =~= tiles);
    }
}

fn mix_exec(h: u64, w: u64) -> (r: u64)
    ensures
        r == mix(h, w),
{
    (h ^ w).wrapping_mul(1099511628211u64)
}

fn tile_code_exec(t: TileType) -> (c: u64)
    ensures
        c == tile_code(t),
{
    match t {
        TileType::Empty => 1,
        TileType::Ground => 2,
        TileType::Wall => 3,
        TileType::Shelf(cap) => 0x100 + cap as u64,
        TileType::Station => 4,
        TileType::Dropoff => 5,
    }
}

/// Compute the layout fingerprint of a map's dimensions and tiles.
pub fn compute_map_hash(width: usize, height: usize, tiles: &Vec<Tile>) -> (h: u64)
    ensures
        h == map_hash(width, height, tiles@),
{
    let h0 = mix_exec(mix_exec(0xcbf29ce484222325u64, width as u64), height as u64);
    let mut h = h0;
    let mut i: usize = 0;
    while i < tiles.len()
        invariant
            i <= tiles.len(),
            h0 == mix(mix(0xcbf29ce484222325u64, width as u64), height as u64),
            h == hash_tiles(h0, tiles@.take(i as int)),
        decreases tiles.len() - i,
    {
        let t = tiles[i];
        h = mix_exec(mix_exec(mix_exec(h, t.x as u64), t.y as u64), tile_code_exec(t.tile_type));
        assert(tiles@.take(i + 1).drop_last() =~= tiles@.take(i as int));
        i = i + 1;
    }
    assert(tiles@.take(i as int) =~= tiles@);
    h
}


// ---------------------------------------------------------------------------
// Laws of parsing and of the tile queries
// ---------------------------------------------------------------------------

/// Whether every tile lies inside a `width` by `height` grid and no two
/// tiles share a position.
pub open spec fn tiles_placed(tiles: Seq<Tile>, width: int, height: int) -> bool {
    &&& forall|i: int| 0 <= i < tiles.len() ==> (#[trigger] tiles[i]).x < width && tiles[i].y < height
    &&& forall|i: int, j: int|
        0 <= i < j < tiles.len() ==> (#[trigger] tiles[i]).x != (#[trigger] tiles[j]).x || tiles[i].y != tiles[j].y
}

proof fn lemma_rows_tiles_placed(rows: Seq<Seq<char>>)
    requires
        rows.len() <= usize::MAX,
        max_row_width(rows) <= usize::MAX,
    ensures
        tiles_placed(rows_tiles(rows), max_row_width(rows) as int, rows.len() as int),
    decreases rows.len(),
{
    if rows.len() > 0 {
        let prev = rows.drop_last();
        lemma_rows_tiles_placed(prev);
        let a = rows_tiles(prev);
        let toks = tokens(rows.last());
        let b = row_tiles(toks, rows.len() - 1);
        let all = rows_tiles(rows);
        assert(all == a + b);
        let w = max_row_width(rows);
        assert(max_row_width(prev) <= w && toks.len() <= w);
        assert forall|i: int| 0 <= i < all.len() implies (#[trigger] all[i]).x < w && all[i].y < rows.len() by {
            if i >= a.len() {
                assert(all[i] == b[i - a.len()]);
            }
        }
        assert forall|i: int, j: int| 0 <= i < j < all.len() implies (#[trigger] all[i]).x != (#[trigger] all[j]).x
            || all[i].y != all[j].y by {
            if j >= a.len() {
                assert(all[j] == b[j - a.len()]);
                assert(all[j].y == rows.len() - 1);
                if i >= a.len() {
                    assert(all[i] == b[i - a.len()]);
                } else {
                    assert(all[i] == a[i]);
                }
            } else {
                assert(all[i] == a[i] && all[j] == a[j]);
            }
        }
    }
}

/// A parsed map places each tile once: every tile lies inside the map's
/// width and height, and no two tiles share a position.
pub proof fn law_parse_places_each_tile_once(s: Seq<char>, m: GridMap)
    requires
        m.height == layout_rows(s).len(),
        m.width == max_row_width(layout_rows(s)),
        m.tiles@ == rows_tiles(layout_rows(s)),
    ensures
        tiles_placed(m.tiles@, m.width as int, m.height as int),
{
    lemma_rows_tiles_placed(layout_rows(s));
}

/// Filtering by a narrower test after a wider one is filtering by the
/// narrower test alone.
proof fn lemma_tiles_where_narrower(tiles: Seq<Tile>, p: spec_fn(TileType) -> bool, q: spec_fn(TileType) -> bool)
    requires
        forall|t: TileType| #[trigger] q(t) ==> p(t),
    ensures
        tiles_where(tiles_where(tiles, p), q) == tiles_where(tiles, q),
    decreases tiles.len(),
{
    if tiles.len() > 0 {
        lemma_tiles_where_narrower(tiles.drop_last(), p, q);
        if p(tiles.last().tile_type) {
            let f = tiles_where(tiles.drop_last(), p).push(tiles.last());
            assert(f.drop_last() =~= tiles_where(tiles.drop_last(), p));
        }
    }
}

/// The tiles of one shelf capacity are the shelves of that capacity, in
/// the order of all shelves: querying tiles of type `Shelf(c)` gives the
/// sub-list of the shelf tiles whose capacity is `c`.
pub proof fn law_shelves_of_capacity_are_sublist_of_shelves(tiles: Seq<Tile>, c: u8)
    ensures
        tiles_where(tiles, |t: TileType| t == TileType::Shelf(c)) == tiles_where(
            shelves_of(tiles),
            |t: TileType| t == TileType::Shelf(c),
        ),
{
    let p = |t: TileType| t is Shelf;
    let q = |t: TileType| t == TileType::Shelf(c);
    lemma_tiles_where_narrower(tiles, p, q);
}

} // verus!
