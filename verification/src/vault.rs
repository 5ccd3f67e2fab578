//! Vault layouts: fixed room designs stamped into generated floors.
//!
//! A vault file holds a metadata section and a layout section separated by
//! a marker line. The edge reads the file and parses the TOML metadata
//! section; the split around the marker and the layout grammar are parsed
//! here.

use vstd::prelude::*;
use crate::world::Tile;

verus! {

/// Which vaults a floor generator may stamp, and how densely.
#[derive(Clone, Debug)]
pub struct VaultSet {
    pub vaults: Vec<String>,
    /// Nodes per floor.
    pub density: u32,
    /// Ratio of halls to vaults.
    pub hall_ratio: i32,
}

/// What a custom layout symbol means.
#[derive(Clone, Debug)]
pub enum SymbolMeaning {
    Tile(Tile),
    Character { sheet: String, tile: Tile },
    Edge(Tile),
}

/// The default tile under a character: bare floor.
pub fn tile_floor() -> (r: Tile)
    ensures
        r == Tile::Floor,
{
    Tile::Floor
}

/// The metadata section: custom symbols, looked up front to back.
#[derive(Clone, Debug)]
pub struct Metadata {
    pub symbols: Vec<(char, SymbolMeaning)>,
}

/// Why a vault file is rejected.
#[derive(Clone, Debug, PartialEq, Eq)]
pub enum Error {
    /// The file has no layout section.
    MissingLayout,
    /// A layout symbol neither the metadata nor the built-in set knows.
    UnexpectedSymbol(char),
}

/// The line that separates the metadata section from the layout.
pub open spec fn layout_marker() -> Seq<char> {
    seq!['#', ' ', 'L', 'a', 'y', 'o', 'u', 't', '\n']
}

/// The marker starts at position `i` of the text.
pub open spec fn marker_at(text: Seq<char>, i: int) -> bool {
    0 <= i && i + 9 <= text.len() && text.subrange(i, i + 9) == layout_marker()
}

/// The first position at or after `i` where the marker starts, if any.
pub open spec fn first_marker_from(text: Seq<char>, i: int) -> Option<int>
    recommends
        i >= 0,
    decreases text.len() - i,
{
    if i < 0 || i + 9 > text.len() {
        None
    } else if marker_at(text, i) {
        Some(i)
    } else {
        first_marker_from(text, i + 1)
    }
}

/// When the marker first starts at `i`, the scan from `a` finds `i`.
proof fn lemma_first_marker_found(text: Seq<char>, a: int, i: int)
    requires
        0 <= a <= i,
        marker_at(text, i),
        forall|j: int| a <= j < i ==> !marker_at(text, j),
    ensures
        first_marker_from(text, a) == Some(i),
    decreases i - a,
{
    if a < i {
        lemma_first_marker_found(text, a + 1, i);
    }
}

/// When the marker never occurs, the scan misses.
proof fn lemma_first_marker_missing(text: Seq<char>, a: int)
    requires
        a >= 0,
        forall|j: int| a <= j ==> !marker_at(text, j),
    ensures
        first_marker_from(text, a) is None,
    decreases text.len() - a,
{
    if a + 9 <= text.len() {
        lemma_first_marker_missing(text, a + 1);
    }
}

/// The marker's character at position `m`.
fn marker_char(m: usize) -> (c: char)
    requires
        m < 9,
    ensures
        c == layout_marker()[m as int],
{
    match m {
        0 => '#',
        1 => ' ',
        2 => 'L',
        3 => 'a',
        4 => 'y',
        5 => 'o',
        6 => 'u',
        7 => 't',
        _ => '\n',
    }
}

/// Splits a vault file's text at the first layout marker: everything
/// before it is the metadata section, everything after it the layout.
/// A text without the marker has no layout section and is rejected.
pub fn split_layout(text: &Vec<char>) -> (r: Result<(Vec<char>, Vec<char>), Error>)
    ensures
        match first_marker_from(text@, 0) {
            Some(i) => r matches Ok((meta, layout)) && meta@ == text@.take(i) && layout@
                == text@.skip(i + 9),
            None => r matches Err(e) && e == Error::MissingLayout,
        },
{
    let n = text.len();
    let mut i: usize = 0;
    if n >= 9 {
        while i <= n - 9
            invariant
                n == text@.len(),
                9 <= n,
                i <= n - 9 + 1,
                forall|j: int| 0 <= j < i ==> !marker_at(text@, j),
            decreases n - i,
        {
            let mut hit = true;
            let mut m: usize = 0;
            while m < 9
                invariant
                    i <= n - 9,
                    9 <= n,
                    n == text@.len(),
                    m <= 9,
                    hit == (forall|q: int| 0 <= q < m ==> text@[i + q] == layout_marker()[q]),
                decreases 9 - m,
            {
                if text[i + m] != marker_char(m) {
                    hit = false;
                    m = 9;
                } else {
                    m = m + 1;
                }
            }
            if hit {
                proof {
                    assert(text@.subrange(i as int, i + 9) =~= layout_marker());
                    assert(marker_at(text@, i as int));
                    lemma_first_marker_found(text@, 0, i as int);
                }
                let meta = match crate::codec::take_chars(text, 0, i) {
                    Some((meta, _)) => meta,
                    None => {
                        proof {
                            assert(false);
                        }
                        vstd::pervasive::unreached()
                    },
                };
                let layout = match crate::codec::take_chars(text, i + 9, n - (i + 9)) {
                    Some((layout, _)) => layout,
                    None => {
                        proof {
                            assert(false);
                        }
                        vstd::pervasive::unreached()
                    },
                };
                assert(meta@ =~= text@.take(i as int));
                assert(layout@ =~= text@.skip(i + 9));
                return Ok((meta, layout));
            }
            proof {
                let w = choose|q: int| 0 <= q < 9 && text@[i + q] != layout_marker()[q];
                assert(!marker_at(text@, i as int)) by {
                    if marker_at(text@, i as int) {
                        assert(text@.subrange(i as int, i + 9)[w] == text@[i + w]);
                    }
                };
            }
            i = i + 1;
        }
    }
    proof {
        assert(forall|j: int| 0 <= j ==> !marker_at(text@, j));
        lemma_first_marker_missing(text@, 0);
    }
    Err(Error::MissingLayout)
}

/// The first meaning bound to symbol `c`, if any.
pub open spec fn lookup_symbol_spec(symbols: Seq<(char, SymbolMeaning)>, c: char) -> Option<
    SymbolMeaning,
>
    decreases symbols.len(),
{
    if symbols.len() == 0 {
        None
    } else if symbols[0].0 == c {
        Some(symbols[0].1)
    } else {
        lookup_symbol_spec(symbols.skip(1), c)
    }
}

/// The tile one layout symbol stands for: a custom meaning, a built-in
/// symbol, or nothing at all for an unknown symbol.
pub open spec fn cell_tile_spec(symbols: Seq<(char, SymbolMeaning)>, c: char) -> Option<
    Option<Tile>,
> {
    match lookup_symbol_spec(symbols, c) {
        Some(SymbolMeaning::Tile(t)) => Some(Some(t)),
        Some(SymbolMeaning::Edge(t)) => Some(Some(t)),
        Some(SymbolMeaning::Character { tile, .. }) => Some(Some(tile)),
        None => if c == ' ' {
            Some(None)
        } else if c == '.' {
            Some(Some(Tile::Floor))
        } else if c == 'x' {
            Some(Some(Tile::Wall))
        } else if c == '>' {
            Some(Some(Tile::Exit))
        } else {
            None
        },
    }
}

/// The widest line of a layout.
pub open spec fn max_width(lines: Seq<Seq<char>>) -> int
    decreases lines.len(),
{
    if lines.len() == 0 {
        0
    } else {
        let rest = max_width(lines.drop_last());
        if lines.last().len() > rest {
            lines.last().len() as int
        } else {
            rest
        }
    }
}

/// The tile at one cell of the padded rectangle: the symbol's tile inside
/// the line, absent in the padding.
pub open spec fn vault_cell(
    symbols: Seq<(char, SymbolMeaning)>,
    lines: Seq<Seq<char>>,
    li: int,
    ci: int,
) -> Option<Tile>
    recommends
        0 <= li < lines.len(),
{
    if ci < lines[li].len() {
        match cell_tile_spec(symbols, lines[li][ci]) {
            Some(t) => t,
            None => None,
        }
    } else {
        None
    }
}

/// The character record cell `(li, ci)` contributes: one entry when its
/// symbol places a character, none otherwise or in the padding.
pub open spec fn cell_character(
    symbols: Seq<(char, SymbolMeaning)>,
    lines: Seq<Seq<char>>,
    li: int,
    ci: int,
) -> Seq<(i32, i32, Seq<char>)> {
    if 0 <= li < lines.len() && 0 <= ci < lines[li].len() {
        match lookup_symbol_spec(symbols, lines[li][ci]) {
            Some(SymbolMeaning::Character { sheet, .. }) => seq![(ci as i32, li as i32, sheet@)],
            _ => Seq::empty(),
        }
    } else {
        Seq::empty()
    }
}

/// The edge record cell `(li, ci)` contributes.
pub open spec fn cell_edge(
    symbols: Seq<(char, SymbolMeaning)>,
    lines: Seq<Seq<char>>,
    li: int,
    ci: int,
) -> Seq<(i32, i32)> {
    if 0 <= li < lines.len() && 0 <= ci < lines[li].len() {
        match lookup_symbol_spec(symbols, lines[li][ci]) {
            Some(SymbolMeaning::Edge(_)) => seq![(ci as i32, li as i32)],
            _ => Seq::empty(),
        }
    } else {
        Seq::empty()
    }
}

/// The character records of row `li`'s first `ci` cells, left to right.
pub open spec fn row_characters(
    symbols: Seq<(char, SymbolMeaning)>,
    lines: Seq<Seq<char>>,
    li: int,
    ci: int,
) -> Seq<(i32, i32, Seq<char>)>
    decreases ci,
{
    if ci <= 0 {
        Seq::empty()
    } else {
        row_characters(symbols, lines, li, ci - 1) + cell_character(symbols, lines, li, ci - 1)
    }
}

/// The edge records of row `li`'s first `ci` cells, left to right.
pub open spec fn row_edges(
    symbols: Seq<(char, SymbolMeaning)>,
    lines: Seq<Seq<char>>,
    li: int,
    ci: int,
) -> Seq<(i32, i32)>
    decreases ci,
{
    if ci <= 0 {
        Seq::empty()
    } else {
        row_edges(symbols, lines, li, ci - 1) + cell_edge(symbols, lines, li, ci - 1)
    }
}

/// The character records of the first `li` rows, in row-major scan order.
pub open spec fn characters_upto(
    symbols: Seq<(char, SymbolMeaning)>,
    lines: Seq<Seq<char>>,
    li: int,
    width: int,
) -> Seq<(i32, i32, Seq<char>)>
    decreases li,
{
    if li <= 0 {
        Seq::empty()
    } else {
        characters_upto(symbols, lines, li - 1, width) + row_characters(
            symbols,
            lines,
            li - 1,
            width,
        )
    }
}

/// The edge records of the first `li` rows, in row-major scan order.
pub open spec fn edges_upto(
    symbols: Seq<(char, SymbolMeaning)>,
    lines: Seq<Seq<char>>,
    li: int,
    width: int,
) -> Seq<(i32, i32)>
    decreases li,
{
    if li <= 0 {
        Seq::empty()
    } else {
        edges_upto(symbols, lines, li - 1, width) + row_edges(symbols, lines, li - 1, width)
    }
}

/// The mathematical value of a character list: names become their
/// character sequences.
pub open spec fn characters_model(cs: Seq<(i32, i32, String)>) -> Seq<(i32, i32, Seq<char>)> {
    cs.map_values(|e: (i32, i32, String)| (e.0, e.1, e.2@))
}

/// A parsed vault: a rectangle of optional tiles (absent where the layout
/// leaves the floor untouched), plus where characters start and where the
/// vault joins halls.
#[derive(Clone, Debug)]
pub struct Vault {
    pub tiles: Vec<Option<Tile>>,
    pub width: usize,
    pub characters: Vec<(i32, i32, String)>,
    pub edges: Vec<(i32, i32)>,
}

impl Vault {
    /// How many rows the vault has.
    pub fn height(&self) -> (r: usize)
        requires
            self.width > 0,
        ensures
            r == self.tiles@.len() as int / self.width as int,
    {
        self.tiles.len() / self.width
    }

    /// Parses a layout against its metadata. Every line is padded to the
    /// widest line's width with absent tiles; a symbol nobody knows is
    /// rejected. The character and edge lists hold exactly one record per
    /// cell of their kind, at its column and line, in row-major scan
    /// order.
    pub fn open(metadata: &Metadata, lines: &Vec<Vec<char>>) -> (r: Result<Vault, Error>)
        requires
            lines@.len() <= i32::MAX,
            forall|li: int| 0 <= li < lines@.len() ==> (#[trigger] lines@[li])@.len() <= i32::MAX,
        ensures
            match r {
                Ok(v) => {
                    &&& v.width == max_width(lines.deep_view())
                    &&& v.tiles@.len() == max_width(lines.deep_view()) * lines@.len()
                    &&& forall|li: int, ci: int|
                        0 <= li < lines@.len() && 0 <= ci < v.width ==> v.tiles@[li * v.width + ci]
                            == #[trigger] vault_cell(metadata.symbols@, lines.deep_view(), li, ci)
                    &&& characters_model(v.characters@) == characters_upto(
                        metadata.symbols@,
                        lines.deep_view(),
                        lines@.len() as int,
                        v.width as int,
                    )
                    &&& v.edges@ == edges_upto(
                        metadata.symbols@,
                        lines.deep_view(),
                        lines@.len() as int,
                        v.width as int,
                    )
                },
                Err(e) => {
                    &&& e matches Error::UnexpectedSymbol(c) && exists|li: int, ci: int|
                        0 <= li < lines@.len() && 0 <= ci < lines.deep_view()[li].len() && (
                        #[trigger] lines.deep_view()[li][ci]) == c
                    &&& e matches Error::UnexpectedSymbol(c) && cell_tile_spec(
                        metadata.symbols@,
                        c,
                    ) is None
                },
            },
    {
        let mut width: usize = 0;
        let mut li: usize = 0;
        while li < lines.len()
            invariant
                li <= lines@.len(),
                width == max_width(lines.deep_view().take(li as int)),
            decreases lines@.len() - li,
        {
            proof {
                assert(lines.deep_view().take(li + 1).drop_last() =~= lines.deep_view().take(
                    li as int,
                ));
                assert(lines.deep_view().take(li + 1).last() == lines.deep_view()[li as int]);
            }
            if lines[li].len() > width {
                width = lines[li].len();
            }
            li = li + 1;
        }
        assert(lines.deep_view().take(li as int) =~= lines.deep_view());
        proof {
            assert forall|k: int|
                0 <= k < lines.deep_view().len() implies (#[trigger] lines.deep_view()[k]).len()
                <= width by {
                lemma_max_width_bounds(lines.deep_view(), k);
            }
        }
        let mut tiles: Vec<Option<Tile>> = Vec::new();
        let mut characters: Vec<(i32, i32, String)> = Vec::new();
        let mut edges: Vec<(i32, i32)> = Vec::new();
        let ghost sym = metadata.symbols@;
        let ghost ls = lines.deep_view();
        proof {
            assert(characters_model(characters@) =~= Seq::<(i32, i32, Seq<char>)>::empty());
        }
        let mut y: usize = 0;
        while y < lines.len()
            invariant
                y <= lines@.len(),
                lines@.len() <= i32::MAX,
                forall|li: int| 0 <= li < lines@.len() ==> (#[trigger] lines@[li])@.len()
                    <= i32::MAX,
                sym == metadata.symbols@,
                ls == lines.deep_view(),
                width == max_width(ls),
                forall|li: int| 0 <= li < ls.len() ==> (#[trigger] ls[li]).len() <= width,
                tiles@.len() == y * width,
                forall|li: int, ci: int|
                    0 <= li < y && 0 <= ci < width ==> tiles@[li * width + ci]
                        == #[trigger] vault_cell(sym, ls, li, ci),
                characters_model(characters@) == characters_upto(sym, ls, y as int, width as int),
                edges@ == edges_upto(sym, ls, y as int, width as int),
            decreases lines@.len() - y,
        {
            let line = &lines[y];
            proof {
                lemma_max_width_bounds(ls, y as int);
                assert(line@ =~= ls[y as int]);
            }
            let mut x: usize = 0;
            while x < width
                invariant
                    y < lines@.len(),
                    lines@.len() <= i32::MAX,
                    forall|li: int| 0 <= li < lines@.len() ==> (#[trigger] lines@[li])@.len()
                        <= i32::MAX,
                    sym == metadata.symbols@,
                    ls == lines.deep_view(),
                    width == max_width(ls),
                    forall|li: int| 0 <= li < ls.len() ==> (#[trigger] ls[li]).len() <= width,
                    line@ == ls[y as int],
                    x <= width,
                    tiles@.len() == y * width + x,
                    forall|li: int, ci: int|
                        0 <= li < y && 0 <= ci < width ==> tiles@[li * width + ci]
                            == #[trigger] vault_cell(sym, ls, li, ci),
                    forall|ci: int|
                        0 <= ci < x ==> tiles@[y * width + ci] == #[trigger] vault_cell(
                            sym,
                            ls,
                            y as int,
                            ci,
                        ),
                    characters_model(characters@) == characters_upto(sym, ls, y as int, width as int)
                        + row_characters(sym, ls, y as int, x as int),
                    edges@ == edges_upto(sym, ls, y as int, width as int) + row_edges(
                        sym,
                        ls,
                        y as int,
                        x as int,
                    ),
                decreases width - x,
            {
                proof {
                    assert(row_characters(sym, ls, y as int, x + 1) == row_characters(
                        sym,
                        ls,
                        y as int,
                        x as int,
                    ) + cell_character(sym, ls, y as int, x as int));
                    assert(row_edges(sym, ls, y as int, x + 1) == row_edges(
                        sym,
                        ls,
                        y as int,
                        x as int,
                    ) + cell_edge(sym, ls, y as int, x as int));
                }
                if x >= line.len() {
                    tiles.push(None);
                    proof {
                        assert(characters_model(characters@) =~= characters_upto(
                            sym,
                            ls,
                            y as int,
                            width as int,
                        ) + row_characters(sym, ls, y as int, x + 1));
                        assert(edges@ =~= edges_upto(sym, ls, y as int, width as int) + row_edges(
                            sym,
                            ls,
                            y as int,
                            x + 1,
                        ));
                    }
                } else {
                    let c = line[x];
                    let meaning = lookup_symbol(metadata, c);
                    match meaning {
                        Some(SymbolMeaning::Tile(t)) => {
                            tiles.push(Some(t));
                        },
                        Some(SymbolMeaning::Edge(t)) => {
                            tiles.push(Some(t));
                            edges.push((x as i32, y as i32));
                        },
                        Some(SymbolMeaning::Character { sheet, tile }) => {
                            let ghost chars0 = characters@;
                            characters.push((x as i32, y as i32, sheet));
                            tiles.push(Some(tile));
                            proof {
                                assert(characters_model(characters@) =~= characters_model(
                                    chars0,
                                ).push((x as i32, y as i32, characters@.last().2@)));
                            }
                        },
                        None => {
                            if c == ' ' {
                                tiles.push(None);
                            } else if c == '.' {
                                tiles.push(Some(Tile::Floor));
                            } else if c == 'x' {
                                tiles.push(Some(Tile::Wall));
                            } else if c == '>' {
                                tiles.push(Some(Tile::Exit));
                            } else {
                                return Err(Error::UnexpectedSymbol(c));
                            }
                        },
                    }
                    proof {
                        assert(characters_model(characters@) =~= characters_upto(
                            sym,
                            ls,
                            y as int,
                            width as int,
                        ) + row_characters(sym, ls, y as int, x + 1));
                        assert(edges@ =~= edges_upto(sym, ls, y as int, width as int) + row_edges(
                            sym,
                            ls,
                            y as int,
                            x + 1,
                        ));
                    }
                }
                proof {
                    assert forall|li2: int, ci2: int|
                        0 <= li2 < y && 0 <= ci2 < width implies tiles@[li2 * width + ci2]
                        == vault_cell(sym, ls, li2, ci2) by {
                        lemma_row_index_bound(li2, ci2, y as int, width as int);
                    }
                }
                x = x + 1;
            }
            proof {
                assert(tiles@.len() == (y + 1) * width) by (nonlinear_arith)
                    requires
                        tiles@.len() == y * width + width,
                ;
                assert(characters_upto(sym, ls, y + 1, width as int) == characters_upto(
                    sym,
                    ls,
                    y as int,
                    width as int,
                ) + row_characters(sym, ls, y as int, width as int));
                assert(edges_upto(sym, ls, y + 1, width as int) == edges_upto(
                    sym,
                    ls,
                    y as int,
                    width as int,
                ) + row_edges(sym, ls, y as int, width as int));
            }
            y = y + 1;
        }
        proof {
            assert forall|li2: int, ci2: int|
                0 <= li2 < ls.len() && 0 <= ci2 < width implies tiles@[li2 * width + ci2]
                == vault_cell(sym, ls, li2, ci2) by {
                lemma_row_index_bound(li2, ci2, ls.len() as int, width as int);
            }
            assert((y as int) * (width as int) == (width as int) * (y as int)) by (nonlinear_arith);
        }
        Ok(Vault { tiles, width, characters, edges })
    }
}

/// A cell's flat index lies inside its row block.
proof fn lemma_row_index_bound(li: int, ci: int, y: int, width: int)
    requires
        0 <= li < y,
        0 <= ci < width,
    ensures
        0 <= li * width + ci < y * width,
{
    assert(0 <= li * width + ci < y * width) by (nonlinear_arith)
        requires
            0 <= li < y,
            0 <= ci < width,
    ;
}

/// Every line fits inside the widest one.
proof fn lemma_max_width_bounds(lines: Seq<Seq<char>>, li: int)
    requires
        0 <= li < lines.len(),
    ensures
        lines[li].len() <= max_width(lines),
    decreases lines.len(),
{
    if li == lines.len() - 1 {
    } else {
        assert(lines.drop_last()[li] == lines[li]);
        lemma_max_width_bounds(lines.drop_last(), li);
    }
}

/// Looks a symbol up in the metadata, front to back.
fn lookup_symbol(metadata: &Metadata, c: char) -> (r: Option<SymbolMeaning>)
    ensures
        match (r, lookup_symbol_spec(metadata.symbols@, c)) {
            (Some(m), Some(m2)) => match (m, m2) {
                (SymbolMeaning::Tile(t), SymbolMeaning::Tile(t2)) => t == t2,
                (SymbolMeaning::Edge(t), SymbolMeaning::Edge(t2)) => t == t2,
                (
                    SymbolMeaning::Character { sheet, tile },
                    SymbolMeaning::Character { sheet: sheet2, tile: tile2 },
                ) => sheet@ == sheet2@ && tile == tile2,
                _ => false,
            },
            (None, None) => true,
            _ => false,
        },
{
    let mut i: usize = 0;
    while i < metadata.symbols.len()
        invariant
            i <= metadata.symbols@.len(),
            forall|j: int| 0 <= j < i ==> (#[trigger] metadata.symbols@[j]).0 != c,
        decreases metadata.symbols@.len() - i,
    {
        let entry = &metadata.symbols[i];
        if entry.0 == c {
            proof {
                lemma_lookup_symbol_found(metadata.symbols@, c, i as int);
            }
            let found = match &entry.1 {
                SymbolMeaning::Tile(t) => SymbolMeaning::Tile(*t),
                SymbolMeaning::Edge(t) => SymbolMeaning::Edge(*t),
                SymbolMeaning::Character { sheet, tile } => SymbolMeaning::Character {
                    sheet: clone_string(sheet),
                    tile: *tile,
                },
            };
            return Some(found);
        }
        i = i + 1;
    }
    proof {
        lemma_lookup_symbol_missing(metadata.symbols@, c);
    }
    None
}

/// Clones a string, keeping its characters.
fn clone_string(s: &String) -> (r: String)
    ensures
        r@ == s@,
{
    s.clone()
}

/// When the first `i` symbols miss and symbol `i` matches, the lookup
/// finds `i`.
proof fn lemma_lookup_symbol_found(symbols: Seq<(char, SymbolMeaning)>, c: char, i: int)
    requires
        0 <= i < symbols.len(),
        forall|j: int| 0 <= j < i ==> (#[trigger] symbols[j]).0 != c,
        symbols[i].0 == c,
    ensures
        lookup_symbol_spec(symbols, c) == Some(symbols[i].1),
    decreases i,
{
    if i == 0 {
    } else {
        assert(symbols.skip(1)[i - 1] == symbols[i]);
        assert(forall|j: int| 0 <= j < i - 1 ==> symbols.skip(1)[j] == symbols[j + 1]);
        lemma_lookup_symbol_found(symbols.skip(1), c, i - 1);
    }
}

/// When no symbol matches, the lookup misses.
proof fn lemma_lookup_symbol_missing(symbols: Seq<(char, SymbolMeaning)>, c: char)
    requires
        forall|j: int| 0 <= j < symbols.len() ==> (#[trigger] symbols[j]).0 != c,
    ensures
        lookup_symbol_spec(symbols, c) is None,
    decreases symbols.len(),
{
    if symbols.len() > 0 {
        assert(forall|j: int| 0 <= j < symbols.len() - 1 ==> symbols.skip(1)[j] == symbols[j + 1]);
        lemma_lookup_symbol_missing(symbols.skip(1), c);
    }
}

} // verus!
