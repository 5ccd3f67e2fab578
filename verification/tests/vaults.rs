//! Vault layout parsing.

use esprit2::vault::{split_layout, tile_floor, Error, Metadata, SymbolMeaning, Vault, VaultSet};
use esprit2::world::Tile;

fn lines(layout: &[&str]) -> Vec<Vec<char>> {
    layout.iter().map(|l| l.chars().collect()).collect()
}

fn metadata() -> Metadata {
    Metadata {
        symbols: vec![
            ('g', SymbolMeaning::Character { sheet: String::from("goblin"), tile: tile_floor() }),
            ('e', SymbolMeaning::Edge(Tile::Floor)),
            ('#', SymbolMeaning::Tile(Tile::Wall)),
        ],
    }
}

#[test]
fn layouts_parse_by_symbol_with_padding() {
    let v = Vault::open(&metadata(), &lines(&["x#>", "e.", ".g."])).unwrap();
    assert_eq!(v.width, 3);
    assert_eq!(v.height(), 3);
    assert_eq!(
        v.tiles,
        vec![
            Some(Tile::Wall),
            Some(Tile::Wall),
            Some(Tile::Exit),
            Some(Tile::Floor),
            Some(Tile::Floor),
            None, // the short line is padded
            Some(Tile::Floor),
            Some(Tile::Floor), // the character stands on its tile
            Some(Tile::Floor),
        ]
    );
    assert_eq!(v.characters, vec![(1, 2, String::from("goblin"))]);
    assert_eq!(v.edges, vec![(0, 1)]);
}

#[test]
fn blank_cells_leave_the_floor_untouched() {
    let v = Vault::open(&metadata(), &lines(&[". .", ">x."])).unwrap();
    assert_eq!(v.tiles[1], None);
    assert_eq!(v.tiles[3], Some(Tile::Exit));
    assert_eq!(v.tiles[4], Some(Tile::Wall));
}

#[test]
fn unknown_symbols_are_rejected() {
    assert!(matches!(
        Vault::open(&metadata(), &lines(&["..", ".?"])),
        Err(Error::UnexpectedSymbol('?'))
    ));
}

#[test]
fn texts_split_at_the_layout_marker() {
    let text: Vec<char> = "density = 4\n# Layout\n..\nx>".chars().collect();
    let (meta, layout) = split_layout(&text).unwrap();
    let meta: String = meta.into_iter().collect();
    let layout: String = layout.into_iter().collect();
    assert_eq!(meta, "density = 4\n");
    assert_eq!(layout, "..\nx>");
    // The first marker wins.
    let twice: Vec<char> = "# Layout\nafter# Layout\n".chars().collect();
    let (meta, layout) = split_layout(&twice).unwrap();
    assert!(meta.is_empty());
    let layout: String = layout.into_iter().collect();
    assert_eq!(layout, "after# Layout\n");
}

#[test]
fn texts_without_a_layout_section_are_rejected() {
    let text: Vec<char> = "density = 4\n#Layout\n..".chars().collect();
    assert_eq!(split_layout(&text), Err(Error::MissingLayout));
    assert_eq!(split_layout(&Vec::new()), Err(Error::MissingLayout));
}

#[test]
fn characters_and_edges_list_once_per_cell_in_scan_order() {
    let v = Vault::open(&metadata(), &lines(&["g.g", "ege"])).unwrap();
    assert_eq!(
        v.characters,
        vec![
            (0, 0, String::from("goblin")),
            (2, 0, String::from("goblin")),
            (1, 1, String::from("goblin")),
        ]
    );
    assert_eq!(v.edges, vec![(0, 1), (2, 1)]);
}

#[test]
fn vault_sets_carry_generation_parameters() {
    let set = VaultSet { vaults: vec![String::from("example")], density: 4, hall_ratio: 1 };
    assert_eq!(set.vaults.len(), 1);
    assert_eq!(set.density, 4);
    assert_eq!(set.hall_ratio, 1);
}
