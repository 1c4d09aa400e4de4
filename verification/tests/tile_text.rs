//! Tile parsing, hands and the boneyard.

use acquire::company::Company;
use acquire::tile::{Boneyard, Hand, Tile, TileFromStrError};

#[test]
fn tile_parsing() {
    assert_eq!("12-I".parse(), Ok(Tile::new(12, 'i')));
    assert_eq!("12-i".parse(), Ok(Tile::new(12, 'i')));
    assert_eq!("17-i".parse::<Tile>(), Err(TileFromStrError::InvalidRow(17)));
    assert_eq!("i".parse::<Tile>(), Err(TileFromStrError::NoDash));
    assert_eq!("".parse::<Tile>(), Err(TileFromStrError::NoDash));
}

#[test]
fn tile_parsing_errors() {
    assert_eq!("1-a-b".parse::<Tile>(), Err(TileFromStrError::TwoDashes));
    assert_eq!(
        "x-a".parse::<Tile>(),
        Err(TileFromStrError::ErrorParsingRow("x".to_owned()))
    );
    assert_eq!(
        "300-a".parse::<Tile>(),
        Err(TileFromStrError::ErrorParsingRow("300".to_owned()))
    );
    assert_eq!("0-a".parse::<Tile>(), Err(TileFromStrError::InvalidRow(0)));
    assert_eq!(
        "3-z".parse::<Tile>(),
        Err(TileFromStrError::InvalidColumn("z".to_owned()))
    );
    assert_eq!(
        "3-".parse::<Tile>(),
        Err(TileFromStrError::InvalidColumn("".to_owned()))
    );
    assert_eq!("+7-b".parse(), Ok(Tile::new(7, 'b')));
    // everything after the column letter is ignored
    assert_eq!("4-izzz".parse(), Ok(Tile::new(4, 'i')));
}

#[test]
fn tile_neighbors() {
    let t = Tile::new(1, 'a');
    assert_eq!(t.prev_row(), None);
    assert_eq!(t.prev_col(), None);
    assert_eq!(t.next_row(), Some(Tile::new(2, 'a')));
    assert_eq!(t.next_col(), Some(Tile::new(1, 'b')));
    let t = Tile::new(12, 'i');
    assert_eq!(t.next_row(), None);
    assert_eq!(t.next_col(), None);
    assert_eq!(Tile::col_as_num('a'), 1);
    assert_eq!(Tile::col_as_num('i'), 9);
    assert_eq!(Tile::new(3, 'b').row(), 3);
    assert_eq!(Tile::new(3, 'b').col(), 'b');
}

#[test]
fn company_parsing() {
    assert_eq!("c".parse(), Ok(Company::Continental));
    assert_eq!("CONTINENTAL".parse(), Ok(Company::Continental));
    assert_eq!("w".parse(), Ok(Company::Worldwide));
    assert_eq!("Tower".parse(), Ok(Company::Tower));
    assert_eq!("luxor".parse(), Ok(Company::Luxor));
    assert_eq!("x".parse::<Company>(), Err(()));
    assert_eq!("".parse::<Company>(), Err(()));
    assert_eq!(Company::Festival.char(), 'F');
    assert_eq!(Company::Imperial.name(), "Imperial");
    assert_eq!(Company::inv_id(4).id(), 4);
}

#[test]
fn hand_operations() {
    let mut hand = Hand::new();
    assert!(hand.is_empty());
    assert_eq!(hand.len(), 0);
    assert!(!hand.is_full());

    assert!(hand.insert_tile(Tile::new(1, 'a')).is_ok());
    assert!(hand.insert_tile(Tile::new(2, 'b')).is_ok());
    assert_eq!(hand.len(), 2);
    assert!(!hand.is_empty());

    assert!(hand.remove_tile(Tile::new(1, 'a')));
    assert!(!hand.remove_tile(Tile::new(9, 'i')));
    assert_eq!(hand.len(), 1);
    assert_eq!(hand.iter(), vec![Tile::new(2, 'b')]);

    for row in 3..8 {
        assert!(hand.insert_tile(Tile::new(row, 'c')).is_ok());
    }
    assert!(hand.is_full());
    assert!(hand.insert_tile(Tile::new(9, 'i')).is_err());
}

#[test]
fn boneyard_draws_without_replacement() {
    let mut boneyard = Tile::boneyard();
    let mut seen = Vec::new();
    for _ in 0..108 {
        let tile = boneyard.remove().expect("boneyard should hold 108 tiles");
        assert!(!seen.contains(&tile), "a tile was drawn twice");
        seen.push(tile);
    }
    assert_eq!(boneyard.remove(), None);
    assert_eq!(seen.len(), 108);
}

#[test]
fn hand_from_boneyard() {
    let mut boneyard = Tile::boneyard();
    let full = Hand::from_boneyard(&mut boneyard).expect("a fresh boneyard fills a hand");
    assert_eq!(full.iter().len(), 6);

    let mut tiny = Boneyard::new(vec![Tile::new(1, 'a'), Tile::new(2, 'b')]);
    let partial = Hand::from_boneyard(&mut tiny).expect_err("two tiles cannot fill a hand");
    assert_eq!(partial.len(), 2);
}
