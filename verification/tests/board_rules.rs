//! Board-level rules: classification, dead tiles and share prices.

use acquire::board::Board;
use acquire::company::Company;
use acquire::messages::{IncorrectImplication, Merge, TilePlacement, TilePlacementImplication};
use acquire::tile::Tile;

fn place(board: &mut Board, row: u8, col: char) {
    board.place_tile(TilePlacement { tile: Tile::new(row, col), implication: None });
}

fn found(board: &mut Board, row: u8, col: char, company: Company) {
    board.place_tile(TilePlacement {
        tile: Tile::new(row, col),
        implication: Some(TilePlacementImplication::FoundsCompany(company)),
    });
}

/// Builds the board of the dead-tile scenario: a safe Continental chain, two
/// two-tile companies and a large Luxor chain away from all of them.
fn dead_tile_board() -> Board {
    let mut board = Board::new();

    // Luxor: 13 tiles over rows 1 and 2
    place(&mut board, 1, 'a');
    found(&mut board, 1, 'b', Company::Luxor);
    for col in ['c', 'd', 'e', 'f', 'g', 'h', 'i'] {
        place(&mut board, 1, col);
    }
    place(&mut board, 2, 'a');
    place(&mut board, 2, 'b');
    place(&mut board, 2, 'c');
    place(&mut board, 2, 'd');
    assert_eq!(board.company_sizes.luxor, 13);

    // Continental: 12 tiles over rows 11 and 12 plus (10,b): safe
    place(&mut board, 12, 'a');
    found(&mut board, 12, 'b', Company::Continental);
    for col in ['c', 'd', 'e', 'f', 'g', 'h', 'i'] {
        place(&mut board, 12, col);
    }
    place(&mut board, 11, 'a');
    place(&mut board, 11, 'b');
    place(&mut board, 10, 'b');
    assert_eq!(board.company_sizes.continental, 12);
    assert!(board.company_is_safe(Company::Continental));

    // American: 2 tiles at (8,a) and (8,b)
    place(&mut board, 8, 'a');
    found(&mut board, 8, 'b', Company::American);

    // Festival: 2 tiles at (9,c) and (9,d)
    place(&mut board, 9, 'd');
    found(&mut board, 9, 'c', Company::Festival);

    board
}

#[test]
fn merge_of_safe_company_is_dead() {
    let board = dead_tile_board();
    // (9,b) borders American, Festival and the safe Continental
    let merge = Merge::new(
        &vec![Company::American, Company::Festival, Company::Continental],
        Company::Luxor,
    );
    let verdict = board.check_implication(TilePlacement {
        tile: Tile::new(9, 'b'),
        implication: Some(TilePlacementImplication::MergesCompanies(merge)),
    });
    assert_eq!(verdict, Err(IncorrectImplication::DeadTile));

    // the standalone dead-tile check also flags the spot
    assert!(board.dead_tile(Tile::new(9, 'b')));
    assert!(!board.dead_tile(Tile::new(5, 'e')));
}

#[test]
fn classification_errors() {
    let mut board = Board::new();
    place(&mut board, 5, 'e');
    found(&mut board, 5, 'f', Company::Tower);
    place(&mut board, 5, 'g');
    place(&mut board, 8, 'a');

    // an isolated spot must imply nothing
    assert_eq!(
        board.check_implication(TilePlacement {
            tile: Tile::new(1, 'a'),
            implication: Some(TilePlacementImplication::FoundsCompany(Company::Luxor)),
        }),
        Err(IncorrectImplication::ShouldBeNone)
    );
    // next to an unaffiliated tile a company must be founded
    assert_eq!(
        board.check_implication(TilePlacement { tile: Tile::new(8, 'b'), implication: None }),
        Err(IncorrectImplication::ShouldFoundCompany)
    );
    // a company that exists cannot be founded again
    assert_eq!(
        board.check_implication(TilePlacement {
            tile: Tile::new(8, 'b'),
            implication: Some(TilePlacementImplication::FoundsCompany(Company::Tower)),
        }),
        Err(IncorrectImplication::CompanyTaken)
    );
    // next to a single company the tile simply joins it
    assert_eq!(
        board.check_implication(TilePlacement {
            tile: Tile::new(5, 'h'),
            implication: Some(TilePlacementImplication::FoundsCompany(Company::Luxor)),
        }),
        Err(IncorrectImplication::ShouldBeNone)
    );
    assert_eq!(
        board.check_implication(TilePlacement { tile: Tile::new(5, 'h'), implication: None }),
        Ok(())
    );
}

#[test]
fn merge_descriptor_errors() {
    let mut board = Board::new();
    place(&mut board, 5, 'e');
    found(&mut board, 5, 'f', Company::Tower);
    place(&mut board, 5, 'c');
    found(&mut board, 5, 'b', Company::Luxor);
    place(&mut board, 4, 'd');
    found(&mut board, 3, 'd', Company::Festival);
    // (5,d) borders Tower at (5,e), Luxor at (5,c) and Festival at (4,d)

    let spot = Tile::new(5, 'd');
    // plain placement: a merge is required
    assert_eq!(
        board.check_implication(TilePlacement { tile: spot, implication: None }),
        Err(IncorrectImplication::ShouldMerge)
    );
    // a company that does not border cannot be defunct
    let merge = Merge::new(&vec![Company::Luxor, Company::American], Company::Tower);
    assert_eq!(
        board.check_implication(TilePlacement {
            tile: spot,
            implication: Some(TilePlacementImplication::MergesCompanies(merge)),
        }),
        Err(IncorrectImplication::IncorrectDefunct(Company::American))
    );
    // a bordering company missing from the defunct list is flagged
    let merge = Merge::new(&vec![Company::Luxor], Company::Tower);
    assert_eq!(
        board.check_implication(TilePlacement {
            tile: spot,
            implication: Some(TilePlacementImplication::MergesCompanies(merge)),
        }),
        Err(IncorrectImplication::MissedDefunct(Company::Festival))
    );
    // a large company cannot merge into a small one
    place(&mut board, 5, 'g');
    place(&mut board, 5, 'h');
    let merge = Merge::new(&vec![Company::Tower, Company::Festival], Company::Luxor);
    assert_eq!(
        board.check_implication(TilePlacement {
            tile: spot,
            implication: Some(TilePlacementImplication::MergesCompanies(merge)),
        }),
        Err(IncorrectImplication::LargeIntoSmall)
    );
    // the right descriptor passes
    let merge = Merge::new(&vec![Company::Luxor, Company::Festival], Company::Tower);
    assert_eq!(
        board.check_implication(TilePlacement {
            tile: spot,
            implication: Some(TilePlacementImplication::MergesCompanies(merge)),
        }),
        Ok(())
    );
}

#[test]
fn stock_price_table() {
    let mut board = Board::new();
    place(&mut board, 1, 'a');
    found(&mut board, 1, 'b', Company::Luxor);
    assert_eq!(board.stock_price(Company::Luxor), 200);
    assert_eq!(board.stock_price(Company::Tower), 0);

    place(&mut board, 1, 'c');
    assert_eq!(board.stock_price(Company::Luxor), 300);
    place(&mut board, 1, 'd');
    assert_eq!(board.stock_price(Company::Luxor), 400);
    place(&mut board, 1, 'e');
    assert_eq!(board.stock_price(Company::Luxor), 500);
    place(&mut board, 1, 'f');
    assert_eq!(board.stock_price(Company::Luxor), 600);
    for col in ['g', 'h', 'i'] {
        place(&mut board, 1, col);
    }
    assert_eq!(board.company_sizes.luxor, 9);
    assert_eq!(board.stock_price(Company::Luxor), 600);
    place(&mut board, 2, 'a');
    place(&mut board, 2, 'b');
    assert_eq!(board.company_sizes.luxor, 11);
    assert_eq!(board.stock_price(Company::Luxor), 700);
    assert!(board.company_is_safe(Company::Luxor));

    // premiums differ by company: rebuild the same two-tile chain elsewhere
    let mut board = Board::new();
    place(&mut board, 5, 'a');
    found(&mut board, 5, 'b', Company::Continental);
    assert_eq!(board.stock_price(Company::Continental), 400);
    let mut board = Board::new();
    place(&mut board, 5, 'a');
    found(&mut board, 5, 'b', Company::American);
    assert_eq!(board.stock_price(Company::American), 300);
}

#[test]
fn recheck_after_placement_reports_should_be_none() {
    let mut board = Board::new();
    place(&mut board, 4, 'd');
    found(&mut board, 4, 'e', Company::Worldwide);

    // joining the chain is legal
    let joining = TilePlacement { tile: Tile::new(4, 'f'), implication: None };
    assert_eq!(board.check_implication(joining), Ok(()));
    board.place_tile(joining);

    // a re-check of the same spot now demands no implication
    assert_eq!(
        board.check_implication(TilePlacement { tile: Tile::new(4, 'f'), implication: None }),
        Ok(())
    );
    assert_eq!(
        board.check_implication(TilePlacement {
            tile: Tile::new(4, 'f'),
            implication: Some(TilePlacementImplication::FoundsCompany(Company::Luxor)),
        }),
        Err(IncorrectImplication::ShouldBeNone)
    );
}
