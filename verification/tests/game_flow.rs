//! Turn-by-turn tests of the game state machine.

use acquire::company::Company;
use acquire::kernel::Game;
use acquire::messages::{
    BuyStockError, GameStart, IncorrectImplication, Merge, MergeResolveError, TilePlacement,
    TilePlacementImplication,
};
use acquire::tile::Tile;

fn two_player_start() -> GameStart {
    GameStart {
        starting_cash: 6000,
        play_order: vec!["player1".to_owned(), "player2".to_owned()],
        tiles_placed: vec![Tile::new(3, 'b'), Tile::new(2, 'a')],
    }
}

#[test]
pub fn client_side_game() {
    let game = Game::start(&two_player_start(), 0);

    assert_eq!(game.active_player(), "player1");

    // Turn 1, no company
    let advancer = game
        .check_tile(TilePlacement { tile: Tile::new(12, 'd'), implication: None })
        .unwrap();
    let game = game.advance_game(advancer);
    let decision = game.decide_merge().unwrap();
    let game = game.skip_merge(decision);
    let advancer = game.check_buy_stock([None, None, None]).unwrap();
    assert_eq!(
        game.check_buy_stock([Some(Company::American), None, None]),
        Err(BuyStockError::NonexistentCompany { company: Company::American })
    );
    let game = game.advance_game(advancer).unwrap();

    // Turn 2: found continental
    assert_eq!(game.active_player(), "player2");
    let advancer = game
        .check_tile(TilePlacement {
            tile: Tile::new(2, 'b'),
            implication: Some(TilePlacementImplication::FoundsCompany(Company::Continental)),
        })
        .unwrap();
    let game = game.advance_game(advancer);
    let decision = game.decide_merge().unwrap();
    let game = game.skip_merge(decision);
    let advancer = game
        .check_buy_stock([Some(Company::Continental), None, None])
        .unwrap();
    let game = game.advance_game(advancer).unwrap();

    // one founder's share and one bought share are issued
    assert_eq!(*game.stock_bank().get(Company::Continental), 2);
    assert_eq!(game.active_player(), "player1");
}

#[test]
fn founders_share_and_price() {
    let game = Game::start(&two_player_start(), 7);
    // player1 founds Continental next to the unaffiliated tile (2,a)
    let advancer = game
        .check_tile(TilePlacement {
            tile: Tile::new(1, 'a'),
            implication: Some(TilePlacementImplication::FoundsCompany(Company::Continental)),
        })
        .unwrap();
    let game = game.advance_game(advancer);
    let decision = game.decide_merge().unwrap();
    let game = game.skip_merge(decision);

    // Continental spans (1,a) and (2,a): 2 tiles at base 200 plus premium 200
    assert_eq!(game.board().stock_price(Company::Continental), 400);
    assert!(game.board().company_exists(Company::Continental));
    assert!(!game.board().company_is_safe(Company::Continental));
    assert_eq!(*game.stock_bank().get(Company::Continental), 1);
    assert_eq!(game.players()[0].holdings.continental, 1);

    // buying two shares costs 800
    let advancer = game
        .check_buy_stock([Some(Company::Continental), Some(Company::Continental), None])
        .unwrap();
    assert_eq!(advancer.total_cost(), 800);
    let game = game.advance_game(advancer).unwrap();
    assert_eq!(game.players()[0].money, 6000 - 800);
    assert_eq!(*game.stock_bank().get(Company::Continental), 3);
}

#[test]
fn merge_resolution_flow() {
    let start = GameStart {
        starting_cash: 6000,
        play_order: vec!["player1".to_owned(), "player2".to_owned()],
        tiles_placed: vec![Tile::new(1, 'a'), Tile::new(1, 'd')],
    };
    let game = Game::start(&start, 1);

    // player1 founds Continental at (1,b)
    let advancer = game
        .check_tile(TilePlacement {
            tile: Tile::new(1, 'b'),
            implication: Some(TilePlacementImplication::FoundsCompany(Company::Continental)),
        })
        .unwrap();
    let game = game.advance_game(advancer);
    let decision = game.decide_merge().unwrap();
    let game = game.skip_merge(decision);
    let advancer = game.check_buy_stock([None, None, None]).unwrap();
    let game = game.advance_game(advancer).unwrap();

    // player2 founds Luxor at (1,e)
    assert_eq!(game.active_player(), "player2");
    let advancer = game
        .check_tile(TilePlacement {
            tile: Tile::new(1, 'e'),
            implication: Some(TilePlacementImplication::FoundsCompany(Company::Luxor)),
        })
        .unwrap();
    let game = game.advance_game(advancer);
    let decision = game.decide_merge().unwrap();
    let game = game.skip_merge(decision);
    let advancer = game.check_buy_stock([None, None, None]).unwrap();
    let game = game.advance_game(advancer).unwrap();

    // player1 merges Luxor into Continental at (1,c)
    assert_eq!(game.active_player(), "player1");
    let merge = Merge::new(&vec![Company::Luxor], Company::Continental);
    let advancer = game
        .check_tile(TilePlacement {
            tile: Tile::new(1, 'c'),
            implication: Some(TilePlacementImplication::MergesCompanies(merge)),
        })
        .unwrap();
    let game = game.advance_game(advancer);
    let starter = game.decide_merge().unwrap_err();
    let game = game.commence_merge(starter);

    // the Luxor founder is the principal shareholder: 10 x 200 paid at once,
    // and the sole second place earns 5 x 200
    assert_eq!(game.current_merge(), (Company::Luxor, Company::Continental));
    assert!(game.beginning_of_new_merge());
    let results = game.principle_shareholders();
    assert_eq!(results.len(), 2);
    assert_eq!(results[0].player, "player2");
    assert_eq!(results[0].shares, 1);
    assert_eq!(results[0].position, 1);
    assert_eq!(results[0].prize, 2000);
    assert_eq!(results[1].position, 2);
    assert_eq!(results[1].prize, 1000);
    assert_eq!(game.players()[1].money, 8000);
    assert_eq!(game.players()[0].money, 7000);

    // a split that does not match the held stock is rejected and changes
    // nothing
    let before_money: Vec<u32> = game.players().iter().map(|p| p.money).collect();
    assert_eq!(
        game.check_merge_resolution(2, 0, 0),
        Err(MergeResolveError::ResolvesNonexistentStock)
    );
    assert_eq!(
        game.check_merge_resolution(0, 0, 1),
        Err(MergeResolveError::TradesInOddStock)
    );
    let after_money: Vec<u32> = game.players().iter().map(|p| p.money).collect();
    assert_eq!(before_money, after_money);

    // player2 sells the single Luxor share at its price of 200
    let step = game.check_merge_resolution(1, 0, 0).unwrap().unwrap();
    let mut game = game;
    assert!(!game.continue_merge(step));
    // player1 holds nothing and concludes the merge
    let step = game.check_merge_resolution(0, 0, 0).unwrap().unwrap_err();
    let game = game.finish_merge(step).unwrap();

    assert_eq!(game.players()[1].money, 8200);
    // the merger tile and the Luxor chain now belong to Continental
    assert_eq!(game.board().company_sizes.continental, 5);
    assert_eq!(game.board().company_sizes.luxor, 0);
    assert!(!game.board().company_exists(Company::Luxor));
    assert_eq!(game.board().get(Tile::new(1, 'e')), Some(Some(Company::Continental)));
    // re-checking the merger spot against the resolved board demands no
    // implication any more
    assert_eq!(
        game.board().check_implication(TilePlacement {
            tile: Tile::new(1, 'c'),
            implication: Some(TilePlacementImplication::FoundsCompany(Company::Luxor)),
        }),
        Err(IncorrectImplication::ShouldBeNone)
    );
}

#[test]
fn replay_after_placement_demands_none() {
    let game = Game::start(&two_player_start(), 3);
    let placement = TilePlacement { tile: Tile::new(1, 'a'), implication: None };
    // (1,a) borders the unaffiliated (2,a): it must found a company
    assert!(game.check_tile(placement).is_err());

    let placement = TilePlacement { tile: Tile::new(12, 'i'), implication: None };
    let advancer = game.check_tile(placement).unwrap();
    let game = game.advance_game(advancer);
    let decision = game.decide_merge().unwrap();
    let game = game.skip_merge(decision);
    // the placed tile is occupied but belongs to no one
    assert_eq!(game.board().get(Tile::new(12, 'i')), Some(None));
}
