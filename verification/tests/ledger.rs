//! Shareholder ranking, payouts, standings and the final tally.

use acquire::board::Board;
use acquire::company::{Company, CompanyMap};
use acquire::kernel::{Game, GameKernel, PlayerData};
use acquire::messages::{
    GameStart, InvalidMessageReason, PlayerAction, TaggedPlayerAction, TilePlacement,
    TilePlacementImplication,
};
use acquire::tile::Tile;

fn player(name: &str, money: u32, order: usize, next: &str) -> PlayerData {
    PlayerData {
        name: name.to_owned(),
        money,
        holdings: CompanyMap::new(&0u8),
        order,
        next_player: next.to_owned(),
    }
}

/// A board where Tower has exactly two tiles, so its share price is 200.
fn tower_board() -> Board {
    let mut board = Board::new();
    board.place_tile(TilePlacement { tile: Tile::new(1, 'a'), implication: None });
    board.place_tile(TilePlacement {
        tile: Tile::new(1, 'b'),
        implication: Some(TilePlacementImplication::FoundsCompany(Company::Tower)),
    });
    board
}

fn three_player_kernel() -> GameKernel {
    let mut players = vec![
        player("alpha", 1000, 0, "beta"),
        player("beta", 1000, 1, "gamma"),
        player("gamma", 1000, 2, "alpha"),
    ];
    players[0].holdings.tower = 5;
    players[1].holdings.tower = 3;
    players[2].holdings.tower = 3;
    let mut stock_bank = CompanyMap::new(&0u8);
    stock_bank.tower = 11;
    GameKernel { board: tower_board(), stock_bank, players }
}

#[test]
fn principal_bonus_with_tie_for_second() {
    let mut kernel = three_player_kernel();
    let results = kernel.pay_principle_bonuses(Company::Tower);

    // price 200: the leader earns 2000, the two tied seconds 1000 each
    assert_eq!(results.len(), 3);
    assert_eq!(results[0].player, "alpha");
    assert_eq!(results[0].position, 1);
    assert_eq!(results[0].prize, 2000);
    assert_eq!(results[1].position, 2);
    assert_eq!(results[1].prize, 1000);
    assert_eq!(results[2].position, 2);
    assert_eq!(results[2].prize, 1000);
    assert_eq!(kernel.players[0].money, 3000);
    assert_eq!(kernel.players[1].money, 2000);
    assert_eq!(kernel.players[2].money, 2000);
}

#[test]
fn three_way_tie_pays_no_secondary_bonus() {
    let mut kernel = three_player_kernel();
    kernel.players[0].holdings.tower = 3;

    let results = kernel.pay_principle_bonuses(Company::Tower);
    for r in &results {
        assert_eq!(r.position, 1);
        assert_eq!(r.prize, 2000);
    }
    for p in &kernel.players {
        assert_eq!(p.money, 3000);
    }
}

#[test]
fn bonus_for_nonexistent_company_pays_nothing() {
    let mut kernel = three_player_kernel();
    let results = kernel.pay_principle_bonuses(Company::Festival);
    assert_eq!(results.len(), 3);
    for r in &results {
        assert_eq!(r.prize, 0);
    }
    for p in &kernel.players {
        assert_eq!(p.money, 1000);
    }
}

#[test]
fn standings_walk_ascending_cash() {
    let mut kernel = three_player_kernel();
    kernel.players[0].money = 500;
    kernel.players[1].money = 2500;
    kernel.players[2].money = 1500;

    let standings = kernel.get_standings();
    assert_eq!(standings.len(), 3);
    // ascending by cash, and the place advances only on a strict decrease,
    // which an ascending walk never meets
    assert_eq!(standings[0].player_name, "alpha");
    assert_eq!(standings[0].final_money, 500);
    assert_eq!(standings[0].place, 1);
    assert_eq!(standings[1].player_name, "gamma");
    assert_eq!(standings[1].final_money, 1500);
    assert_eq!(standings[1].place, 1);
    assert_eq!(standings[2].player_name, "beta");
    assert_eq!(standings[2].final_money, 2500);
    assert_eq!(standings[2].place, 1);
}

#[test]
fn tally_pays_bonuses_and_liquidates() {
    let start = GameStart {
        starting_cash: 6000,
        play_order: vec!["player1".to_owned(), "player2".to_owned()],
        tiles_placed: vec![Tile::new(3, 'b'), Tile::new(2, 'a')],
    };
    let game = Game::start(&start, 9);
    // player1 founds Continental at (1,a), taking the founder's share
    let advancer = game
        .check_tile(TilePlacement {
            tile: Tile::new(1, 'a'),
            implication: Some(TilePlacementImplication::FoundsCompany(Company::Continental)),
        })
        .unwrap();
    let game = game.advance_game(advancer);
    let decision = game.decide_merge().unwrap();
    let game = game.skip_merge(decision);

    let game_over = game.end_early();
    let results = game_over.tally_results();

    // only Continental was on the board
    assert!(results.shareholder_results.continental.is_some());
    assert!(results.shareholder_results.luxor.is_none());
    let continental = results.shareholder_results.continental.as_ref().unwrap();
    assert_eq!(continental.len(), 2);
    assert_eq!(continental[0].player, "player1");
    assert_eq!(continental[0].prize, 4000);

    // player1: 6000 + principal bonus 4000 + one share at 400
    // player2: 6000 + secondary bonus 2000
    assert_eq!(results.final_standings.len(), 2);
    let p2 = results
        .final_standings
        .iter()
        .find(|r| r.player_name == "player2")
        .unwrap();
    assert_eq!(p2.final_money, 8000);
    let p1 = results
        .final_standings
        .iter()
        .find(|r| r.player_name == "player1")
        .unwrap();
    assert_eq!(p1.final_money, 10400);
}

#[test]
fn out_of_turn_actions_are_rejected() {
    let start = GameStart {
        starting_cash: 6000,
        play_order: vec!["player1".to_owned(), "player2".to_owned()],
        tiles_placed: vec![],
    };
    let game = Game::start(&start, 11);

    let action = TaggedPlayerAction {
        player_name: "player2".to_owned(),
        action: PlayerAction::PlayTile {
            placement: TilePlacement { tile: Tile::new(4, 'd'), implication: None },
        },
    };
    assert_eq!(game.check_player_action(&action), Err(InvalidMessageReason::OutOfTurn));

    let action = TaggedPlayerAction {
        player_name: "player1".to_owned(),
        action: PlayerAction::BuyStock { first: None, second: None, third: None },
    };
    assert_eq!(game.check_player_action(&action), Err(InvalidMessageReason::OutOfTurn));

    let action = TaggedPlayerAction {
        player_name: "player1".to_owned(),
        action: PlayerAction::PlayTile {
            placement: TilePlacement { tile: Tile::new(4, 'd'), implication: None },
        },
    };
    assert!(game.check_player_action(&action).is_ok());
}
