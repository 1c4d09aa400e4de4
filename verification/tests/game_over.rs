//! Whole games driven through the run-time dispatcher until they end.

use acquire::client::parse_game_command;
use acquire::kernel::Game;
use acquire::messages::{GameOver, GameStart, TaggedPlayerAction};
use acquire::tile::Tile;

fn solo_start(cash: u32) -> GameStart {
    GameStart {
        starting_cash: cash,
        play_order: vec!["solo".to_owned()],
        tiles_placed: vec![Tile::new(1, 'a')],
    }
}

fn command(text: &str) -> TaggedPlayerAction {
    TaggedPlayerAction {
        player_name: "solo".to_owned(),
        action: parse_game_command(text).expect("the command should decode"),
    }
}

#[test]
fn exhausting_every_share_ends_the_game() {
    let game = Game::start(&solo_start(100_000), 21);
    let mut game = game.into_ambiguous();

    // found Continental and buy three shares a turn until all 25 are issued
    let mut moves = vec![command("play 1-b founding continental"), command("buy c c c")];
    for col in ['c', 'd', 'e', 'f', 'g', 'h', 'i'] {
        moves.push(command(&format!("play 1-{}", col)));
        moves.push(command("buy c c c"));
    }

    let mut over = None;
    for mv in &moves {
        game = match game.try_advance_game(mv) {
            Ok(Ok(next)) => next,
            Ok(Err(done)) => {
                over = Some(done);
                break;
            }
            Err((_, reason)) => panic!("move rejected: {:?}", reason),
        };
    }
    let over = over.expect("the shares should run out");
    assert_eq!(*over.reason(), GameOver::NoStock);
    assert_eq!(*over.stock_bank().get(acquire::company::Company::Continental), 25);
}

#[test]
fn dominating_company_ends_the_game() {
    let game = Game::start(&solo_start(6000), 22);
    let mut game = game.into_ambiguous();

    // grow one connected Continental chain to 41 tiles, buying nothing
    let mut moves = vec![command("play 1-b founding continental"), command("buy")];
    let mut spots = Vec::new();
    for col in ['c', 'd', 'e', 'f', 'g', 'h', 'i'] {
        spots.push((1u8, col));
    }
    for row in [2u8, 3, 4] {
        for col in ['a', 'b', 'c', 'd', 'e', 'f', 'g', 'h', 'i'] {
            spots.push((row, col));
        }
    }
    for col in ['a', 'b', 'c', 'd', 'e'] {
        spots.push((5u8, col));
    }
    for (row, col) in spots {
        moves.push(command(&format!("play {}-{}", row, col)));
        moves.push(command("buy"));
    }

    let mut over = None;
    for mv in &moves {
        game = match game.try_advance_game(mv) {
            Ok(Ok(next)) => next,
            Ok(Err(done)) => {
                over = Some(done);
                break;
            }
            Err((_, reason)) => panic!("move rejected: {:?}", reason),
        };
    }
    let over = over.expect("the chain should dominate the board");
    assert_eq!(
        *over.reason(),
        GameOver::DominatingCompany { company: acquire::company::Company::Continental }
    );
    assert_eq!(over.board().company_sizes.continental, 41);
}

#[test]
fn speed_play_runs_a_scripted_game() {
    let game = Game::start(&solo_start(100_000), 23);
    let game = game.into_ambiguous();

    let mut moves = vec![command("play 1-b founding continental"), command("buy c c c")];
    for col in ['c', 'd', 'e', 'f', 'g', 'h', 'i'] {
        moves.push(command(&format!("play 1-{}", col)));
        moves.push(command("buy c c c"));
    }

    match game.speed_play(&moves) {
        Ok(Err(over)) => assert_eq!(*over.reason(), GameOver::NoStock),
        Ok(Ok(_)) => panic!("the shares should have run out"),
        Err((_, reason)) => panic!("move rejected: {:?}", reason),
    }
}
