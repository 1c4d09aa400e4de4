//! Decoding text commands into engine actions.

use acquire::client::{parse_admin_command, parse_game_command, CommandParseErr};
use acquire::company::Company;
use acquire::messages::{AdminCommand, Merge, PlayerAction, TilePlacement, TilePlacementImplication};
use acquire::tile::Tile;

#[test]
fn parse_play_commands() {
    assert_eq!(
        parse_game_command("play 12-d"),
        Ok(PlayerAction::PlayTile {
            placement: TilePlacement { tile: Tile::new(12, 'd'), implication: None }
        })
    );
    assert_eq!(
        parse_game_command("play 2-b founding continental"),
        Ok(PlayerAction::PlayTile {
            placement: TilePlacement {
                tile: Tile::new(2, 'b'),
                implication: Some(TilePlacementImplication::FoundsCompany(Company::Continental)),
            }
        })
    );
    assert_eq!(
        parse_game_command("play 3-f merging w into c"),
        Ok(PlayerAction::PlayTile {
            placement: TilePlacement {
                tile: Tile::new(3, 'f'),
                implication: Some(TilePlacementImplication::MergesCompanies(Merge::new(
                    &vec![Company::Worldwide],
                    Company::Continental,
                ))),
            }
        })
    );
    assert_eq!(
        parse_game_command("play 3-f merging w l t into c"),
        Ok(PlayerAction::PlayTile {
            placement: TilePlacement {
                tile: Tile::new(3, 'f'),
                implication: Some(TilePlacementImplication::MergesCompanies(Merge::new(
                    &vec![Company::Worldwide, Company::Luxor, Company::Tower],
                    Company::Continental,
                ))),
            }
        })
    );

    assert_eq!(parse_game_command("play"), Err(CommandParseErr::Expected("tile")));
    assert_eq!(parse_game_command("play 77-z"), Err(CommandParseErr::Expected("tile")));
    assert_eq!(
        parse_game_command("play 3-f sideways"),
        Err(CommandParseErr::Expected("\"founding\" or \"merging\""))
    );
    assert_eq!(
        parse_game_command("play 3-f founding"),
        Err(CommandParseErr::Expected("company"))
    );
    assert_eq!(
        parse_game_command("play 3-f merging w l"),
        Err(CommandParseErr::Expected("into"))
    );
    assert_eq!(
        parse_game_command("play 3-f merging w into"),
        Err(CommandParseErr::Expected("company"))
    );
}

#[test]
fn parse_buy_commands() {
    assert_eq!(
        parse_game_command("buy"),
        Ok(PlayerAction::BuyStock { first: None, second: None, third: None })
    );
    assert_eq!(
        parse_game_command("buy c"),
        Ok(PlayerAction::BuyStock { first: Some(Company::Continental), second: None, third: None })
    );
    assert_eq!(
        parse_game_command("buy c tower luxor"),
        Ok(PlayerAction::BuyStock {
            first: Some(Company::Continental),
            second: Some(Company::Tower),
            third: Some(Company::Luxor),
        })
    );
    assert_eq!(parse_game_command("buy z"), Err(CommandParseErr::Expected("company")));
    assert_eq!(
        parse_game_command("nonsense"),
        Err(CommandParseErr::Expected("\"play\", \"buy\", or \"resolve\""))
    );
}

#[test]
fn parse_resolve_commands() {
    assert_eq!(
        parse_game_command("resolve sell 3 trade 4 keep 6"),
        Ok(PlayerAction::ResolveMergeStock { selling: 3, trading: 4, keeping: 6 })
    );
    assert_eq!(
        parse_game_command("resolve keep 1 sell 0 trade 2"),
        Ok(PlayerAction::ResolveMergeStock { selling: 0, trading: 2, keeping: 1 })
    );
    assert_eq!(
        parse_game_command("resolve sell 3 sell 4 keep 6"),
        Err(CommandParseErr::DuplicateArgument("sell".to_owned()))
    );
    assert_eq!(
        parse_game_command("resolve sell x trade 4 keep 6"),
        Err(CommandParseErr::Expected("integer"))
    );
    assert_eq!(
        parse_game_command("resolve sell 3 trade 4"),
        Err(CommandParseErr::Expected("\"trade\", \"sell\", or \"keep\""))
    );
}

#[test]
fn parse_admin_commands() {
    assert_eq!(parse_admin_command("shutdown"), Ok(AdminCommand::Shutdown));
    assert_eq!(parse_admin_command("silencechat"), Ok(AdminCommand::SilenceChat));
    assert_eq!(parse_admin_command("start"), Ok(AdminCommand::StartGame));
    assert_eq!(parse_admin_command("end"), Ok(AdminCommand::EndGame));
    assert_eq!(
        parse_admin_command("kick wallaby"),
        Ok(AdminCommand::Kick { player_name: "wallaby".to_owned() })
    );
    assert_eq!(parse_admin_command("kick"), Err(CommandParseErr::Expected("player name")));
    assert_eq!(
        parse_admin_command("dance"),
        Err(CommandParseErr::Expected(
            "\"shutdown\", \"silencechat\", \"start\", \"end\", or \"kick\""
        ))
    );
}
