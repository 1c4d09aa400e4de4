//! The beginning state of a turn: the game waits for the active player to
//! place a tile.

use vstd::prelude::*;

use crate::board::Board;
use crate::messages::{
    IncorrectImplication, InvalidMessageReason, PlayerAction, TaggedPlayerAction,
    TilePlacement, TilePlacementImplication,
};
use super::resolve_merge::MaybeResolvingMerge;
use super::{Game, State};

verus! {

/// The beginning state of a [`Game`] turn in which it is waiting for a
/// player to place a tile.
#[derive(Debug, Clone, Copy, PartialEq, Eq, Structural)]
pub struct PlacingTile;

impl State for PlacingTile {

}

/// A validated tile placement, stamped with the id of the game that
/// produced it, used to advance that game out of [`PlacingTile`].
#[derive(Debug, PartialEq, Eq, Structural)]
pub struct PlacingTileStateAdvance {
    /// Id of the game whose validation produced this value.
    pub game_id: usize,
    /// The validated placement.
    pub placement: TilePlacement,
}

impl PlacingTileStateAdvance {
    /// The placement this advance value applies.
    pub fn placement(&self) -> (r: &TilePlacement)
        ensures
            *r == self.placement,
    {
        &self.placement
    }
}

/// How applying a validated placement changes the game data: the board
/// takes the tile as [`Board::place_tile`] describes; founding a company
/// credits the founder one free share while the bank has any; nothing else
/// changes.
pub open spec fn spec_place_advance(
    pre: super::GameImpl,
    post: super::GameImpl,
    placement: TilePlacement,
) -> bool {
    &&& post.id == pre.id
    &&& post.player == pre.player
    &&& post.kernel.players@.len() == pre.kernel.players@.len()
    &&& post.kernel.board.tiles@.len() == pre.kernel.board.tiles@.len()
    &&& match placement.implication {
        None => {
            &&& post.kernel.players == pre.kernel.players
            &&& post.kernel.stock_bank == pre.kernel.stock_bank
            &&& post.kernel.board.merger_tile == pre.kernel.board.merger_tile
            &&& post.kernel.board.headquarters == pre.kernel.board.headquarters
            &&& (pre.kernel.board.bordering_company_count(placement.tile) == 0
                ==> post.kernel.board.tiles@ == pre.kernel.board.tiles@.update(
                placement.tile.index(),
                Some(None::<Company>),
            ))
            &&& (forall|c: Company|
                pre.kernel.board.borders_company(placement.tile, c)
                    ==> crate::board::relabeled_from(
                    pre.kernel.board,
                    post.kernel.board,
                    placement.tile,
                    c,
                ) && crate::board::chain_spread_exact(
                    pre.kernel.board,
                    post.kernel.board,
                    placement.tile,
                    c,
                ))
        },
        Some(TilePlacementImplication::FoundsCompany(c)) => {
            &&& crate::board::relabeled_from(
                pre.kernel.board,
                post.kernel.board,
                placement.tile,
                c,
            )
            &&& crate::board::chain_spread_exact(
                pre.kernel.board,
                post.kernel.board,
                placement.tile,
                c,
            )
            &&& post.kernel.board.merger_tile == pre.kernel.board.merger_tile
            &&& post.kernel.board.headquarters.spec_get(c) == Some(placement.tile)
            &&& forall|d: Company|
                d != c ==> post.kernel.board.headquarters.spec_get(d)
                    == pre.kernel.board.headquarters.spec_get(d)
            &&& if pre.kernel.stock_bank.spec_get(c) < 25 {
                &&& post.kernel.stock_bank.spec_get(c) == pre.kernel.stock_bank.spec_get(c)
                    + 1
                &&& forall|d: Company|
                    d != c ==> post.kernel.stock_bank.spec_get(d)
                        == pre.kernel.stock_bank.spec_get(d)
                &&& post.kernel.players@ == pre.kernel.players@.update(
                    pre.player as int,
                    founder_credited(pre.kernel.players@[pre.player as int], c),
                )
            } else {
                &&& post.kernel.stock_bank == pre.kernel.stock_bank
                &&& post.kernel.players == pre.kernel.players
            }
        },
        Some(TilePlacementImplication::MergesCompanies(m)) => {
            &&& post.kernel.players == pre.kernel.players
            &&& post.kernel.stock_bank == pre.kernel.stock_bank
            &&& post.kernel.board.tiles@ == pre.kernel.board.tiles@.update(
                placement.tile.index(),
                Some(None::<Company>),
            )
            &&& post.kernel.board.merger_tile == Some(placement.tile)
            &&& post.kernel.board.headquarters == pre.kernel.board.headquarters
        },
    }
}

/// The founding player's data after receiving the free founder's share.
pub open spec fn founder_credited(p: super::PlayerData, c: Company) -> super::PlayerData {
    super::PlayerData {
        name: p.name,
        money: p.money,
        holdings: p.holdings.spec_set(c, (p.holdings.spec_get(c) + 1) as u8),
        order: p.order,
        next_player: p.next_player,
    }
}

use crate::company::Company;

/// The verdict on a tile-placement message: it must be a tile placement,
/// from the active player, of a real board position, legal on the board.
/// A passing message yields its placement.
pub open spec fn spec_check_place_action(
    g: super::GameImpl,
    action: TaggedPlayerAction,
) -> Result<TilePlacement, InvalidMessageReason> {
    match action.action {
        PlayerAction::PlayTile { placement } => {
            if action.player_name@ != g.kernel.players@[g.player as int].name@ {
                Err(InvalidMessageReason::OutOfTurn)
            } else if !placement.tile.wf() {
                Err(
                    InvalidMessageReason::IncorrectTileImplication(
                        IncorrectImplication::ShouldBeNone,
                    ),
                )
            } else {
                match g.kernel.board.spec_check_implication(placement) {
                    Ok(_) => Ok(placement),
                    Err(e) => Err(InvalidMessageReason::IncorrectTileImplication(e)),
                }
            }
        },
        _ => Err(InvalidMessageReason::OutOfTurn),
    }
}

impl Game<PlacingTile> {
    /// Takes a [`PlayerAction`] and checks that it is the requested kind of
    /// action, from the active player, and legal on the board. If so, the
    /// returned [`PlacingTileStateAdvance`] can be used to advance this
    /// game.
    pub fn check_player_action(&self, action: &TaggedPlayerAction) -> (r: Result<
        PlacingTileStateAdvance,
        InvalidMessageReason,
    >)
        requires
            self.wf(),
        ensures
            r == (match spec_check_place_action(*self.data, *action) {
                Ok(p) => Ok::<PlacingTileStateAdvance, InvalidMessageReason>(
                    (PlacingTileStateAdvance { game_id: self.data.id, placement: p }),
                ),
                Err(e) => Err(e),
            }),
            r matches Ok(adv) ==> adv.game_id == self.data.id && adv.placement.tile.wf()
                && self.data.kernel.board.spec_check_implication(adv.placement) is Ok
                && action.action == (PlayerAction::PlayTile { placement: adv.placement }),
    {
        if let PlayerAction::PlayTile { placement } = action.action {
            let active = self.data.kernel.players[self.data.player].name.as_str();
            if !super::kernel::str_eq(active, action.player_name.as_str()) {
                return Err(InvalidMessageReason::OutOfTurn);
            }
            if !placement.tile.is_wf() {
                return Err(
                    InvalidMessageReason::IncorrectTileImplication(
                        IncorrectImplication::ShouldBeNone,
                    ),
                );
            }
            match self.data.kernel.board.check_implication(placement) {
                Ok(()) => Ok(
                    PlacingTileStateAdvance { game_id: self.data.id, placement },
                ),
                Err(e) => Err(InvalidMessageReason::IncorrectTileImplication(e)),
            }
        } else {
            Err(InvalidMessageReason::OutOfTurn)
        }
    }

    /// Places a tile as the active player and checks that the tile with its
    /// implication is valid. If the move is valid, a
    /// [`PlacingTileStateAdvance`] is returned that can be used to advance
    /// this game.
    pub fn check_tile(&self, placement: TilePlacement) -> (r: Result<
        PlacingTileStateAdvance,
        IncorrectImplication,
    >)
        requires
            self.wf(),
            placement.tile.wf(),
        ensures
            r matches Ok(adv) ==> self.data.kernel.board.spec_check_implication(
                placement,
            ) is Ok && adv.placement == placement && adv.game_id == self.data.id,
            r matches Err(e) ==> self.data.kernel.board.spec_check_implication(placement)
                == Err::<(), IncorrectImplication>(e),
    {
        match self.data.kernel.board.check_implication(placement) {
            Ok(()) => Ok(PlacingTileStateAdvance { game_id: self.data.id, placement }),
            Err(e) => Err(e),
        }
    }

    /// Advances the game to the next state, [`MaybeResolvingMerge`],
    /// applying the validated placement: the tile lands on the board, a
    /// founded company hands its founder one free share while the bank has
    /// any, and a merge is remembered for resolution. The advance value
    /// must have been produced by this very game instance.
    pub fn advance_game(self, advancer: PlacingTileStateAdvance) -> (r: Game<
        MaybeResolvingMerge,
    >)
        requires
            self.wf(),
            advancer.game_id == self.data.id,
            advancer.placement.tile.wf(),
            self.data.kernel.board.spec_check_implication(advancer.placement) is Ok,
        ensures
            r.wf(),
            spec_place_advance(*self.data, *r.data, advancer.placement),
            r.state.merge == (match advancer.placement.implication {
                Some(TilePlacementImplication::MergesCompanies(m)) => Some(m),
                _ => None,
            }),
            !(advancer.placement.implication matches Some(
                TilePlacementImplication::MergesCompanies(m),
            )) ==> r.data.kernel.board.spec_check_implication(
                TilePlacement { tile: advancer.placement.tile, implication: None },
            ) is Ok && (forall|imp: Option<TilePlacementImplication>|
                imp is Some ==> r.data.kernel.board.spec_check_implication(
                    TilePlacement { tile: advancer.placement.tile, implication: imp },
                ) == Err::<(), IncorrectImplication>(IncorrectImplication::ShouldBeNone)),
    {
        let mut data = self.data;
        let ghost pre = *data;

        proof {
            if advancer.placement.implication is None {
                assert(data.kernel.board.bordering_company_count(advancer.placement.tile)
                    <= 1);
            }
        }
        data.kernel.board.place_tile(advancer.placement);

        let state = match advancer.placement.implication {
            None => MaybeResolvingMerge { merge: None },
            Some(TilePlacementImplication::FoundsCompany(company)) => {
                let issued: u8 = *data.kernel.stock_bank.get(company);
                if issued < 25 {
                    let p = data.player;
                    let held: u8 = *data.kernel.players[p].holdings.get(company);
                    proof {
                        super::kernel::lemma_holdings_le_sum(
                            pre.kernel.players@,
                            company,
                            p as int,
                        );
                    }
                    data.kernel.players[p].holdings.set(company, held + 1);
                    data.kernel.stock_bank.set(company, issued + 1);
                    proof {
                        super::kernel::lemma_sum_holdings_update(
                            pre.kernel.players@,
                            company,
                            p as int,
                            data.kernel.players@[p as int],
                        );
                        assert forall|c: Company|
                            super::kernel::sum_holdings(data.kernel.players@, c) <= (
                            #[trigger] data.kernel.stock_bank.spec_get(c)) <= 25 by {
                            if c != company {
                                super::kernel::lemma_sum_holdings_update(
                                    pre.kernel.players@,
                                    c,
                                    p as int,
                                    data.kernel.players@[p as int],
                                );
                            }
                        }
                        assert(data.kernel.players@ == pre.kernel.players@.update(
                            p as int,
                            founder_credited(pre.kernel.players@[p as int], company),
                        ));
                        assert(data.kernel.players_wf());
                    }
                }
                MaybeResolvingMerge { merge: None }
            },
            Some(TilePlacementImplication::MergesCompanies(merge)) => {
                MaybeResolvingMerge { merge: Some(merge) }
            },
        };

        Game { data, state }
    }
}

} // verus!
