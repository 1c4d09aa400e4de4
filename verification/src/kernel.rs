//! The game state machine: a typestate-tagged game value that walks each
//! turn from tile placement through merge resolution to stock purchase.
//! Validation never mutates; each validated action yields an advance value,
//! stamped with the game's instance id, whose application consumes the game
//! and returns it in its next state.

pub mod kernel;
mod sealed;
pub mod init;
pub mod place_tile;
pub mod resolve_merge;
pub mod buy_stock;
pub mod ambiguous;

use vstd::prelude::*;

use crate::board::Board;
use crate::company::{Company, CompanyMap};
use crate::messages::{FinalResult, GameOver, PrincipleShareholderResult};

pub use ambiguous::{Ambiguous, GameDisambiguation};
pub use buy_stock::{BuyingStock, BuyingStockStateAdvance};
pub use kernel::{GameKernel, PlayerData};
pub use place_tile::{PlacingTile, PlacingTileStateAdvance};
pub use resolve_merge::{
    ContinueMerging, DoneMerging, MaybeResolvingMerge, MergeResolution, MergeStep,
    ResolvingMerge,
};

verus! {

/// The state-independent part of a game: the kernel, the player whose
/// action is awaited, and the unique instance id that guards advance values
/// against being replayed on another instance.
#[derive(Debug)]
pub struct GameImpl {
    /// Holds the game data itself.
    pub kernel: GameKernel,
    /// Index of the player who is playing in the current state.
    pub player: usize,
    /// Unique identifier for this game, used to guard against state
    /// transitions being used for the wrong game. The surrounding system
    /// assigns it at creation.
    pub id: usize,
}

impl GameImpl {
    /// A well-formed game core: a well-formed kernel and an active player
    /// inside the table.
    pub open spec fn wf(self) -> bool {
        &&& self.kernel.wf()
        &&& self.player < self.kernel.players@.len()
    }
}

/// Marker trait of the phase types a [`Game`] can be in. The set is sealed:
/// every phase of the engine is one of [`PlacingTile`],
/// [`MaybeResolvingMerge`], [`ResolvingMerge`], [`BuyingStock`],
/// [`Ambiguous`] and [`GameOver`].
pub trait State: sealed::SealedState {

}

/// Controls a game. The type argument names the phase the game is in, so
/// an action can only be attempted in the phase that accepts it. A turn
/// begins in [`PlacingTile`], passes through [`MaybeResolvingMerge`] and
/// possibly [`ResolvingMerge`], and ends in [`BuyingStock`]; a finished
/// game is a `Game<GameOver>`.
#[derive(Debug)]
pub struct Game<S: State> {
    /// The shared game data.
    pub data: Box<GameImpl>,
    /// The current state of the game.
    pub state: S,
}

impl<S: State> Game<S> {
    /// Well-formedness of the game's shared data.
    pub open spec fn wf(self) -> bool {
        self.data.wf()
    }

    /// Gets a reference to the state of the board.
    pub fn board(&self) -> (r: &Board)
        ensures
            *r == self.data.kernel.board,
    {
        &self.data.kernel.board
    }

    /// Gets a reference to the number of stocks that have been bought from
    /// each company.
    pub fn stock_bank(&self) -> (r: &CompanyMap<u8>)
        ensures
            *r == self.data.kernel.stock_bank,
    {
        &self.data.kernel.stock_bank
    }

    /// Gets a reference to the players and their data, in turn order.
    pub fn players(&self) -> (r: &Vec<PlayerData>)
        ensures
            *r == self.data.kernel.players,
    {
        &self.data.kernel.players
    }

    /// Gets the name of the player from which action is needed.
    pub fn active_player(&self) -> (r: &str)
        requires
            self.wf(),
        ensures
            r@ == self.data.kernel.players@[self.data.player as int].name@,
    {
        self.data.kernel.players[self.data.player].name.as_str()
    }

    /// Immediately ends this game with the reason
    /// [`GameOver::EndedEarly`].
    pub fn end_early(self) -> (r: Game<GameOver>)
        ensures
            r.data == self.data,
            r.state == GameOver::EndedEarly,
    {
        Game { data: self.data, state: GameOver::EndedEarly }
    }

    /// Get the current standings of the game.
    pub fn get_standings(&self) -> (standings: Vec<FinalResult>)
        requires
            self.wf(),
        ensures
            kernel::spec_standings(self.data.kernel.players@, standings@),
    {
        self.data.kernel.get_standings()
    }
}

} // verus!

verus! {

use crate::company::{company_from_id, company_id};
use crate::messages::GameOver as GameOverReason;
use kernel::{
    add_cash, bonus_multiplier, count_holders_above, spec_position, spec_shareholder_results,
    sum_holdings,
};

/// The final results of the game.
pub struct GameResults {
    /// The final principal shareholder results for every company that was
    /// on the board at the end of the game.
    pub shareholder_results: CompanyMap<Option<Vec<PrincipleShareholderResult>>>,
    /// The final standings, in the order of the final tally walk.
    pub final_standings: Vec<FinalResult>,
}

/// One company's contribution to a player's final payout: the position
/// bonus followed by the liquidation of the player's remaining holding at
/// the company's final price.
pub open spec fn spec_tally_step(
    ps0: Seq<PlayerData>,
    board: crate::board::Board,
    p: int,
    m: u32,
    c: Company,
) -> u32 {
    let price = board.spec_price(c);
    let with_bonus = add_cash(m, bonus_multiplier(spec_position(ps0, c, p)) * price);
    add_cash(with_bonus, price * ps0[p].holdings.spec_get(c))
}

/// A player's cash after the final tally has walked the first `id`
/// companies in declaration order.
pub open spec fn spec_tally_money(
    ps0: Seq<PlayerData>,
    board: crate::board::Board,
    p: int,
    id: int,
) -> u32
    decreases id,
{
    if id <= 0 {
        ps0[p].money
    } else {
        spec_tally_step(
            ps0,
            board,
            p,
            spec_tally_money(ps0, board, p, id - 1),
            company_from_id(id - 1),
        )
    }
}

/// The player table after the final tally: every holding kept, every cash
/// balance grown by all seven companies' bonuses and liquidations.
pub open spec fn spec_tallied(ps0: Seq<PlayerData>, board: crate::board::Board) -> Seq<
    PlayerData,
> {
    Seq::new(
        ps0.len(),
        |p: int|
            PlayerData {
                name: ps0[p].name,
                money: spec_tally_money(ps0, board, p, 7),
                holdings: ps0[p].holdings,
                order: ps0[p].order,
                next_player: ps0[p].next_player,
            },
    )
}

/// A ranked shareholder list reads only each player's name and holdings,
/// so it holds of any table that agrees on those.
proof fn lemma_results_congruent(
    ps1: Seq<PlayerData>,
    ps2: Seq<PlayerData>,
    c: Company,
    price: u32,
    rs: Seq<PrincipleShareholderResult>,
)
    requires
        ps1.len() == ps2.len(),
        forall|i: int|
            0 <= i < ps1.len() ==> (#[trigger] ps1[i].name)@ == ps2[i].name@
                && ps1[i].holdings == ps2[i].holdings,
        spec_shareholder_results(ps1, c, price, rs),
    ensures
        spec_shareholder_results(ps2, c, price, rs),
{
    assert forall|k: int|
        0 <= k < rs.len() implies #[trigger] kernel::entry_names_player(ps2, c, rs, k) by {
        assert(kernel::entry_names_player(ps1, c, rs, k));
        let p = choose|p: int|
            0 <= p < ps1.len() && (#[trigger] ps1[p].name)@ == rs[k].player@ && rs[k].shares
                == ps1[p].holdings.spec_get(c);
        assert(0 <= p < ps2.len() && ps2[p].name@ == rs[k].player@ && rs[k].shares
            == ps2[p].holdings.spec_get(c));
    }
    assert forall|p: int|
        0 <= p < ps2.len() implies #[trigger] kernel::results_cover_player(ps2, rs, p) by {
        assert(kernel::results_cover_player(ps1, rs, p));
        let k = choose|k: int|
            0 <= k < rs.len() && (#[trigger] rs[k].player)@ == ps1[p].name@;
        assert(0 <= k < rs.len() && rs[k].player@ == ps2[p].name@);
    }
    assert forall|k: int|
        0 <= k < rs.len() implies (#[trigger] rs[k]).position as int == count_holders_above(
        ps2,
        c,
        rs[k].shares as int,
    ) + 1 by {
        assert forall|i: int|
            0 <= i < ps1.len() implies (#[trigger] ps1[i].holdings).spec_get(c)
            == ps2[i].holdings.spec_get(c) by {
            assert(ps1[i].name@ == ps2[i].name@);
        }
        kernel::lemma_count_above_congruent(ps1, ps2, c, rs[k].shares as int);
    }
}

impl Game<GameOverReason> {
    /// Provides the reason that this game is over.
    pub fn reason(&self) -> (r: &GameOverReason)
        ensures
            *r == self.state,
    {
        &self.state
    }

    /// Tallies up the final results of the game: for every company, the
    /// principal and secondary shareholder bonuses are paid out one last
    /// time and every player's remaining holding is liquidated at the
    /// company's final price; the ranked shareholder lists are kept for
    /// every company still on the board, and the final standings are
    /// computed from the resulting cash.
    pub fn tally_results(self) -> (r: GameResults)
        requires
            self.wf(),
        ensures
            forall|c: Company|
                (#[trigger] r.shareholder_results.spec_get(c)) is Some
                    <==> self.data.kernel.board.spec_company_exists(c),
            forall|c: Company|
                #[trigger] r.shareholder_results.spec_get(c) matches Some(rs)
                    ==> spec_shareholder_results(
                    self.data.kernel.players@,
                    c,
                    self.data.kernel.board.spec_price(c),
                    rs@,
                ),
            kernel::spec_standings(
                spec_tallied(self.data.kernel.players@, self.data.kernel.board),
                r.final_standings@,
            ),
    {
        let mut data = self.data;
        let ghost ps0 = data.kernel.players@;
        let ghost board0 = data.kernel.board;
        let n = data.kernel.players.len();

        let mut shareholder_results: CompanyMap<Option<Vec<PrincipleShareholderResult>>> =
            CompanyMap {
            continental: None,
            imperial: None,
            american: None,
            festival: None,
            worldwide: None,
            luxor: None,
            tower: None,
        };

        let mut id: u8 = 0;
        while id < 7
            invariant
                id <= 7,
                n == ps0.len(),
                data.kernel.players@.len() == n,
                data.kernel.wf(),
                data.kernel.board == board0,
                forall|p: int|
                    0 <= p < n ==> {
                        let cur = #[trigger] data.kernel.players@[p];
                        &&& cur.name == ps0[p].name
                        &&& cur.holdings == ps0[p].holdings
                        &&& cur.order == ps0[p].order
                        &&& cur.next_player == ps0[p].next_player
                        &&& cur.money == spec_tally_money(ps0, board0, p, id as int)
                    },
                forall|c: Company|
                    company_id(c) < id ==> ((#[trigger] shareholder_results.spec_get(
                        c,
                    )) is Some <==> board0.spec_company_exists(c)),
                forall|c: Company|
                    #![trigger shareholder_results.spec_get(c)]
                    company_id(c) < id ==> (shareholder_results.spec_get(c) matches Some(rs)
                        ==> spec_shareholder_results(ps0, c, board0.spec_price(c), rs@)),
                forall|c: Company|
                    company_id(c) >= id ==> (#[trigger] shareholder_results.spec_get(
                        c,
                    )) is None,
            decreases 7 - id,
        {
            let company = crate::company::Company::inv_id(id);
            let ghost stage_ps = data.kernel.players@;
            let price = data.kernel.board.stock_price(company);
            let results = data.kernel.pay_principle_bonuses(company);
            proof {
                assert forall|p: int|
                    0 <= p < n implies spec_position(stage_ps, company, p) == spec_position(
                    ps0,
                    company,
                    p,
                ) by {
                    kernel::lemma_count_above_congruent(
                        stage_ps,
                        ps0,
                        company,
                        stage_ps[p].holdings.spec_get(company) as int,
                    );
                }
                lemma_results_congruent(stage_ps, ps0, company, price, results@);
            }

            let ghost bonus_ps = data.kernel.players@;
            let mut p: usize = 0;
            while p < n
                invariant
                    p <= n,
                    n == bonus_ps.len(),
                    data.kernel.players@.len() == n,
                    data.kernel.wf(),
                    data.kernel.board == board0,
                    price == board0.spec_price(company),
                    price <= 1200,
                    forall|q: int|
                        p <= q < n ==> data.kernel.players@[q] == bonus_ps[q],
                    forall|q: int|
                        0 <= q < p ==> {
                            let cur = #[trigger] data.kernel.players@[q];
                            &&& cur.name == bonus_ps[q].name
                            &&& cur.holdings == bonus_ps[q].holdings
                            &&& cur.order == bonus_ps[q].order
                            &&& cur.next_player == bonus_ps[q].next_player
                            &&& cur.money == add_cash(
                                bonus_ps[q].money,
                                price * bonus_ps[q].holdings.spec_get(company),
                            )
                        },
                decreases n - p,
            {
                let ghost prev = data.kernel.players@;
                proof {
                    kernel::lemma_holdings_le_sum(data.kernel.players@, company, p as int);
                }
                let held: u8 = *data.kernel.players[p].holdings.get(company);
                proof {
                    assert(sum_holdings(data.kernel.players@, company)
                        <= data.kernel.stock_bank.spec_get(company));
                    assert(price as int * (held as int) <= 1200 * 25) by (nonlinear_arith)
                        requires
                            price <= 1200,
                            0 <= held <= 25,
                    ;
                }
                let payout: u32 = price * (held as u32);
                let money = data.kernel.players[p].money;
                let new_money = if payout > u32::MAX - money {
                    u32::MAX
                } else {
                    money + payout
                };
                data.kernel.players[p].money = new_money;
                proof {
                    assert forall|c: Company|
                        sum_holdings(data.kernel.players@, c) <= (
                        #[trigger] data.kernel.stock_bank.spec_get(c)) <= 25 by {
                        kernel::lemma_sum_holdings_congruent(data.kernel.players@, prev, c);
                    }
                }
                p += 1;
            }

            if data.kernel.board.company_exists(company) {
                shareholder_results.set(company, Some(results));
            }
            proof {
                assert forall|pp: int|
                    0 <= pp < n implies {
                    let cur = #[trigger] data.kernel.players@[pp];
                    &&& cur.name == ps0[pp].name
                    &&& cur.holdings == ps0[pp].holdings
                    &&& cur.order == ps0[pp].order
                    &&& cur.next_player == ps0[pp].next_player
                    &&& cur.money == spec_tally_money(ps0, board0, pp, id as int + 1)
                } by {
                    assert(kernel::player_paid_bonus(
                        stage_ps,
                        bonus_ps,
                        pp,
                        company,
                        price,
                    ));
                    assert(spec_tally_money(ps0, board0, pp, id as int + 1) == spec_tally_step(
                        ps0,
                        board0,
                        pp,
                        spec_tally_money(ps0, board0, pp, id as int),
                        company_from_id(id as int),
                    ));
                }
            }
            id += 1;
        }

        let final_standings = data.kernel.get_standings();
        proof {
            assert(data.kernel.players@ =~= spec_tallied(ps0, board0));
            assert forall|c: Company| company_id(c) < 7 by {}
            assert forall|c: Company|
                (#[trigger] shareholder_results.spec_get(c)) is Some
                    <==> board0.spec_company_exists(c) by {
                assert(company_id(c) < 7);
            }
        }
        GameResults { shareholder_results, final_standings }
    }
}

} // verus!
