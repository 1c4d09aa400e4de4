//! The end state of a turn: the active player may buy up to three shares.

use vstd::prelude::*;

use crate::company::Company;
use super::State;

verus! {

/// The end state of a [`super::Game`] turn in which it is waiting for the
/// active player to buy stock.
#[derive(Debug, Clone, Copy, PartialEq, Eq, Structural)]
pub struct BuyingStock;

impl State for BuyingStock {

}

/// A validated stock purchase, stamped with the id of the game that
/// produced it, used to advance that game out of [`BuyingStock`].
#[derive(Debug, PartialEq, Eq)]
pub struct BuyingStockStateAdvance {
    /// The up-to-three shares bought by the player.
    pub stock: [Option<Company>; 3],
    /// The total price of the purchase.
    pub total_cost: u32,
    /// Id of the game whose validation produced this value.
    pub game_id: usize,
}

impl BuyingStockStateAdvance {
    /// The shares this purchase buys.
    pub fn stock(&self) -> (r: [Option<Company>; 3])
        ensures
            r == self.stock,
    {
        self.stock
    }

    /// The total price of the purchase.
    pub fn total_cost(&self) -> (r: u32)
        ensures
            r == self.total_cost,
    {
        self.total_cost
    }
}

} // verus!

verus! {

use crate::board::Board;
use crate::company::CompanyMap;
use crate::messages::{
    BuyStockError, GameOver, InvalidMessageReason, PlayerAction, TaggedPlayerAction,
};
use super::kernel::{add_cash, sum_holdings, PlayerData};
use super::place_tile::PlacingTile;
use super::Game;

/// The verdict on one chosen share against the board and the bank as it
/// stands after the earlier choices of the same purchase: the company must
/// exist and must still have unissued shares.
pub open spec fn spec_buy_entry(b: Board, bank: CompanyMap<u8>, o: Option<Company>) -> Option<
    BuyStockError,
> {
    match o {
        None => None,
        Some(c) => if !b.spec_company_exists(c) {
            Some(BuyStockError::NonexistentCompany { company: c })
        } else if bank.spec_get(c) >= 25 {
            Some(BuyStockError::OutOfStock)
        } else {
            None
        },
    }
}

/// The bank after issuing one chosen share.
pub open spec fn spec_bank_after(bank: CompanyMap<u8>, o: Option<Company>) -> CompanyMap<u8> {
    match o {
        None => bank,
        Some(c) => bank.spec_set(c, (bank.spec_get(c) + 1) as u8),
    }
}

/// The price of one chosen share.
pub open spec fn spec_entry_cost(b: Board, o: Option<Company>) -> int {
    match o {
        None => 0,
        Some(c) => b.spec_price(c) as int,
    }
}

/// The verdict on a whole purchase of up to three shares: each chosen
/// company must exist and have a share left after the earlier choices, and
/// the player must be able to afford the total.
pub open spec fn spec_check_buy(
    b: Board,
    bank: CompanyMap<u8>,
    money: u32,
    s: Seq<Option<Company>>,
) -> Result<u32, BuyStockError> {
    let bank1 = spec_bank_after(bank, s[0]);
    let bank2 = spec_bank_after(bank1, s[1]);
    if spec_buy_entry(b, bank, s[0]) is Some {
        Err(spec_buy_entry(b, bank, s[0]).unwrap())
    } else if spec_buy_entry(b, bank1, s[1]) is Some {
        Err(spec_buy_entry(b, bank1, s[1]).unwrap())
    } else if spec_buy_entry(b, bank2, s[2]) is Some {
        Err(spec_buy_entry(b, bank2, s[2]).unwrap())
    } else {
        let total = spec_entry_cost(b, s[0]) + spec_entry_cost(b, s[1]) + spec_entry_cost(
            b,
            s[2],
        );
        if total > money {
            Err(BuyStockError::InsufficientFunds { deficit: (total - money) as u32 })
        } else {
            Ok(total as u32)
        }
    }
}

/// The player's data after the purchase: one share of each chosen company
/// more, the total price poorer.
pub open spec fn spec_bought_player(
    p: PlayerData,
    s: Seq<Option<Company>>,
    total: u32,
) -> PlayerData {
    let h1 = spec_holdings_after(p.holdings, s[0]);
    let h2 = spec_holdings_after(h1, s[1]);
    let h3 = spec_holdings_after(h2, s[2]);
    PlayerData {
        name: p.name,
        money: (p.money - total) as u32,
        holdings: h3,
        order: p.order,
        next_player: p.next_player,
    }
}

/// A holdings table after gaining one chosen share.
pub open spec fn spec_holdings_after(h: CompanyMap<u8>, o: Option<Company>) -> CompanyMap<u8> {
    match o {
        None => h,
        Some(c) => h.spec_set(c, (h.spec_get(c) + 1) as u8),
    }
}

/// How applying a validated purchase changes the game data: each chosen
/// share moves from the bank to the active player, whose cash drops by the
/// total price; the board and everyone else are untouched.
pub open spec fn spec_buy_effect(
    pre: super::GameImpl,
    post: super::GameImpl,
    stock: Seq<Option<Company>>,
    total: u32,
) -> bool {
    let bank1 = spec_bank_after(pre.kernel.stock_bank, stock[0]);
    let bank2 = spec_bank_after(bank1, stock[1]);
    let bank3 = spec_bank_after(bank2, stock[2]);
    &&& post.id == pre.id
    &&& post.kernel.board == pre.kernel.board
    &&& post.kernel.stock_bank == bank3
    &&& post.kernel.players@ == pre.kernel.players@.update(
        pre.player as int,
        spec_bought_player(pre.kernel.players@[pre.player as int], stock, total),
    )
}

/// The first company, in declaration order, holding 41 or more tiles.
pub open spec fn spec_dominator(b: Board) -> Option<Company> {
    if b.company_sizes.spec_get(Company::Continental) >= 41 {
        Some(Company::Continental)
    } else if b.company_sizes.spec_get(Company::Imperial) >= 41 {
        Some(Company::Imperial)
    } else if b.company_sizes.spec_get(Company::American) >= 41 {
        Some(Company::American)
    } else if b.company_sizes.spec_get(Company::Festival) >= 41 {
        Some(Company::Festival)
    } else if b.company_sizes.spec_get(Company::Worldwide) >= 41 {
        Some(Company::Worldwide)
    } else if b.company_sizes.spec_get(Company::Luxor) >= 41 {
        Some(Company::Luxor)
    } else if b.company_sizes.spec_get(Company::Tower) >= 41 {
        Some(Company::Tower)
    } else {
        None
    }
}

/// The verdict on a buy-stock message: it must come from the active
/// player, be a stock purchase, and pass the purchase check. A passing
/// message yields the chosen shares and their total price.
pub open spec fn spec_check_buy_action(
    g: super::GameImpl,
    action: TaggedPlayerAction,
) -> Result<([Option<Company>; 3], u32), InvalidMessageReason> {
    if action.player_name@ != g.kernel.players@[g.player as int].name@ {
        Err(InvalidMessageReason::OutOfTurn)
    } else {
        match action.action {
            PlayerAction::BuyStock { first, second, third } => {
                match spec_check_buy(
                    g.kernel.board,
                    g.kernel.stock_bank,
                    g.kernel.players@[g.player as int].money,
                    seq![first, second, third],
                ) {
                    Ok(total) => Ok(([first, second, third], total)),
                    Err(e) => Err(InvalidMessageReason::BuyStockError(e)),
                }
            },
            _ => Err(InvalidMessageReason::OutOfTurn),
        }
    }
}

impl Game<BuyingStock> {
    /// Takes a [`PlayerAction`] and checks that it is a stock purchase sent
    /// by the active player and valid against the board, bank and the
    /// player's cash. If so, the returned [`BuyingStockStateAdvance`] can
    /// be used to advance this game.
    pub fn check_player_action(&self, action: &TaggedPlayerAction) -> (r: Result<
        BuyingStockStateAdvance,
        InvalidMessageReason,
    >)
        requires
            self.wf(),
        ensures
            r == (match spec_check_buy_action(*self.data, *action) {
                Ok((stock, total)) => Ok::<BuyingStockStateAdvance, InvalidMessageReason>(
                    (BuyingStockStateAdvance {
                        stock,
                        total_cost: total,
                        game_id: self.data.id,
                    }),
                ),
                Err(e) => Err(e),
            }),
            r matches Ok(adv) ==> adv.game_id == self.data.id && spec_check_buy(
                self.data.kernel.board,
                self.data.kernel.stock_bank,
                self.data.kernel.players@[self.data.player as int].money,
                adv.stock@,
            ) == Ok::<u32, BuyStockError>(adv.total_cost),
    {
        let active = self.data.kernel.players[self.data.player].name.as_str();
        if !super::kernel::str_eq(active, action.player_name.as_str()) {
            return Err(InvalidMessageReason::OutOfTurn);
        }
        if let PlayerAction::BuyStock { first, second, third } = action.action {
            match self.check_buy_stock([first, second, third]) {
                Ok(adv) => Ok(adv),
                Err(e) => Err(InvalidMessageReason::BuyStockError(e)),
            }
        } else {
            Err(InvalidMessageReason::OutOfTurn)
        }
    }

    /// Tries to buy stock as the active player and checks that the
    /// purchase is valid: every chosen company must exist and still have
    /// unissued shares, and the total price must not exceed the player's
    /// cash. If so, a [`BuyingStockStateAdvance`] is returned that can be
    /// used to advance this game.
    pub fn check_buy_stock(&self, stock: [Option<Company>; 3]) -> (r: Result<
        BuyingStockStateAdvance,
        BuyStockError,
    >)
        requires
            self.wf(),
        ensures
            r matches Ok(adv) ==> spec_check_buy(
                self.data.kernel.board,
                self.data.kernel.stock_bank,
                self.data.kernel.players@[self.data.player as int].money,
                stock@,
            ) == Ok::<u32, BuyStockError>(adv.total_cost) && adv.stock == stock
                && adv.game_id == self.data.id,
            r matches Err(e) ==> spec_check_buy(
                self.data.kernel.board,
                self.data.kernel.stock_bank,
                self.data.kernel.players@[self.data.player as int].money,
                stock@,
            ) == Err::<u32, BuyStockError>(e),
    {
        let board = &self.data.kernel.board;
        let mut running_bank: CompanyMap<u8> = self.data.kernel.stock_bank;
        let mut total_cost: u32 = 0;

        let mut i: usize = 0;
        while i < 3
            invariant
                self.wf(),
                i <= 3,
                stock@.len() == 3,
                board == &self.data.kernel.board,
                ({
                    let bank0 = self.data.kernel.stock_bank;
                    let bank1 = spec_bank_after(bank0, stock@[0]);
                    let bank2 = spec_bank_after(bank1, stock@[1]);
                    let bank3 = spec_bank_after(bank2, stock@[2]);
                    &&& (i == 0 ==> running_bank == bank0 && total_cost == 0)
                    &&& (i >= 1 ==> spec_buy_entry(*board, bank0, stock@[0]) is None)
                    &&& (i == 1 ==> running_bank == bank1 && total_cost == spec_entry_cost(
                        *board,
                        stock@[0],
                    ))
                    &&& (i >= 2 ==> spec_buy_entry(*board, bank1, stock@[1]) is None)
                    &&& (i == 2 ==> running_bank == bank2 && total_cost == spec_entry_cost(
                        *board,
                        stock@[0],
                    ) + spec_entry_cost(*board, stock@[1]))
                    &&& (i >= 3 ==> spec_buy_entry(*board, bank2, stock@[2]) is None)
                    &&& (i == 3 ==> running_bank == bank3 && total_cost == spec_entry_cost(
                        *board,
                        stock@[0],
                    ) + spec_entry_cost(*board, stock@[1]) + spec_entry_cost(
                        *board,
                        stock@[2],
                    ))
                }),
            decreases 3 - i,
        {
            if let Some(company) = stock[i] {
                if !board.company_exists(company) {
                    return Err(BuyStockError::NonexistentCompany { company });
                }
                let issued: u8 = *running_bank.get(company);
                if issued >= 25 {
                    return Err(BuyStockError::OutOfStock);
                }
                running_bank.set(company, issued + 1);
                total_cost += board.stock_price(company);
            }
            i += 1;
        }

        let money = self.data.kernel.players[self.data.player].money;
        if total_cost > money {
            return Err(BuyStockError::InsufficientFunds { deficit: total_cost - money });
        }

        Ok(BuyingStockStateAdvance { game_id: self.data.id, stock, total_cost })
    }
}

} // verus!

verus! {

impl Game<BuyingStock> {
    /// Advances the game forward, applying the validated purchase. This
    /// concludes the turn: the bought shares move from the bank to the
    /// player and their price leaves the player's cash; then, in order, a
    /// company holding 41 or more tiles ends the game as
    /// [`GameOver::DominatingCompany`], fully depleted stock across every
    /// existing company ends it as [`GameOver::NoStock`], and otherwise
    /// play returns to [`PlacingTile`] for the next player in the ring.
    pub fn advance_game(self, advancer: BuyingStockStateAdvance) -> (r: Result<
        Game<PlacingTile>,
        Game<GameOver>,
    >)
        requires
            self.wf(),
            advancer.game_id == self.data.id,
            spec_check_buy(
                self.data.kernel.board,
                self.data.kernel.stock_bank,
                self.data.kernel.players@[self.data.player as int].money,
                advancer.stock@,
            ) == Ok::<u32, BuyStockError>(advancer.total_cost),
        ensures
            ({
                let g = match r {
                    Ok(g) => g.data,
                    Err(g) => g.data,
                };
                let bank1 = spec_bank_after(self.data.kernel.stock_bank, advancer.stock@[0]);
                let bank2 = spec_bank_after(bank1, advancer.stock@[1]);
                let bank3 = spec_bank_after(bank2, advancer.stock@[2]);
                &&& g.wf()
                &&& spec_buy_effect(*self.data, *g, advancer.stock@, advancer.total_cost)
                &&& (r matches Err(go) ==> go.data.player == self.data.player
                    && go.state == (match spec_dominator(self.data.kernel.board) {
                    Some(c) => GameOver::DominatingCompany { company: c },
                    None => GameOver::NoStock,
                }) && (spec_dominator(self.data.kernel.board) is None
                    ==> super::kernel::spec_all_stock_depleted(g.kernel.board, bank3)))
                &&& (r matches Ok(ok) ==> ok.state == PlacingTile
                    && spec_dominator(self.data.kernel.board) is None
                    && !super::kernel::spec_all_stock_depleted(g.kernel.board, bank3)
                    && ok.data.player as int == (self.data.player + 1) % (
                self.data.kernel.players@.len() as int))
            }),
    {
        let mut data = self.data;
        let ghost orig = *data;
        let p = data.player;

        proof {
            super::kernel::lemma_holdings_le_sum(data.kernel.players@, Company::Continental, p as int);
        }

        let mut i: usize = 0;
        let ghost s = advancer.stock@;
        while i < 3
            invariant
                i <= 3,
                orig.wf(),
                p == orig.player,
                p < data.kernel.players@.len(),
                s.len() == 3,
                s == advancer.stock@,
                spec_check_buy(
                    orig.kernel.board,
                    orig.kernel.stock_bank,
                    orig.kernel.players@[p as int].money,
                    s,
                ) is Ok,
                data.kernel.board == orig.kernel.board,
                data.id == orig.id,
                data.player == orig.player,
                forall|c: Company|
                    super::kernel::sum_holdings(data.kernel.players@, c) <= (
                    #[trigger] data.kernel.stock_bank.spec_get(c)) <= 25,
                ({
                    let bank1 = spec_bank_after(orig.kernel.stock_bank, s[0]);
                    let bank2 = spec_bank_after(bank1, s[1]);
                    let bank3 = spec_bank_after(bank2, s[2]);
                    let h0 = orig.kernel.players@[p as int].holdings;
                    let h1 = spec_holdings_after(h0, s[0]);
                    let h2 = spec_holdings_after(h1, s[1]);
                    let h3 = spec_holdings_after(h2, s[2]);
                    &&& (i == 0 ==> data.kernel.stock_bank == orig.kernel.stock_bank
                        && data.kernel.players == orig.kernel.players)
                    &&& (i == 1 ==> data.kernel.stock_bank == bank1
                        && data.kernel.players@ == orig.kernel.players@.update(
                        p as int,
                        holdings_replaced(orig.kernel.players@[p as int], h1),
                    ))
                    &&& (i == 2 ==> data.kernel.stock_bank == bank2
                        && data.kernel.players@ == orig.kernel.players@.update(
                        p as int,
                        holdings_replaced(orig.kernel.players@[p as int], h2),
                    ))
                    &&& (i == 3 ==> data.kernel.stock_bank == bank3
                        && data.kernel.players@ == orig.kernel.players@.update(
                        p as int,
                        holdings_replaced(orig.kernel.players@[p as int], h3),
                    ))
                }),
            decreases 3 - i,
        {
            let ghost prev_players = data.kernel.players@;
            if let Some(company) = advancer.stock[i] {
                proof {
                    super::kernel::lemma_holdings_le_sum(
                        data.kernel.players@,
                        company,
                        p as int,
                    );
                }
                let held: u8 = *data.kernel.players[p].holdings.get(company);
                let issued: u8 = *data.kernel.stock_bank.get(company);
                proof {
                    assert(issued < 25);
                    assert(held < 25);
                }
                data.kernel.players[p].holdings.set(company, held + 1);
                data.kernel.stock_bank.set(company, issued + 1);
                proof {
                    assert forall|c: Company|
                        super::kernel::sum_holdings(data.kernel.players@, c) <= (
                        #[trigger] data.kernel.stock_bank.spec_get(c)) <= 25 by {
                        super::kernel::lemma_sum_holdings_update(
                            prev_players,
                            c,
                            p as int,
                            data.kernel.players@[p as int],
                        );
                    }
                }
            }
            i += 1;
        }

        let ghost pre_money_players = data.kernel.players@;
        let money = data.kernel.players[p].money;
        proof {
            assert(advancer.total_cost <= money);
        }
        data.kernel.players[p].money = money - advancer.total_cost;

        proof {
            let bought = spec_bought_player(
                orig.kernel.players@[p as int],
                s,
                advancer.total_cost,
            );
            assert(data.kernel.players@ =~= orig.kernel.players@.update(p as int, bought));
            assert forall|c: Company|
                super::kernel::sum_holdings(data.kernel.players@, c) <= (
                #[trigger] data.kernel.stock_bank.spec_get(c)) <= 25 by {
                super::kernel::lemma_sum_holdings_congruent(
                    data.kernel.players@,
                    pre_money_players,
                    c,
                );
            }
            assert(data.kernel.players_wf());
        }

        let dominator = Self::find_dominator(&data.kernel.board);
        if let Some(company) = dominator {
            return Err(Game { data, state: GameOver::DominatingCompany { company } });
        }

        if super::kernel::stock_depleted(&data.kernel.board, &data.kernel.stock_bank) {
            return Err(Game { data, state: GameOver::NoStock });
        }

        let n = data.kernel.players.len();
        let next = if data.player + 1 == n {
            0
        } else {
            data.player + 1
        };
        proof {
            if data.player + 1 == n {
                vstd::arithmetic::div_mod::lemma_mod_self_0(n as int);
            } else {
                vstd::arithmetic::div_mod::lemma_small_mod(
                    (data.player + 1) as nat,
                    n as nat,
                );
            }
        }
        data.player = next;

        Ok(Game { data, state: PlacingTile })
    }

    /// Finds the first company, in declaration order, holding 41 or more
    /// tiles.
    fn find_dominator(board: &Board) -> (r: Option<Company>)
        ensures
            r == spec_dominator(*board),
    {
        if *board.company_sizes.get(Company::Continental) >= 41 {
            Some(Company::Continental)
        } else if *board.company_sizes.get(Company::Imperial) >= 41 {
            Some(Company::Imperial)
        } else if *board.company_sizes.get(Company::American) >= 41 {
            Some(Company::American)
        } else if *board.company_sizes.get(Company::Festival) >= 41 {
            Some(Company::Festival)
        } else if *board.company_sizes.get(Company::Worldwide) >= 41 {
            Some(Company::Worldwide)
        } else if *board.company_sizes.get(Company::Luxor) >= 41 {
            Some(Company::Luxor)
        } else if *board.company_sizes.get(Company::Tower) >= 41 {
            Some(Company::Tower)
        } else {
            None
        }
    }
}

/// A player's record with only its holdings table replaced.
pub open spec fn holdings_replaced(p: PlayerData, h: CompanyMap<u8>) -> PlayerData {
    PlayerData {
        name: p.name,
        money: p.money,
        holdings: h,
        order: p.order,
        next_player: p.next_player,
    }
}

} // verus!
