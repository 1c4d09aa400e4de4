//! The core data of a running game: the board, the per-company count of
//! issued shares, and the player table, together with the shareholder
//! ranking and payout computations.

use vstd::prelude::*;

use crate::board::Board;
use crate::company::{Company, CompanyMap};
use crate::messages::{FinalResult, PrincipleShareholderResult};

verus! {

/// Data about a specific player in the game.
#[derive(Debug, Clone, PartialEq, Eq)]
pub struct PlayerData {
    /// The player's name, unique within a game.
    pub name: String,
    /// Cash balance.
    pub money: u32,
    /// Shares held of each company.
    pub holdings: CompanyMap<u8>,
    /// Index in the turn order.
    pub order: usize,
    /// Name of the next player in the turn ring.
    pub next_player: String,
}

/// Holds the core components of a game.
#[derive(Debug, Clone)]
pub struct GameKernel {
    /// The board of the game.
    pub board: Board,
    /// The number of shares of each company issued to players. At most 25
    /// shares of a company exist, so the bank's remaining inventory of a
    /// company is 25 minus this count.
    pub stock_bank: CompanyMap<u8>,
    /// All players and their data, in turn order.
    pub players: Vec<PlayerData>,
}

/// Total number of shares each player holds of company `c`.
pub open spec fn sum_holdings(ps: Seq<PlayerData>, c: Company) -> int
    decreases ps.len(),
{
    if ps.len() == 0 {
        0
    } else {
        sum_holdings(ps.drop_last(), c) + ps.last().holdings.spec_get(c)
    }
}

/// Number of players holding strictly more than `v` shares of company `c`.
pub open spec fn count_holders_above(ps: Seq<PlayerData>, c: Company, v: int) -> int
    decreases ps.len(),
{
    if ps.len() == 0 {
        0
    } else {
        count_holders_above(ps.drop_last(), c, v) + if ps.last().holdings.spec_get(c) > v {
            1int
        } else {
            0int
        }
    }
}

/// A player's shareholder position in company `c`: one more than the number
/// of players holding strictly more. Tied players share a position, and the
/// position after a tie skips what the tie consumed.
pub open spec fn spec_position(ps: Seq<PlayerData>, c: Company, p: int) -> int {
    count_holders_above(ps, c, ps[p].holdings.spec_get(c) as int) + 1
}

/// The principal-shareholder bonus multiplier by position: ten times the
/// share price for the principal shareholder, five for the second position,
/// nothing further down.
pub open spec fn bonus_multiplier(position: int) -> int {
    if position == 1 {
        10
    } else if position == 2 {
        5
    } else {
        0
    }
}

/// Cash additions saturate at the capacity of the cash balance.
pub open spec fn add_cash(m: u32, d: int) -> u32 {
    if m + d <= u32::MAX {
        (m + d) as u32
    } else {
        u32::MAX
    }
}

/// A player holds no more shares of `c` than all players together.
pub proof fn lemma_holdings_le_sum(ps: Seq<PlayerData>, c: Company, i: int)
    requires
        0 <= i < ps.len(),
    ensures
        ps[i].holdings.spec_get(c) <= sum_holdings(ps, c),
        sum_holdings(ps, c) >= 0,
    decreases ps.len(),
{
    if ps.len() > 0 {
        if i < ps.len() - 1 {
            lemma_holdings_le_sum(ps.drop_last(), c, i);
        } else {
            lemma_sum_holdings_nonneg(ps.drop_last(), c);
        }
    }
}

/// The total of per-player holdings is never negative.
pub proof fn lemma_sum_holdings_nonneg(ps: Seq<PlayerData>, c: Company)
    ensures
        sum_holdings(ps, c) >= 0,
    decreases ps.len(),
{
    if ps.len() > 0 {
        lemma_sum_holdings_nonneg(ps.drop_last(), c);
    }
}

/// How replacing one player's data changes the holdings total.
pub proof fn lemma_sum_holdings_update(ps: Seq<PlayerData>, c: Company, i: int, p: PlayerData)
    requires
        0 <= i < ps.len(),
    ensures
        sum_holdings(ps.update(i, p), c) == sum_holdings(ps, c) - ps[i].holdings.spec_get(c)
            + p.holdings.spec_get(c),
    decreases ps.len(),
{
    let t = ps.update(i, p);
    if i == ps.len() - 1 {
        assert(t.drop_last() =~= ps.drop_last());
    } else {
        assert(t.drop_last() =~= ps.drop_last().update(i, p));
        assert(t.last() == ps.last());
        lemma_sum_holdings_update(ps.drop_last(), c, i, p);
    }
}

/// Counts of holders lie between zero and the number of players.
pub proof fn lemma_count_above_bounds(ps: Seq<PlayerData>, c: Company, v: int)
    ensures
        0 <= count_holders_above(ps, c, v) <= ps.len(),
    decreases ps.len(),
{
    if ps.len() > 0 {
        lemma_count_above_bounds(ps.drop_last(), c, v);
    }
}

impl GameKernel {
    /// The player table is a well-formed turn ring: between 1 and 14
    /// players, with distinct names, each recording its own turn index and
    /// naming its successor in the ring.
    pub open spec fn players_wf(self) -> bool {
        &&& 1 <= self.players@.len() < 15
        &&& forall|i: int, j: int|
            0 <= i < j < self.players@.len() ==> self.players@[i].name@
                != self.players@[j].name@
        &&& forall|i: int|
            0 <= i < self.players@.len() ==> (#[trigger] self.players@[i].order) == i
        &&& forall|i: int|
            0 <= i < self.players@.len() ==> (#[trigger] self.players@[i].next_player)@
                == self.players@[(i + 1) % (self.players@.len() as int)].name@
    }

    /// No more shares of a company are held than were issued, and at most
    /// 25 shares of each company are ever issued.
    pub open spec fn stock_wf(self) -> bool {
        forall|c: Company|
            sum_holdings(self.players@, c) <= (#[trigger] self.stock_bank.spec_get(c)) <= 25
    }

    /// Well-formedness of the whole kernel.
    pub open spec fn wf(self) -> bool {
        &&& self.board.wf()
        &&& self.players_wf()
        &&& self.stock_wf()
    }
}

/// Compares two string slices for equality of their characters. Relies on
/// str's `==`, which compares exactly the contents.
#[verifier::external_body]
pub(crate) fn str_eq(a: &str, b: &str) -> (r: bool)
    ensures
        r == (a@ == b@),
{
    a == b
}

} // verus!

verus! {

/// Player `a` is ranked ahead of player `b` for company `c`: more shares,
/// or the same shares and the earlier turn index.
pub open spec fn ranks_before(ps: Seq<PlayerData>, c: Company, a: int, b: int) -> bool {
    ||| ps[a].holdings.spec_get(c) > ps[b].holdings.spec_get(c)
    ||| (ps[a].holdings.spec_get(c) == ps[b].holdings.spec_get(c) && a < b)
}

/// Counting holders depends only on each player's holding of `c`.
pub proof fn lemma_count_above_congruent(
    ps1: Seq<PlayerData>,
    ps2: Seq<PlayerData>,
    c: Company,
    v: int,
)
    requires
        ps1.len() == ps2.len(),
        forall|i: int|
            0 <= i < ps1.len() ==> (#[trigger] ps1[i].holdings).spec_get(c)
                == ps2[i].holdings.spec_get(c),
    ensures
        count_holders_above(ps1, c, v) == count_holders_above(ps2, c, v),
    decreases ps1.len(),
{
    if ps1.len() > 0 {
        lemma_count_above_congruent(ps1.drop_last(), ps2.drop_last(), c, v);
    }
}

/// Entry `k` of the result list reports some player's name and that
/// player's holding of company `c`.
pub open spec fn entry_names_player(
    ps: Seq<PlayerData>,
    c: Company,
    rs: Seq<PrincipleShareholderResult>,
    k: int,
) -> bool {
    exists|p: int|
        0 <= p < ps.len() && (#[trigger] ps[p].name)@ == rs[k].player@ && rs[k].shares
            == ps[p].holdings.spec_get(c)
}

/// Player `p` appears somewhere in the result list.
pub open spec fn results_cover_player(
    ps: Seq<PlayerData>,
    rs: Seq<PrincipleShareholderResult>,
    p: int,
) -> bool {
    exists|k: int| 0 <= k < rs.len() && (#[trigger] rs[k].player)@ == ps[p].name@
}

/// A ranked shareholder list for company `c` at share price `price`,
/// covering exactly the players of `ps`: sorted by falling share count,
/// with competition-style positions and position-based prizes.
pub open spec fn spec_shareholder_results(
    ps: Seq<PlayerData>,
    c: Company,
    price: u32,
    rs: Seq<PrincipleShareholderResult>,
) -> bool {
    &&& rs.len() == ps.len()
    &&& forall|k: int| 0 <= k < rs.len() ==> #[trigger] entry_names_player(ps, c, rs, k)
    &&& forall|p: int| 0 <= p < ps.len() ==> #[trigger] results_cover_player(ps, rs, p)
    &&& forall|k1: int, k2: int| 0 <= k1 < k2 < rs.len() ==> rs[k1].shares >= rs[k2].shares
    &&& forall|k: int|
        0 <= k < rs.len() ==> (#[trigger] rs[k]).position as int == count_holders_above(
            ps,
            c,
            rs[k].shares as int,
        ) + 1
    &&& forall|k: int|
        0 <= k < rs.len() ==> (#[trigger] rs[k]).prize == bonus_multiplier(
            rs[k].position as int,
        ) * price
}

/// One player's record after a bonus payout for company `c` at price
/// `price`: cash grew by the position's multiple of the price, everything
/// else unchanged.
pub open spec fn player_paid_bonus(
    pre: Seq<PlayerData>,
    post: Seq<PlayerData>,
    p: int,
    c: Company,
    price: u32,
) -> bool {
    &&& post[p].name == pre[p].name
    &&& post[p].holdings == pre[p].holdings
    &&& post[p].order == pre[p].order
    &&& post[p].next_player == pre[p].next_player
    &&& post[p].money == add_cash(
        pre[p].money,
        bonus_multiplier(spec_position(pre, c, p)) * price,
    )
}

impl GameKernel {
    /// Counts the players holding strictly more than `v` shares of `c`.
    fn count_above(players: &Vec<PlayerData>, c: Company, v: u8) -> (r: usize)
        ensures
            r as int == count_holders_above(players@, c, v as int),
    {
        let n = players.len();
        let mut r: usize = 0;
        let mut q: usize = 0;
        while q < n
            invariant
                n == players@.len(),
                q <= n,
                r <= q,
                r as int == count_holders_above(players@.take(q as int), c, v as int),
            decreases n - q,
        {
            proof {
                assert(players@.take(q as int + 1).drop_last() =~= players@.take(q as int));
                assert(players@.take(q as int + 1).last() == players@[q as int]);
            }
            if *players[q].holdings.get(c) > v {
                r += 1;
            }
            q += 1;
        }
        proof {
            assert(players@.take(n as int) =~= players@);
        }
        r
    }

    /// Finds where player `p` belongs in a rank-sorted list of player
    /// indices: after every index ranked ahead of `p`.
    fn insert_pos(
        players: &Vec<PlayerData>,
        c: Company,
        order: &Vec<usize>,
        p: usize,
        hp: u8,
    ) -> (j: usize)
        requires
            p < players@.len(),
            hp == players@[p as int].holdings.spec_get(c),
            forall|k: int| 0 <= k < order@.len() ==> (#[trigger] order@[k]) < p,
        ensures
            j <= order@.len(),
            forall|k: int| 0 <= k < j ==> ranks_before(players@, c, order@[k] as int, p as int),
            j < order@.len() ==> !ranks_before(players@, c, order@[j as int] as int, p as int),
    {
        let mut j: usize = 0;
        while j < order.len()
            invariant
                p < players@.len(),
                hp == players@[p as int].holdings.spec_get(c),
                forall|k: int| 0 <= k < order@.len() ==> (#[trigger] order@[k]) < p,
                j <= order@.len(),
                forall|k: int|
                    0 <= k < j ==> ranks_before(players@, c, order@[k] as int, p as int),
            decreases order@.len() - j,
        {
            let a = order[j];
            let ha: u8 = *players[a].holdings.get(c);
            if !(ha > hp || (ha == hp && a < p)) {
                return j;
            }
            j += 1;
        }
        j
    }

    /// Orders the player indices by rank for company `c`: most shares
    /// first, ties broken by turn order.
    fn rank_order(players: &Vec<PlayerData>, c: Company) -> (order: Vec<usize>)
        ensures
            order@.len() == players@.len(),
            forall|k: int| 0 <= k < order@.len() ==> (#[trigger] order@[k]) < players@.len(),
            forall|q: int| 0 <= q < players@.len() ==> #[trigger] order@.contains(q as usize),
            forall|k1: int, k2: int|
                0 <= k1 < k2 < order@.len() ==> ranks_before(
                    players@,
                    c,
                    order@[k1] as int,
                    order@[k2] as int,
                ),
    {
        let n = players.len();
        let mut order: Vec<usize> = Vec::new();
        let mut p: usize = 0;
        while p < n
            invariant
                n == players@.len(),
                p <= n,
                order@.len() == p,
                forall|k: int| 0 <= k < order@.len() ==> (#[trigger] order@[k]) < p,
                forall|q: int| 0 <= q < p ==> #[trigger] order@.contains(q as usize),
                forall|k1: int, k2: int|
                    0 <= k1 < k2 < order@.len() ==> ranks_before(
                        players@,
                        c,
                        order@[k1] as int,
                        order@[k2] as int,
                    ),
            decreases n - p,
        {
            let ghost pre_order = order@;
            let hp: u8 = *players[p].holdings.get(c);
            let j = Self::insert_pos(players, c, &order, p, hp);
            order.insert(j, p);
            proof {
                let post = order@;
                assert(post == pre_order.insert(j as int, p as usize));
                pre_order.insert_ensures(j as int, p as usize);
                assert forall|q: int| 0 <= q < p + 1 implies #[trigger] post.contains(q as usize) by {
                    if q == p {
                        assert(post[j as int] == q as usize);
                    } else {
                        assert(pre_order.contains(q as usize));
                        let k = choose|k: int|
                            0 <= k < pre_order.len() && pre_order[k] == q as usize;
                        if k < j {
                            assert(post[k] == q as usize);
                        } else {
                            assert(post[k + 1] == q as usize);
                        }
                    }
                }
                assert forall|k1: int, k2: int|
                    0 <= k1 < k2 < post.len() implies ranks_before(
                    players@,
                    c,
                    post[k1] as int,
                    post[k2] as int,
                ) by {
                    let jj = j as int;
                    if k2 < jj {
                        assert(post[k1] == pre_order[k1] && post[k2] == pre_order[k2]);
                    } else if k1 > jj {
                        assert(post[k1] == pre_order[k1 - 1] && post[k2] == pre_order[k2 - 1]);
                    } else if k1 < jj && k2 == jj {
                        assert(post[k1] == pre_order[k1] && post[k2] == p as usize);
                    } else if k1 == jj && k2 > jj {
                        assert(post[k1] == p as usize && post[k2] == pre_order[k2 - 1]);
                        if jj < pre_order.len() {
                            assert(!ranks_before(players@, c, pre_order[jj] as int, p as int));
                        }
                        if k2 - 1 > jj {
                            assert(ranks_before(
                                players@,
                                c,
                                pre_order[jj] as int,
                                pre_order[k2 - 1] as int,
                            ));
                        }
                    } else if k1 < jj && k2 > jj {
                        assert(post[k1] == pre_order[k1] && post[k2] == pre_order[k2 - 1]);
                        if jj < pre_order.len() && k2 - 1 >= jj + 1 {
                            assert(ranks_before(
                                players@,
                                c,
                                pre_order[k1] as int,
                                pre_order[k2 - 1] as int,
                            ));
                        } else {
                            assert(k2 - 1 == jj || jj == pre_order.len());
                        }
                    }
                }
            }
            p += 1;
        }
        order
    }
}

} // verus!

verus! {

/// The holdings total depends only on each player's holdings.
pub proof fn lemma_sum_holdings_congruent(ps1: Seq<PlayerData>, ps2: Seq<PlayerData>, c: Company)
    requires
        ps1.len() == ps2.len(),
        forall|i: int|
            0 <= i < ps1.len() ==> (#[trigger] ps1[i].holdings).spec_get(c)
                == ps2[i].holdings.spec_get(c),
    ensures
        sum_holdings(ps1, c) == sum_holdings(ps2, c),
    decreases ps1.len(),
{
    if ps1.len() > 0 {
        lemma_sum_holdings_congruent(ps1.drop_last(), ps2.drop_last(), c);
    }
}

impl GameKernel {
    /// Builds the ranked shareholder list for `defunct` at share price
    /// `price` from the current player table, best rank first.
    fn build_shareholder_results(
        players: &Vec<PlayerData>,
        defunct: Company,
        price: u32,
    ) -> (results: Vec<PrincipleShareholderResult>)
        requires
            price <= 1200,
            players@.len() < 15,
        ensures
            spec_shareholder_results(players@, defunct, price, results@),
    {
        let n = players.len();
        let order = Self::rank_order(players, defunct);
        let mut results: Vec<PrincipleShareholderResult> = Vec::new();
        let mut k: usize = 0;
        while k < n
            invariant
                n == players@.len(),
                n < 15,
                price <= 1200,
                order@.len() == n,
                forall|kk: int| 0 <= kk < n ==> (#[trigger] order@[kk]) < n,
                forall|q: int| 0 <= q < n ==> #[trigger] order@.contains(q as usize),
                forall|k1: int, k2: int|
                    0 <= k1 < k2 < n ==> ranks_before(
                        players@,
                        defunct,
                        order@[k1] as int,
                        order@[k2] as int,
                    ),
                k <= n,
                results@.len() == k,
                forall|kk: int|
                    0 <= kk < k ==> (#[trigger] results@[kk]).player@
                        == players@[order@[kk] as int].name@ && results@[kk].shares
                        == players@[order@[kk] as int].holdings.spec_get(defunct),
                forall|kk: int|
                    0 <= kk < k ==> (#[trigger] results@[kk]).position as int
                        == count_holders_above(players@, defunct, results@[kk].shares as int)
                        + 1,
                forall|kk: int|
                    0 <= kk < k ==> (#[trigger] results@[kk]).prize == bonus_multiplier(
                        results@[kk].position as int,
                    ) * price,
            decreases n - k,
        {
            let idx = order[k];
            let shares: u8 = *players[idx].holdings.get(defunct);
            let cnt = Self::count_above(players, defunct, shares);
            proof {
                lemma_count_above_bounds(players@, defunct, shares as int);
            }
            let position: u8 = (cnt + 1) as u8;
            let mult: u32 = if position == 1 {
                10
            } else if position == 2 {
                5
            } else {
                0
            };
            let player = players[idx].name.clone();
            results.push(
                PrincipleShareholderResult { player, shares, position, prize: mult * price },
            );
            k += 1;
        }

        proof {
            assert forall|kk: int|
                0 <= kk < results@.len() implies #[trigger] entry_names_player(
                players@,
                defunct,
                results@,
                kk,
            ) by {
                let q = order@[kk] as int;
                assert(0 <= q < players@.len() && players@[q].name@ == results@[kk].player@
                    && results@[kk].shares == players@[q].holdings.spec_get(defunct));
            }
            assert forall|q: int|
                0 <= q < players@.len() implies #[trigger] results_cover_player(
                players@,
                results@,
                q,
            ) by {
                assert(order@.contains(q as usize));
                let kk = choose|kk: int| 0 <= kk < order@.len() && order@[kk] == q as usize;
                assert(0 <= kk < results@.len() && players@[q].name@ == results@[kk].player@);
            }
            assert forall|k1: int, k2: int|
                0 <= k1 < k2 < results@.len() implies results@[k1].shares
                >= results@[k2].shares by {
                assert(ranks_before(players@, defunct, order@[k1] as int, order@[k2] as int));
            }
        }
        results
    }

    /// Pays every player the bonus its shareholder position in `defunct`
    /// earns at price `price`.
    fn apply_bonus_payments(&mut self, defunct: Company, price: u32)
        requires
            old(self).wf(),
            price == old(self).board.spec_price(defunct),
            price <= 1200,
        ensures
            final(self).wf(),
            final(self).board == old(self).board,
            final(self).stock_bank == old(self).stock_bank,
            final(self).players@.len() == old(self).players@.len(),
            forall|p: int|
                0 <= p < old(self).players@.len() ==> player_paid_bonus(
                    old(self).players@,
                    final(self).players@,
                    p,
                    defunct,
                    price,
                ),
    {
        let ghost orig = *self;
        let n = self.players.len();
        let mut p: usize = 0;
        while p < n
            invariant
                n == self.players@.len(),
                n == orig.players@.len(),
                p <= n,
                orig.wf(),
                self.board == orig.board,
                self.stock_bank == orig.stock_bank,
                price == orig.board.spec_price(defunct),
                price <= 1200,
                forall|q: int| p <= q < n ==> self.players@[q] == orig.players@[q],
                forall|q: int|
                    0 <= q < p ==> player_paid_bonus(
                        orig.players@,
                        self.players@,
                        q,
                        defunct,
                        price,
                    ),
                forall|q: int|
                    0 <= q < n ==> (#[trigger] self.players@[q]).holdings
                        == orig.players@[q].holdings,
            decreases n - p,
        {
            let ghost pre = self.players@;
            let h: u8 = *self.players[p].holdings.get(defunct);
            let cnt = Self::count_above(&self.players, defunct, h);
            proof {
                lemma_count_above_congruent(self.players@, orig.players@, defunct, h as int);
            }
            let mult: u32 = if cnt == 0 {
                10
            } else if cnt == 1 {
                5
            } else {
                0
            };
            let prize: u32 = mult * price;
            let money = self.players[p].money;
            let new_money = if prize > u32::MAX - money {
                u32::MAX
            } else {
                money + prize
            };
            self.players[p].money = new_money;
            proof {
                assert(self.players@[p as int].money == new_money);
                assert(player_paid_bonus(
                    orig.players@,
                    self.players@,
                    p as int,
                    defunct,
                    price,
                )) by {
                    assert(h == orig.players@[p as int].holdings.spec_get(defunct));
                    assert(spec_position(orig.players@, defunct, p as int) == cnt + 1);
                    assert(new_money == add_cash(
                        orig.players@[p as int].money,
                        mult as int * price,
                    ));
                }
                assert forall|q: int|
                    0 <= q < p implies player_paid_bonus(
                    orig.players@,
                    self.players@,
                    q,
                    defunct,
                    price,
                ) by {
                    assert(self.players@[q] == pre[q]);
                    assert(player_paid_bonus(orig.players@, pre, q, defunct, price));
                }
            }
            p += 1;
        }
        proof {
            assert forall|q: int|
                0 <= q < n implies (#[trigger] self.players@[q]).name == orig.players@[q].name
                && self.players@[q].order == orig.players@[q].order
                && self.players@[q].next_player == orig.players@[q].next_player by {
                assert(player_paid_bonus(orig.players@, self.players@, q, defunct, price));
            }
            assert(self.players_wf());
            assert forall|c: Company|
                sum_holdings(self.players@, c) <= (#[trigger] self.stock_bank.spec_get(c))
                    <= 25 by {
                lemma_sum_holdings_congruent(self.players@, orig.players@, c);
            }
        }
    }

    /// Computes and pays the principal shareholder bonuses for the company
    /// in the defunct slot. The principal shareholder earns ten times the
    /// company's share price and the second position five times; tied
    /// players share a position and each earns that position's full bonus.
    /// The returned list reports every player's shares, position and prize,
    /// ranked best first.
    pub fn pay_principle_bonuses(&mut self, defunct: Company) -> (results: Vec<
        PrincipleShareholderResult,
    >)
        requires
            old(self).wf(),
        ensures
            final(self).wf(),
            final(self).board == old(self).board,
            final(self).stock_bank == old(self).stock_bank,
            final(self).players@.len() == old(self).players@.len(),
            forall|p: int|
                0 <= p < old(self).players@.len() ==> player_paid_bonus(
                    old(self).players@,
                    final(self).players@,
                    p,
                    defunct,
                    old(self).board.spec_price(defunct),
                ),
            spec_shareholder_results(
                old(self).players@,
                defunct,
                old(self).board.spec_price(defunct),
                results@,
            ),
    {
        let price = self.board.stock_price(defunct);
        let results = Self::build_shareholder_results(&self.players, defunct, price);
        self.apply_bonus_payments(defunct, price);
        results
    }
}

} // verus!

verus! {

/// Player `a` sorts ahead of `b` in the final standings walk: less cash,
/// or the same cash and the earlier turn index.
pub open spec fn standing_sorts_before(ps: Seq<PlayerData>, a: int, b: int) -> bool {
    ||| ps[a].money < ps[b].money
    ||| (ps[a].money == ps[b].money && a < b)
}

/// Entry `k` of the standings reports some player's name and cash.
pub open spec fn standing_names_player(ps: Seq<PlayerData>, rs: Seq<FinalResult>, k: int) -> bool {
    exists|p: int|
        0 <= p < ps.len() && (#[trigger] ps[p].name)@ == rs[k].player_name@ && rs[k].final_money
            == ps[p].money
}

/// Player `p` appears somewhere in the standings.
pub open spec fn standings_cover_player(ps: Seq<PlayerData>, rs: Seq<FinalResult>, p: int) -> bool {
    exists|k: int| 0 <= k < rs.len() && (#[trigger] rs[k].player_name)@ == ps[p].name@
}

/// The final standings of the players of `ps`: one entry per player, walked
/// in ascending order of cash, the first entry in place 1, and each later
/// entry keeping the previous entry's place unless its cash is strictly
/// lower, which advances the place by one.
pub open spec fn spec_standings(ps: Seq<PlayerData>, rs: Seq<FinalResult>) -> bool {
    &&& rs.len() == ps.len()
    &&& forall|k: int| 0 <= k < rs.len() ==> #[trigger] standing_names_player(ps, rs, k)
    &&& forall|p: int| 0 <= p < ps.len() ==> #[trigger] standings_cover_player(ps, rs, p)
    &&& forall|k1: int, k2: int|
        0 <= k1 < k2 < rs.len() ==> rs[k1].final_money <= rs[k2].final_money
    &&& rs.len() > 0 ==> rs[0].place == 1
    &&& forall|k: int|
        1 <= k < rs.len() ==> (#[trigger] rs[k].place) as int == (if rs[k].final_money < rs[k
            - 1].final_money {
            rs[k - 1].place + 1
        } else {
            rs[k - 1].place as int
        })
}

impl GameKernel {
    /// Finds where player `p` belongs in a standings-sorted list of player
    /// indices.
    fn standings_insert_pos(
        players: &Vec<PlayerData>,
        order: &Vec<usize>,
        p: usize,
        mp: u32,
    ) -> (j: usize)
        requires
            p < players@.len(),
            mp == players@[p as int].money,
            forall|k: int| 0 <= k < order@.len() ==> (#[trigger] order@[k]) < p,
        ensures
            j <= order@.len(),
            forall|k: int|
                0 <= k < j ==> standing_sorts_before(players@, order@[k] as int, p as int),
            j < order@.len() ==> !standing_sorts_before(
                players@,
                order@[j as int] as int,
                p as int,
            ),
    {
        let mut j: usize = 0;
        while j < order.len()
            invariant
                p < players@.len(),
                mp == players@[p as int].money,
                forall|k: int| 0 <= k < order@.len() ==> (#[trigger] order@[k]) < p,
                j <= order@.len(),
                forall|k: int|
                    0 <= k < j ==> standing_sorts_before(players@, order@[k] as int, p as int),
            decreases order@.len() - j,
        {
            let a = order[j];
            let ma: u32 = players[a].money;
            if !(ma < mp || (ma == mp && a < p)) {
                return j;
            }
            j += 1;
        }
        j
    }

    /// Orders the player indices for the standings walk: cash ascending,
    /// ties in turn order.
    fn standings_order(players: &Vec<PlayerData>) -> (order: Vec<usize>)
        ensures
            order@.len() == players@.len(),
            forall|k: int| 0 <= k < order@.len() ==> (#[trigger] order@[k]) < players@.len(),
            forall|q: int| 0 <= q < players@.len() ==> #[trigger] order@.contains(q as usize),
            forall|k1: int, k2: int|
                0 <= k1 < k2 < order@.len() ==> standing_sorts_before(
                    players@,
                    order@[k1] as int,
                    order@[k2] as int,
                ),
    {
        let n = players.len();
        let mut order: Vec<usize> = Vec::new();
        let mut p: usize = 0;
        while p < n
            invariant
                n == players@.len(),
                p <= n,
                order@.len() == p,
                forall|k: int| 0 <= k < order@.len() ==> (#[trigger] order@[k]) < p,
                forall|q: int| 0 <= q < p ==> #[trigger] order@.contains(q as usize),
                forall|k1: int, k2: int|
                    0 <= k1 < k2 < order@.len() ==> standing_sorts_before(
                        players@,
                        order@[k1] as int,
                        order@[k2] as int,
                    ),
            decreases n - p,
        {
            let ghost pre_order = order@;
            let mp: u32 = players[p].money;
            let j = Self::standings_insert_pos(players, &order, p, mp);
            order.insert(j, p);
            proof {
                let post = order@;
                assert(post == pre_order.insert(j as int, p as usize));
                pre_order.insert_ensures(j as int, p as usize);
                assert forall|q: int| 0 <= q < p + 1 implies #[trigger] post.contains(
                    q as usize,
                ) by {
                    if q == p {
                        assert(post[j as int] == q as usize);
                    } else {
                        assert(pre_order.contains(q as usize));
                        let k = choose|k: int|
                            0 <= k < pre_order.len() && pre_order[k] == q as usize;
                        if k < j {
                            assert(post[k] == q as usize);
                        } else {
                            assert(post[k + 1] == q as usize);
                        }
                    }
                }
                assert forall|k1: int, k2: int|
                    0 <= k1 < k2 < post.len() implies standing_sorts_before(
                    players@,
                    post[k1] as int,
                    post[k2] as int,
                ) by {
                    let jj = j as int;
                    if k2 < jj {
                        assert(post[k1] == pre_order[k1] && post[k2] == pre_order[k2]);
                    } else if k1 > jj {
                        assert(post[k1] == pre_order[k1 - 1] && post[k2] == pre_order[k2 - 1]);
                    } else if k1 < jj && k2 == jj {
                        assert(post[k1] == pre_order[k1] && post[k2] == p as usize);
                    } else if k1 == jj && k2 > jj {
                        assert(post[k1] == p as usize && post[k2] == pre_order[k2 - 1]);
                        if jj < pre_order.len() {
                            assert(!standing_sorts_before(
                                players@,
                                pre_order[jj] as int,
                                p as int,
                            ));
                        }
                        if k2 - 1 > jj {
                            assert(standing_sorts_before(
                                players@,
                                pre_order[jj] as int,
                                pre_order[k2 - 1] as int,
                            ));
                        }
                    } else if k1 < jj && k2 > jj {
                        assert(post[k1] == pre_order[k1] && post[k2] == pre_order[k2 - 1]);
                        if k2 - 1 == jj {
                            assert(standing_sorts_before(players@, post[k1] as int, p as int));
                        } else {
                            assert(standing_sorts_before(
                                players@,
                                pre_order[k1] as int,
                                pre_order[k2 - 1] as int,
                            ));
                        }
                    }
                }
            }
            p += 1;
        }
        order
    }

    /// Computes the current standings: every player's name and cash, walked
    /// in ascending order of cash. The first entry holds place 1, and a
    /// later entry advances the place only when its cash strictly falls
    /// below the previous entry's, so after the ascending sort every entry
    /// shares place 1.
    pub fn get_standings(&self) -> (standings: Vec<FinalResult>)
        requires
            self.players_wf(),
        ensures
            spec_standings(self.players@, standings@),
    {
        let n = self.players.len();
        let order = Self::standings_order(&self.players);
        let mut standings: Vec<FinalResult> = Vec::new();
        let mut prev_place: u8 = 1;
        let mut prev_money: u32 = 0;
        let mut k: usize = 0;
        while k < n
            invariant
                n == self.players@.len(),
                n < 15,
                order@.len() == n,
                forall|kk: int| 0 <= kk < n ==> (#[trigger] order@[kk]) < n,
                forall|q: int| 0 <= q < n ==> #[trigger] order@.contains(q as usize),
                forall|k1: int, k2: int|
                    0 <= k1 < k2 < n ==> standing_sorts_before(
                        self.players@,
                        order@[k1] as int,
                        order@[k2] as int,
                    ),
                k <= n,
                standings@.len() == k,
                forall|kk: int|
                    0 <= kk < k ==> (#[trigger] standings@[kk]).player_name@
                        == self.players@[order@[kk] as int].name@ && standings@[kk].final_money
                        == self.players@[order@[kk] as int].money,
                forall|k1: int, k2: int|
                    0 <= k1 < k2 < k ==> standings@[k1].final_money
                        <= standings@[k2].final_money,
                k > 0 ==> standings@[0].place == 1,
                forall|kk: int|
                    1 <= kk < k ==> (#[trigger] standings@[kk].place) as int == (
                    if standings@[kk].final_money < standings@[kk - 1].final_money {
                        standings@[kk - 1].place + 1
                    } else {
                        standings@[kk - 1].place as int
                    }),
                k > 0 ==> prev_place == standings@[k - 1].place && prev_money == standings@[k
                    - 1].final_money,
                prev_place <= 14,
                k == 0 ==> prev_place == 1,
            decreases n - k,
        {
            let idx = order[k];
            let money: u32 = self.players[idx].money;
            let place: u8 = if k == 0 {
                1
            } else if money < prev_money {
                prev_place + 1
            } else {
                prev_place
            };
            let player_name = self.players[idx].name.clone();
            standings.push(FinalResult { place, player_name, final_money: money });
            proof {
                if k > 0 {
                    assert(standing_sorts_before(
                        self.players@,
                        order@[k - 1 as int] as int,
                        order@[k as int] as int,
                    ));
                }
                assert forall|k1: int, k2: int|
                    0 <= k1 < k2 < standings@.len() implies standings@[k1].final_money
                    <= standings@[k2].final_money by {
                    if k2 < k {
                    } else {
                        assert(standing_sorts_before(
                            self.players@,
                            order@[k1] as int,
                            order@[k2] as int,
                        ));
                    }
                }
            }
            prev_place = place;
            prev_money = money;
            k += 1;
        }
        proof {
            assert forall|kk: int|
                0 <= kk < standings@.len() implies #[trigger] standing_names_player(
                self.players@,
                standings@,
                kk,
            ) by {
                let q = order@[kk] as int;
                assert(0 <= q < self.players@.len() && self.players@[q].name@
                    == standings@[kk].player_name@ && standings@[kk].final_money
                    == self.players@[q].money);
            }
            assert forall|q: int|
                0 <= q < self.players@.len() implies #[trigger] standings_cover_player(
                self.players@,
                standings@,
                q,
            ) by {
                assert(order@.contains(q as usize));
                let kk = choose|kk: int| 0 <= kk < order@.len() && order@[kk] == q as usize;
                assert(0 <= kk < standings@.len() && standings@[kk].player_name@
                    == self.players@[q].name@);
            }
        }
        standings
    }
}

} // verus!

verus! {

/// Some company exists and every existing company's 25 shares are all
/// issued: there is no stock left to buy anywhere.
pub open spec fn spec_all_stock_depleted(b: Board, bank: CompanyMap<u8>) -> bool {
    &&& exists|c: Company| b.spec_company_exists(c)
    &&& forall|c: Company| b.spec_company_exists(c) ==> (#[trigger] bank.spec_get(c)) >= 25
}

/// Decides whether any stock remains to buy: false while no company
/// exists, or while some existing company still has unissued shares.
pub(crate) fn stock_depleted(board: &Board, bank: &CompanyMap<u8>) -> (r: bool)
    ensures
        r == spec_all_stock_depleted(*board, *bank),
{
    let mut any = false;
    let mut all = true;

    if board.company_exists(Company::Continental) {
        any = true;
        if *bank.get(Company::Continental) < 25 {
            all = false;
        }
    }
    if board.company_exists(Company::Imperial) {
        any = true;
        if *bank.get(Company::Imperial) < 25 {
            all = false;
        }
    }
    if board.company_exists(Company::American) {
        any = true;
        if *bank.get(Company::American) < 25 {
            all = false;
        }
    }
    if board.company_exists(Company::Festival) {
        any = true;
        if *bank.get(Company::Festival) < 25 {
            all = false;
        }
    }
    if board.company_exists(Company::Worldwide) {
        any = true;
        if *bank.get(Company::Worldwide) < 25 {
            all = false;
        }
    }
    if board.company_exists(Company::Luxor) {
        any = true;
        if *bank.get(Company::Luxor) < 25 {
            all = false;
        }
    }
    if board.company_exists(Company::Tower) {
        any = true;
        if *bank.get(Company::Tower) < 25 {
            all = false;
        }
    }

    proof {
        if any {
            assert(exists|c: Company| b_exists(*board, c)) by {
                if board.spec_company_exists(Company::Continental) {
                    assert(b_exists(*board, Company::Continental));
                } else if board.spec_company_exists(Company::Imperial) {
                    assert(b_exists(*board, Company::Imperial));
                } else if board.spec_company_exists(Company::American) {
                    assert(b_exists(*board, Company::American));
                } else if board.spec_company_exists(Company::Festival) {
                    assert(b_exists(*board, Company::Festival));
                } else if board.spec_company_exists(Company::Worldwide) {
                    assert(b_exists(*board, Company::Worldwide));
                } else if board.spec_company_exists(Company::Luxor) {
                    assert(b_exists(*board, Company::Luxor));
                } else {
                    assert(b_exists(*board, Company::Tower));
                }
            }
            assert((exists|c: Company| b_exists(*board, c)) == (exists|c: Company|
                board.spec_company_exists(c)));
        }
        assert forall|c: Company| !b_exists(*board, c) implies !board.spec_company_exists(
            c,
        ) by {}
    }
    any && all
}

/// Helper naming of company existence, giving the existential a stable
/// trigger.
pub open spec fn b_exists(b: Board, c: Company) -> bool {
    b.spec_company_exists(c)
}

} // verus!

verus! {

/// The bank's remaining inventory of a company — the shares not yet
/// issued — plus every player's holdings never exceeds the 25 shares that
/// exist of each company.
pub proof fn lemma_bank_inventory_bound(k: GameKernel, c: Company)
    requires
        k.wf(),
    ensures
        (25 - k.stock_bank.spec_get(c)) + sum_holdings(k.players@, c) <= 25,
        0 <= 25 - k.stock_bank.spec_get(c),
{
}

/// No player holds more than `v` shares: nobody is counted above `v`.
pub proof fn lemma_count_above_zero(ps: Seq<PlayerData>, c: Company, v: int)
    requires
        forall|q: int| 0 <= q < ps.len() ==> (#[trigger] ps[q].holdings).spec_get(c) <= v,
    ensures
        count_holders_above(ps, c, v) == 0,
    decreases ps.len(),
{
    if ps.len() > 0 {
        lemma_count_above_zero(ps.drop_last(), c, v);
    }
}

/// Three distinct players holding more than `v` put the count above `v` at
/// three or more.
pub proof fn lemma_count_above_at_least_three(
    ps: Seq<PlayerData>,
    c: Company,
    v: int,
    i1: int,
    i2: int,
    i3: int,
)
    requires
        0 <= i1 < i2 < i3 < ps.len(),
        ps[i1].holdings.spec_get(c) > v,
        ps[i2].holdings.spec_get(c) > v,
        ps[i3].holdings.spec_get(c) > v,
    ensures
        count_holders_above(ps, c, v) >= 3,
    decreases ps.len(),
{
    if i3 == ps.len() - 1 {
        lemma_count_above_two(ps.drop_last(), c, v, i1, i2);
    } else {
        lemma_count_above_at_least_three(ps.drop_last(), c, v, i1, i2, i3);
    }
}

/// Two distinct players holding more than `v` put the count above `v` at
/// two or more.
pub proof fn lemma_count_above_two(ps: Seq<PlayerData>, c: Company, v: int, i1: int, i2: int)
    requires
        0 <= i1 < i2 < ps.len(),
        ps[i1].holdings.spec_get(c) > v,
        ps[i2].holdings.spec_get(c) > v,
    ensures
        count_holders_above(ps, c, v) >= 2,
    decreases ps.len(),
{
    if i2 == ps.len() - 1 {
        lemma_count_above_one(ps.drop_last(), c, v, i1);
    } else {
        lemma_count_above_two(ps.drop_last(), c, v, i1, i2);
    }
}

/// One player holding more than `v` puts the count above `v` at one or
/// more.
pub proof fn lemma_count_above_one(ps: Seq<PlayerData>, c: Company, v: int, i1: int)
    requires
        0 <= i1 < ps.len(),
        ps[i1].holdings.spec_get(c) > v,
    ensures
        count_holders_above(ps, c, v) >= 1,
    decreases ps.len(),
{
    lemma_count_above_bounds(ps.drop_last(), c, v);
    if i1 < ps.len() - 1 {
        lemma_count_above_one(ps.drop_last(), c, v, i1);
    }
}

/// A principal-bonus payout pays the position-1 player exactly ten times
/// the share price and a position-2 player exactly five times, at the
/// price observed immediately before the payout.
pub proof fn lemma_principal_bonus_exact(
    pre: Seq<PlayerData>,
    post: Seq<PlayerData>,
    p: int,
    c: Company,
    price: u32,
)
    requires
        0 <= p < pre.len(),
        player_paid_bonus(pre, post, p, c, price),
        pre[p].money + bonus_multiplier(spec_position(pre, c, p)) * price <= u32::MAX,
    ensures
        spec_position(pre, c, p) == 1 ==> post[p].money == pre[p].money + 10 * price,
        spec_position(pre, c, p) == 2 ==> post[p].money == pre[p].money + 5 * price,
        spec_position(pre, c, p) > 2 ==> post[p].money == pre[p].money,
{
}

/// A three-way tie for the most shares puts all three players in position
/// 1 — each earning the principal bonus — and leaves nobody in position 2,
/// so no secondary bonus is paid at all.
pub proof fn lemma_three_way_tie_for_first(
    ps: Seq<PlayerData>,
    c: Company,
    i1: int,
    i2: int,
    i3: int,
)
    requires
        0 <= i1 < i2 < i3 < ps.len(),
        ps[i1].holdings.spec_get(c) == ps[i2].holdings.spec_get(c),
        ps[i2].holdings.spec_get(c) == ps[i3].holdings.spec_get(c),
        forall|q: int|
            0 <= q < ps.len() ==> (#[trigger] ps[q].holdings).spec_get(c)
                <= ps[i1].holdings.spec_get(c),
    ensures
        spec_position(ps, c, i1) == 1,
        spec_position(ps, c, i2) == 1,
        spec_position(ps, c, i3) == 1,
        forall|q: int| 0 <= q < ps.len() ==> spec_position(ps, c, q) != 2,
{
    let top = ps[i1].holdings.spec_get(c) as int;
    lemma_count_above_zero(ps, c, top);
    assert forall|q: int| 0 <= q < ps.len() implies spec_position(ps, c, q) != 2 by {
        let hq = ps[q].holdings.spec_get(c) as int;
        if hq == top {
            lemma_count_above_zero(ps, c, hq);
        } else {
            lemma_count_above_at_least_three(ps, c, hq, i1, i2, i3);
        }
    }
}

} // verus!
