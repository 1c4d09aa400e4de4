//! Starting a new game from its initial layout and play order.

use vstd::prelude::*;

use crate::board::Board;
use crate::company::{Company, CompanyMap};
use crate::messages::{GameStart, TilePlacement};
use crate::tile::Tile;
use super::kernel::{sum_holdings, GameKernel, PlayerData};
use super::place_tile::PlacingTile;
use super::{Game, GameImpl};

verus! {

/// A table of players all holding no stock sums to no stock.
proof fn lemma_sum_holdings_zero(ps: Seq<PlayerData>, c: Company)
    requires
        forall|i: int| 0 <= i < ps.len() ==> (#[trigger] ps[i].holdings).spec_get(c) == 0,
    ensures
        sum_holdings(ps, c) == 0,
    decreases ps.len(),
{
    if ps.len() > 0 {
        lemma_sum_holdings_zero(ps.drop_last(), c);
    }
}

impl Game<PlacingTile> {
    /// Begins a new game. It is expected that the order of play has already
    /// been determined through random drawing of tiles; the tiles that were
    /// drawn for that purpose are accepted and placed on the board, each
    /// occupied but belonging to no company. Every player starts with the
    /// given cash and no stock, and the first player of the play order is
    /// up. The caller supplies the unique instance id under which this
    /// game's advance values will be checked.
    pub fn start(game_start_info: &GameStart, id: usize) -> (r: Game<PlacingTile>)
        requires
            1 <= game_start_info.play_order@.len() < 15,
            forall|i: int, j: int|
                0 <= i < j < game_start_info.play_order@.len()
                    ==> game_start_info.play_order@[i]@ != game_start_info.play_order@[j]@,
            forall|k: int|
                0 <= k < game_start_info.tiles_placed@.len() ==> (
                #[trigger] game_start_info.tiles_placed@[k]).wf(),
        ensures
            r.wf(),
            r.data.id == id,
            r.data.player == 0,
            r.data.kernel.players@.len() == game_start_info.play_order@.len(),
            forall|i: int|
                0 <= i < game_start_info.play_order@.len() ==> {
                    let p = #[trigger] r.data.kernel.players@[i];
                    &&& p.name@ == game_start_info.play_order@[i]@
                    &&& p.money == game_start_info.starting_cash
                    &&& forall|c: Company| #[trigger] p.holdings.spec_get(c) == 0
                    &&& p.order == i
                },
            forall|c: Company| #[trigger] r.data.kernel.stock_bank.spec_get(c) == 0,
            forall|c: Company| #[trigger] r.data.kernel.board.company_sizes.spec_get(c) == 0,
            r.data.kernel.board.merger_tile is None,
            forall|t: Tile|
                t.wf() ==> #[trigger] r.data.kernel.board.cell(t) == (
                if game_start_info.tiles_placed@.contains(t) {
                    Some(None::<Company>)
                } else {
                    None::<Option<Company>>
                }),
    {
        let mut board = Board::new();

        let tile_count = game_start_info.tiles_placed.len();
        let mut k: usize = 0;
        while k < tile_count
            invariant
                tile_count == game_start_info.tiles_placed@.len(),
                k <= tile_count,
                forall|kk: int|
                    0 <= kk < tile_count ==> (
                    #[trigger] game_start_info.tiles_placed@[kk]).wf(),
                board.wf(),
                board.merger_tile is None,
                forall|c: Company| #[trigger] board.company_sizes.spec_get(c) == 0,
                forall|i: int|
                    0 <= i < board.tiles@.len() ==> !(exists|c: Company|
                        #[trigger] board.tiles@[i] == Some(Some(c))),
                forall|t: Tile|
                    t.wf() ==> #[trigger] board.cell(t) == (
                    if game_start_info.tiles_placed@.take(k as int).contains(t) {
                        Some(None::<Company>)
                    } else {
                        None::<Option<Company>>
                    }),
            decreases tile_count - k,
        {
            let tile = game_start_info.tiles_placed[k];
            let ghost pre = board;
            proof {
                assert forall|c: Company| !pre.borders_company(tile, c) by {
                    crate::tile::lemma_tile_index_bounds(tile);
                }
                assert(pre.bordering_company_count(tile) == 0);
            }
            board.place_tile(TilePlacement { tile, implication: None });
            proof {
                crate::tile::lemma_tile_index_bounds(tile);
                assert forall|t: Tile|
                    t.wf() implies #[trigger] board.cell(t) == (
                if game_start_info.tiles_placed@.take(k as int + 1).contains(t) {
                    Some(None::<Company>)
                } else {
                    None::<Option<Company>>
                }) by {
                    crate::tile::lemma_tile_index_bounds(t);
                    if t == tile {
                        assert(game_start_info.tiles_placed@.take(k as int + 1)[k as int]
                            == tile);
                        assert(game_start_info.tiles_placed@.take(k as int + 1).contains(t));
                    } else {
                        if t.index() == tile.index() {
                            crate::tile::lemma_tile_index_injective(t, tile);
                        }
                        assert(board.cell(t) == pre.cell(t));
                        assert(game_start_info.tiles_placed@.take(k as int + 1).contains(t)
                            == game_start_info.tiles_placed@.take(k as int).contains(t)) by {
                            let taken = game_start_info.tiles_placed@.take(k as int + 1);
                            if taken.contains(t) {
                                let w = choose|w: int|
                                    0 <= w < taken.len() && taken[w] == t;
                                assert(w < k);
                                assert(game_start_info.tiles_placed@.take(k as int)[w] == t);
                            } else {
                                if game_start_info.tiles_placed@.take(k as int).contains(t) {
                                    let w = choose|w: int|
                                        0 <= w < k && game_start_info.tiles_placed@.take(
                                            k as int,
                                        )[w] == t;
                                    assert(taken[w] == t);
                                }
                            }
                        }
                    }
                }
                assert forall|i: int|
                    0 <= i < board.tiles@.len() implies !(exists|c: Company|
                    #[trigger] board.tiles@[i] == Some(Some(c))) by {}
                assert forall|c: Company|
                    #[trigger] board.company_sizes.spec_get(c) == 0 by {
                    crate::board::lemma_count_zero(
                        board.tiles@,
                        crate::board::CellClass::OwnedBy(c),
                    );
                }
            }
            k += 1;
        }

        proof {
            assert(game_start_info.tiles_placed@.take(tile_count as int)
                =~= game_start_info.tiles_placed@);
        }

        let n = game_start_info.play_order.len();
        let mut players: Vec<PlayerData> = Vec::new();
        let mut i: usize = 0;
        while i < n
            invariant
                n == game_start_info.play_order@.len(),
                1 <= n < 15,
                i <= n,
                players@.len() == i,
                forall|q: int, j: int|
                    0 <= q < j < n ==> game_start_info.play_order@[q]@
                        != game_start_info.play_order@[j]@,
                forall|q: int|
                    0 <= q < i ==> {
                        let p = #[trigger] players@[q];
                        &&& p.name@ == game_start_info.play_order@[q]@
                        &&& p.money == game_start_info.starting_cash
                        &&& forall|c: Company| #[trigger] p.holdings.spec_get(c) == 0
                        &&& p.order == q
                        &&& p.next_player@ == game_start_info.play_order@[((q + 1) % (
                        n as int))]@
                    },
            decreases n - i,
        {
            let name = game_start_info.play_order[i].clone();
            let next_index = if i + 1 == n {
                0
            } else {
                i + 1
            };
            let next_player = game_start_info.play_order[next_index].clone();
            let holdings = CompanyMap::new(&0u8);
            players.push(
                PlayerData {
                    name,
                    money: game_start_info.starting_cash,
                    holdings,
                    order: i,
                    next_player,
                },
            );
            proof {
                let p = players@[i as int];
                assert(p.name@ == game_start_info.play_order@[i as int]@);
                assert(forall|c: Company| #[trigger] p.holdings.spec_get(c) == 0);
                assert((i as int + 1) % (n as int) == (if i + 1 == n {
                    0int
                } else {
                    i as int + 1
                })) by {
                    if i + 1 == n {
                        vstd::arithmetic::div_mod::lemma_mod_self_0(n as int);
                    } else {
                        vstd::arithmetic::div_mod::lemma_small_mod(
                            (i + 1) as nat,
                            n as nat,
                        );
                    }
                }
                assert(p.next_player@ == game_start_info.play_order@[((i as int + 1) % (
                n as int))]@);
            }
            i += 1;
        }

        let kernel = GameKernel { board, stock_bank: CompanyMap::new(&0u8), players };
        proof {
            assert(kernel.players_wf());
            assert forall|c: Company|
                sum_holdings(kernel.players@, c) <= (#[trigger] kernel.stock_bank.spec_get(c))
                    <= 25 by {
                lemma_sum_holdings_zero(kernel.players@, c);
            }
        }
        Game { data: Box::new(GameImpl { kernel, player: 0, id }), state: PlacingTile }
    }
}

} // verus!
