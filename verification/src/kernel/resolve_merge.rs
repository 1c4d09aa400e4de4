//! The merge-resolution states of a turn.

use vstd::prelude::*;

use crate::messages::Merge;
use super::State;

verus! {

/// Intermediate state in which the [`super::Game`] is deciding whether to
/// enter [`ResolvingMerge`] or [`super::BuyingStock`].
#[derive(Debug, Clone, Copy, PartialEq, Eq, Structural)]
pub struct MaybeResolvingMerge {
    /// The merge the placed tile implied, if any.
    pub merge: Option<Merge>,
}

impl State for MaybeResolvingMerge {

}

/// The possible intermediate state of a turn in which the game facilitates
/// the merge of one or more defunct companies into one survivor.
#[derive(Debug, Clone, PartialEq, Eq)]
pub struct ResolvingMerge {
    /// The merge that initiated this process; it does not change.
    pub merge: Merge,
    /// The defunct companies not yet resolved.
    pub current_merge: Merge,
    /// The defunct company whose shareholders are being walked.
    pub current_defunct: crate::company::Company,
    /// The ranked shareholder results for the company being resolved.
    pub shareholder_results: Vec<crate::messages::PrincipleShareholderResult>,
    /// Index into the ranked list of the shareholder whose action is
    /// expected.
    pub resolving_player: usize,
}

impl State for ResolvingMerge {

}

impl ResolvingMerge {
    /// Gets the company whose defunct stock is currently being resolved.
    pub fn current_defunct(&self) -> (r: crate::company::Company)
        ensures
            r == self.current_defunct,
    {
        self.current_defunct
    }

    /// Gets the company that will prevail at the end of this merge.
    pub fn company_into(&self) -> (r: crate::company::Company)
        ensures
            r == self.merge.into,
    {
        self.merge.into
    }
}

/// Indicates what should be done after stepping a merge forward.
pub trait MergeResolution: super::sealed::SealedResolution {

}

/// The merge is not finished: another shareholder or another defunct
/// company remains.
#[derive(Debug, PartialEq, Eq, Structural)]
pub struct ContinueMerging {
    /// The id of the game that created this object.
    pub game_id: usize,
}

impl MergeResolution for ContinueMerging {

}

/// The merge is finished once this step is applied.
#[derive(Debug, PartialEq, Eq, Structural)]
pub struct DoneMerging {
    /// The id of the game that created this object.
    pub game_id: usize,
}

impl MergeResolution for DoneMerging {

}

/// A validated sell/trade/keep split for one shareholder of the defunct
/// company, used to advance a [`super::Game`] in the [`ResolvingMerge`]
/// state.
#[derive(Debug, PartialEq, Eq)]
pub struct MergeStep<N: MergeResolution + Eq> {
    /// Stock being sold by the player.
    pub selling: u8,
    /// Stock being traded by the player.
    pub trading: u8,
    /// Stock being kept by the player.
    pub keeping: u8,
    /// Whether this step concludes the merge.
    pub resolve: N,
}

impl<N: MergeResolution + Eq> MergeStep<N> {
    /// Stock the player sells.
    pub fn selling(&self) -> (r: u8)
        ensures
            r == self.selling,
    {
        self.selling
    }

    /// Stock the player trades in, two defunct shares per surviving share.
    pub fn trading(&self) -> (r: u8)
        ensures
            r == self.trading,
    {
        self.trading
    }

    /// Stock the player keeps.
    pub fn keeping(&self) -> (r: u8)
        ensures
            r == self.keeping,
    {
        self.keeping
    }
}

} // verus!

verus! {

use crate::company::Company;
use crate::messages::{
    GameOver, InvalidMessageReason, MergeResolveError, PlayerAction, PrincipleShareholderResult,
    TaggedPlayerAction,
};
use super::buy_stock::BuyingStock;
use super::kernel::{
    add_cash, player_paid_bonus, spec_shareholder_results, sum_holdings, PlayerData,
};
use super::Game;

/// Entry `k` of a result list names some current player.
pub open spec fn entry_has_player(ps: Seq<PlayerData>, rs: Seq<PrincipleShareholderResult>, k: int) -> bool {
    exists|p: int| 0 <= p < ps.len() && (#[trigger] ps[p].name)@ == rs[k].player@
}

/// The index of the player named `name`, where one exists.
pub open spec fn player_index_of(ps: Seq<PlayerData>, name: Seq<char>) -> int {
    choose|p: int| 0 <= p < ps.len() && (#[trigger] ps[p].name)@ == name
}

/// How commencing the resolution of merge `m` changes the game: the last
/// listed defunct company is popped, its ranked shareholder list is
/// computed, and its principal bonuses are paid out at once; board, bank
/// and turn are untouched.
pub open spec fn spec_commence_effect(
    pre: super::GameImpl,
    m: Merge,
    post: super::GameImpl,
    st: ResolvingMerge,
) -> bool {
    &&& post.id == pre.id
    &&& post.player == pre.player
    &&& post.kernel.board == pre.kernel.board
    &&& post.kernel.stock_bank == pre.kernel.stock_bank
    &&& st.merge == m
    &&& st.resolving_player == 0
    &&& st.current_defunct == spec_popped_company(m)
    &&& st.current_merge == spec_popped_merge(m)
    &&& forall|p: int|
        0 <= p < pre.kernel.players@.len() ==> player_paid_bonus(
            pre.kernel.players@,
            post.kernel.players@,
            p,
            st.current_defunct,
            pre.kernel.board.spec_price(st.current_defunct),
        )
    &&& spec_shareholder_results(
        pre.kernel.players@,
        st.current_defunct,
        pre.kernel.board.spec_price(st.current_defunct),
        st.shareholder_results@,
    )
}

impl Game<MaybeResolvingMerge> {
    /// Decides whether this game has a merge to resolve. Returns the object
    /// that advances the state either way.
    pub fn decide_merge(&self) -> (r: Result<DoneMerging, ContinueMerging>)
        ensures
            self.state.merge is Some ==> r == Err::<DoneMerging, ContinueMerging>(
                ContinueMerging { game_id: self.data.id },
            ),
            self.state.merge is None ==> r == Ok::<DoneMerging, ContinueMerging>(
                DoneMerging { game_id: self.data.id },
            ),
    {
        match self.state.merge {
            Some(_) => Err(ContinueMerging { game_id: self.data.id }),
            None => Ok(DoneMerging { game_id: self.data.id }),
        }
    }

    /// Skips the merge resolution phase of this turn, as no merge occurred.
    /// This advances the game to the [`BuyingStock`] state.
    pub fn skip_merge(self, skipper: DoneMerging) -> (r: Game<BuyingStock>)
        requires
            skipper.game_id == self.data.id,
        ensures
            r.data == self.data,
            r.state == BuyingStock,
    {
        let _ = skipper;
        Game { data: self.data, state: BuyingStock }
    }

    /// Begins resolving a merge, advancing this game to the
    /// [`ResolvingMerge`] state: the last listed defunct company is taken
    /// up first, and its principal bonuses are paid out at once.
    pub fn commence_merge(self, starter: ContinueMerging) -> (r: Game<ResolvingMerge>)
        requires
            self.wf(),
            starter.game_id == self.data.id,
            self.state.merge matches Some(m) && m.defunct_seq().len() > 0,
        ensures
            r.wf(),
            r.resolving_wf(),
            spec_commence_effect(*self.data, self.state.merge.unwrap(), *r.data, r.state),
            self.state.merge.unwrap().lists_defunct(r.state.current_defunct),
    {
        let full_merge = if let Some(m) = self.state.merge {
            m
        } else {
            self.state.merge.unwrap()
        };
        let mut popped = full_merge;
        let current_defunct = popped.pop_defunct().unwrap();
        let mut data = self.data;
        let shareholder_results = data.kernel.pay_principle_bonuses(current_defunct);
        let state = ResolvingMerge {
            merge: full_merge,
            current_merge: popped,
            current_defunct,
            shareholder_results,
            resolving_player: 0,
        };
        let r = Game { data, state };
        proof {
            assert forall|k: int|
                0 <= k < r.state.shareholder_results@.len() implies #[trigger] entry_has_player(
                r.data.kernel.players@,
                r.state.shareholder_results@,
                k,
            ) by {
                assert(super::kernel::entry_names_player(
                    self.data.kernel.players@,
                    current_defunct,
                    r.state.shareholder_results@,
                    k,
                ));
                let p = choose|p: int|
                    0 <= p < self.data.kernel.players@.len() && (#[trigger] self.data.kernel.players@[p].name)@
                        == r.state.shareholder_results@[k].player@;
                assert(player_paid_bonus(
                    self.data.kernel.players@,
                    r.data.kernel.players@,
                    p,
                    current_defunct,
                    self.data.kernel.board.spec_price(current_defunct),
                ));
                assert((r.data.kernel.players@[p].name)@
                    == r.state.shareholder_results@[k].player@);
            }
        }
        r
    }
}

impl Game<ResolvingMerge> {
    /// The merge-resolution state is coherent with the game data: a
    /// shareholder list with one entry per player, an in-range resolving
    /// index, every listed name belonging to a player, and the merger tile
    /// still marked on the board.
    pub open spec fn resolving_wf(self) -> bool {
        &&& self.state.shareholder_results@.len() == self.data.kernel.players@.len()
        &&& self.state.resolving_player < self.state.shareholder_results@.len()
        &&& forall|k: int|
            0 <= k < self.state.shareholder_results@.len() ==> #[trigger] entry_has_player(
                self.data.kernel.players@,
                self.state.shareholder_results@,
                k,
            )
    }

    /// The index of the player whose action is expected.
    pub open spec fn resolver(self) -> int {
        player_index_of(
            self.data.kernel.players@,
            self.state.shareholder_results@[self.state.resolving_player as int].player@,
        )
    }

    /// Gets the merge currently being resolved: the `.0` element is the
    /// defunct company, and the `.1` element is the company into which the
    /// defunct is merging.
    pub fn current_merge(&self) -> (r: (Company, Company))
        ensures
            r.0 == self.state.current_defunct,
            r.1 == self.state.current_merge.into,
    {
        (self.state.current_defunct, self.state.current_merge.into)
    }

    /// Determines if the game is beginning a new merge in the current
    /// state.
    pub fn beginning_of_new_merge(&self) -> (r: bool)
        ensures
            r == (self.state.resolving_player == 0),
    {
        self.state.resolving_player == 0
    }

    /// Gets the list of principal shareholders for the current merge.
    pub fn principle_shareholders(&self) -> (r: &Vec<PrincipleShareholderResult>)
        ensures
            *r == self.state.shareholder_results,
    {
        &self.state.shareholder_results
    }
}

} // verus!

verus! {

use crate::messages::Merge as MergeDescriptor;

/// The last listed defunct company of a non-empty merge descriptor.
pub open spec fn spec_popped_company(m: MergeDescriptor) -> Company {
    if m.defunct_third is Some {
        m.defunct_third.unwrap()
    } else if m.defunct_second is Some {
        m.defunct_second.unwrap()
    } else {
        m.defunct_first.unwrap()
    }
}

/// A merge descriptor with its last listed defunct company taken out.
pub open spec fn spec_popped_merge(m: MergeDescriptor) -> MergeDescriptor {
    if m.defunct_third is Some {
        MergeDescriptor { defunct_third: None, ..m }
    } else if m.defunct_second is Some {
        MergeDescriptor { defunct_second: None, ..m }
    } else {
        MergeDescriptor { defunct_first: None, ..m }
    }
}

/// A player's data after resolving its defunct stock: cash for the sold
/// shares at the defunct company's price, the kept shares credited back as
/// the defunct holding, and one surviving share for every two traded.
pub open spec fn spec_resolved_player(
    p: PlayerData,
    defunct: Company,
    into: Company,
    price: u32,
    selling: u8,
    trading: u8,
    keeping: u8,
) -> PlayerData {
    let h1 = p.holdings.spec_set(defunct, keeping);
    let h2 = h1.spec_set(into, (h1.spec_get(into) + trading / 2) as u8);
    PlayerData {
        name: p.name,
        money: add_cash(p.money, price * selling),
        holdings: h2,
        order: p.order,
        next_player: p.next_player,
    }
}

impl Game<ResolvingMerge> {
    /// The split is consistent with the resolving shareholder's actual
    /// holding, trades an even number, and the survivor's bank can cover
    /// the traded-for shares.
    pub open spec fn spec_step_valid(self, selling: u8, trading: u8, keeping: u8) -> bool {
        &&& selling + trading + keeping == self.data.kernel.players@[self.resolver()].holdings.spec_get(
            self.state.current_defunct,
        )
        &&& trading % 2 == 0
        &&& self.data.kernel.stock_bank.spec_get(self.state.current_merge.into) + trading / 2
            <= 25
    }

    /// Tries to resolve defunct stock as the resolving shareholder and
    /// checks that the split is valid: it must cover exactly the held
    /// stock, trade an even count, and not outrun the survivor's bank. A
    /// valid split yields the [`MergeStep`] that advances this game, marked
    /// as concluding the merge exactly when it is the last shareholder's
    /// step for the last defunct company.
    pub fn check_merge_resolution(&self, selling: u8, keeping: u8, trading: u8) -> (r: Result<
        Result<MergeStep<ContinueMerging>, MergeStep<DoneMerging>>,
        MergeResolveError,
    >)
        requires
            self.wf(),
            self.resolving_wf(),
        ensures
            ({
                let h = self.data.kernel.players@[self.resolver()].holdings.spec_get(
                    self.state.current_defunct,
                );
                let bank = self.data.kernel.stock_bank.spec_get(self.state.current_merge.into);
                &&& selling + trading + keeping != h ==> r == Err::<
                    Result<MergeStep<ContinueMerging>, MergeStep<DoneMerging>>,
                    MergeResolveError,
                >(MergeResolveError::ResolvesNonexistentStock)
                &&& selling + trading + keeping == h && trading % 2 != 0 ==> r == Err::<
                    Result<MergeStep<ContinueMerging>, MergeStep<DoneMerging>>,
                    MergeResolveError,
                >(MergeResolveError::TradesInOddStock)
                &&& selling + trading + keeping == h && trading % 2 == 0 && bank + trading / 2
                    > 25 ==> r == Err::<
                    Result<MergeStep<ContinueMerging>, MergeStep<DoneMerging>>,
                    MergeResolveError,
                >(MergeResolveError::OutOfStock)
                &&& self.spec_step_valid(selling, trading, keeping) ==> r == Ok::<
                    Result<MergeStep<ContinueMerging>, MergeStep<DoneMerging>>,
                    MergeResolveError,
                >(
                    if self.state.resolving_player + 1
                        == self.state.shareholder_results@.len()
                        && self.state.current_merge.defunct_seq().len() == 0 {
                        Err(
                            (MergeStep {
                                selling,
                                keeping,
                                trading,
                                resolve: (DoneMerging { game_id: self.data.id }),
                            }),
                        )
                    } else {
                        Ok(
                            (MergeStep {
                                selling,
                                keeping,
                                trading,
                                resolve: (ContinueMerging { game_id: self.data.id }),
                            }),
                        )
                    },
                )
            }),
    {
        let idx = self.resolver_index();
        let held: u8 = *self.data.kernel.players[idx].holdings.get(self.state.current_defunct);

        let total: u32 = selling as u32 + trading as u32 + keeping as u32;
        if total != held as u32 {
            return Err(MergeResolveError::ResolvesNonexistentStock);
        }
        if trading % 2 == 1 {
            return Err(MergeResolveError::TradesInOddStock);
        }
        let issued: u8 = *self.data.kernel.stock_bank.get(self.state.current_merge.into);
        if issued as u32 + (trading / 2) as u32 > 25 {
            return Err(MergeResolveError::OutOfStock);
        }

        if self.state.resolving_player + 1 == self.state.shareholder_results.len()
            && self.state.current_merge.defunct_is_empty() {
            Ok(
                Err(
                    MergeStep {
                        selling,
                        keeping,
                        trading,
                        resolve: DoneMerging { game_id: self.data.id },
                    },
                ),
            )
        } else {
            Ok(
                Ok(
                    MergeStep {
                        selling,
                        keeping,
                        trading,
                        resolve: ContinueMerging { game_id: self.data.id },
                    },
                ),
            )
        }
    }

    /// Finds the table index of the resolving shareholder.
    fn resolver_index(&self) -> (idx: usize)
        requires
            self.wf(),
            self.resolving_wf(),
        ensures
            idx as int == self.resolver(),
            idx < self.data.kernel.players@.len(),
    {
        let name = self.state.shareholder_results[self.state.resolving_player].player.as_str();
        let n = self.data.kernel.players.len();
        let mut i: usize = 0;
        proof {
            assert(entry_has_player(
                self.data.kernel.players@,
                self.state.shareholder_results@,
                self.state.resolving_player as int,
            ));
        }
        while i < n
            invariant
                self.wf(),
                self.resolving_wf(),
                n == self.data.kernel.players@.len(),
                i <= n,
                name@ == self.state.shareholder_results@[self.state.resolving_player as int].player@,
                forall|q: int|
                    0 <= q < i ==> (#[trigger] self.data.kernel.players@[q].name)@ != name@,
                entry_has_player(
                    self.data.kernel.players@,
                    self.state.shareholder_results@,
                    self.state.resolving_player as int,
                ),
            decreases n - i,
        {
            if super::kernel::str_eq(self.data.kernel.players[i].name.as_str(), name) {
                proof {
                    let r = self.resolver();
                    assert(self.data.kernel.players@[r].name@ == name@);
                    if r != i as int {
                        assert(self.data.kernel.players@[r].name@
                            != self.data.kernel.players@[i as int].name@);
                    }
                }
                return i;
            }
            i += 1;
        }
        proof {
            let p = choose|p: int|
                0 <= p < self.data.kernel.players@.len() && (#[trigger] self.data.kernel.players@[p].name)@
                    == name@;
            assert(false);
        }
        0
    }

    /// The verdict on a merge-resolution message: it must be a
    /// merge-resolution step, sent by the ranked shareholder whose turn it
    /// is, with a valid split.
    pub open spec fn spec_check_resolve_action(self, action: TaggedPlayerAction) -> Result<
        Result<MergeStep<ContinueMerging>, MergeStep<DoneMerging>>,
        InvalidMessageReason,
    > {
        match action.action {
            PlayerAction::ResolveMergeStock { selling, trading, keeping } => {
                if action.player_name@
                    != self.state.shareholder_results@[self.state.resolving_player as int].player@ {
                    Err(InvalidMessageReason::OutOfTurn)
                } else {
                    match self.spec_check_result(selling, trading, keeping) {
                        Ok(step) => Ok(step),
                        Err(e) => Err(InvalidMessageReason::MergeResolveError(e)),
                    }
                }
            },
            _ => Err(InvalidMessageReason::OutOfTurn),
        }
    }

    /// Takes a [`PlayerAction`] and checks that it is a merge-resolution
    /// step sent by the shareholder whose turn in the ranking it is. If so,
    /// the returned [`MergeStep`] can be used to advance this game.
    pub fn check_player_action(&self, action: &TaggedPlayerAction) -> (r: Result<
        Result<MergeStep<ContinueMerging>, MergeStep<DoneMerging>>,
        InvalidMessageReason,
    >)
        requires
            self.wf(),
            self.resolving_wf(),
        ensures
            r == self.spec_check_resolve_action(*action),
            r matches Ok(step) ==> (match step {
                Ok(cs) => cs.resolve.game_id == self.data.id && self.spec_step_valid(
                    cs.selling,
                    cs.trading,
                    cs.keeping,
                ) && (self.state.resolving_player + 1
                    == self.state.shareholder_results@.len()
                    ==> self.state.current_merge.defunct_seq().len() > 0),
                Err(ds) => ds.resolve.game_id == self.data.id && self.spec_step_valid(
                    ds.selling,
                    ds.trading,
                    ds.keeping,
                ) && self.state.resolving_player + 1 == self.state.shareholder_results@.len()
                    && self.state.current_merge.defunct_seq().len() == 0,
            }),
            !(action.action matches PlayerAction::ResolveMergeStock { .. }) ==> r == Err::<
                Result<MergeStep<ContinueMerging>, MergeStep<DoneMerging>>,
                InvalidMessageReason,
            >(InvalidMessageReason::OutOfTurn),
            action.action matches PlayerAction::ResolveMergeStock { selling, trading, keeping }
                ==> {
                &&& action.player_name@
                    != self.state.shareholder_results@[self.state.resolving_player as int].player@
                    ==> r == Err::<
                    Result<MergeStep<ContinueMerging>, MergeStep<DoneMerging>>,
                    InvalidMessageReason,
                >(InvalidMessageReason::OutOfTurn)
                &&& action.player_name@
                    == self.state.shareholder_results@[self.state.resolving_player as int].player@
                    ==> match r {
                    Ok(step) => self.spec_step_valid(selling, trading, keeping) && Ok::<
                        Result<MergeStep<ContinueMerging>, MergeStep<DoneMerging>>,
                        MergeResolveError,
                    >(step) == self.spec_check_result(selling, trading, keeping),
                    Err(e) => e matches InvalidMessageReason::MergeResolveError(me)
                        && Err::<
                        Result<MergeStep<ContinueMerging>, MergeStep<DoneMerging>>,
                        MergeResolveError,
                    >(me) == self.spec_check_result(selling, trading, keeping),
                }
            },
    {
        if let PlayerAction::ResolveMergeStock { selling, trading, keeping } = action.action {
            let resolving = self.state.shareholder_results[self.state.resolving_player].player.as_str();
            if !super::kernel::str_eq(action.player_name.as_str(), resolving) {
                return Err(InvalidMessageReason::OutOfTurn);
            }
            match self.check_merge_resolution(selling, keeping, trading) {
                Ok(step) => Ok(step),
                Err(e) => Err(InvalidMessageReason::MergeResolveError(e)),
            }
        } else {
            Err(InvalidMessageReason::OutOfTurn)
        }
    }

    /// What [`Game::check_merge_resolution`] returns for a split.
    pub open spec fn spec_check_result(self, selling: u8, trading: u8, keeping: u8) -> Result<
        Result<MergeStep<ContinueMerging>, MergeStep<DoneMerging>>,
        MergeResolveError,
    > {
        let h = self.data.kernel.players@[self.resolver()].holdings.spec_get(
            self.state.current_defunct,
        );
        let bank = self.data.kernel.stock_bank.spec_get(self.state.current_merge.into);
        if selling + trading + keeping != h {
            Err(MergeResolveError::ResolvesNonexistentStock)
        } else if trading % 2 != 0 {
            Err(MergeResolveError::TradesInOddStock)
        } else if bank + trading / 2 > 25 {
            Err(MergeResolveError::OutOfStock)
        } else if self.state.resolving_player + 1 == self.state.shareholder_results@.len()
            && self.state.current_merge.defunct_seq().len() == 0 {
            Ok(
                Err(
                    (MergeStep {
                        selling,
                        keeping,
                        trading,
                        resolve: (DoneMerging { game_id: self.data.id }),
                    }),
                ),
            )
        } else {
            Ok(
                Ok(
                    (MergeStep {
                        selling,
                        keeping,
                        trading,
                        resolve: (ContinueMerging { game_id: self.data.id }),
                    }),
                ),
            )
        }
    }
}

} // verus!

verus! {

/// How one shareholder's continue-step changes a resolving game: the split
/// is applied to the resolving shareholder's ledger; then either the walk
/// moves to the next ranked shareholder, or — when the shareholders are
/// exhausted — the next defunct company is popped and its principal
/// bonuses are paid out at once.
pub open spec fn spec_continue_effect(
    pre: Game<ResolvingMerge>,
    post: Game<ResolvingMerge>,
    selling: u8,
    trading: u8,
    keeping: u8,
) -> bool {
    let mid = pre.data.kernel.players@.update(
        pre.resolver(),
        spec_resolved_player(
            pre.data.kernel.players@[pre.resolver()],
            pre.state.current_defunct,
            pre.state.current_merge.into,
            pre.data.kernel.board.spec_price(pre.state.current_defunct),
            selling,
            trading,
            keeping,
        ),
    );
    let mid_bank = pre.data.kernel.stock_bank.spec_set(
        pre.state.current_merge.into,
        (pre.data.kernel.stock_bank.spec_get(pre.state.current_merge.into) + trading
            / 2) as u8,
    );
    &&& post.data.id == pre.data.id
    &&& post.data.player == pre.data.player
    &&& post.data.kernel.board == pre.data.kernel.board
    &&& post.state.merge == pre.state.merge
    &&& post.data.kernel.stock_bank == mid_bank
    &&& if pre.state.resolving_player + 1 < pre.state.shareholder_results@.len() {
        &&& post.data.kernel.players@ == mid
        &&& post.state.resolving_player == pre.state.resolving_player + 1
        &&& post.state.shareholder_results == pre.state.shareholder_results
        &&& post.state.current_merge == pre.state.current_merge
        &&& post.state.current_defunct == pre.state.current_defunct
    } else {
        &&& post.state.current_defunct == spec_popped_company(pre.state.current_merge)
        &&& post.state.current_merge == spec_popped_merge(pre.state.current_merge)
        &&& post.state.resolving_player == 0
        &&& forall|p: int|
            0 <= p < mid.len() ==> player_paid_bonus(
                mid,
                post.data.kernel.players@,
                p,
                post.state.current_defunct,
                pre.data.kernel.board.spec_price(post.state.current_defunct),
            )
        &&& spec_shareholder_results(
            mid,
            post.state.current_defunct,
            pre.data.kernel.board.spec_price(post.state.current_defunct),
            post.state.shareholder_results@,
        )
    }
}

impl Game<ResolvingMerge> {
    /// Updates the kernel data to resolve the defunct stock of the
    /// resolving shareholder.
    fn apply_step(&mut self, selling: u8, keeping: u8, trading: u8)
        requires
            old(self).wf(),
            old(self).resolving_wf(),
            old(self).spec_step_valid(selling, trading, keeping),
        ensures
            final(self).wf(),
            final(self).state == old(self).state,
            final(self).data.id == old(self).data.id,
            final(self).data.player == old(self).data.player,
            final(self).data.kernel.board == old(self).data.kernel.board,
            final(self).data.kernel.stock_bank == old(self).data.kernel.stock_bank.spec_set(
                old(self).state.current_merge.into,
                (old(self).data.kernel.stock_bank.spec_get(old(self).state.current_merge.into)
                    + trading / 2) as u8,
            ),
            final(self).data.kernel.players@ == old(self).data.kernel.players@.update(
                old(self).resolver(),
                spec_resolved_player(
                    old(self).data.kernel.players@[old(self).resolver()],
                    old(self).state.current_defunct,
                    old(self).state.current_merge.into,
                    old(self).data.kernel.board.spec_price(old(self).state.current_defunct),
                    selling,
                    trading,
                    keeping,
                ),
            ),
            final(self).resolving_wf(),
    {
        let ghost orig = *self;
        let idx = self.resolver_index();
        let defunct = self.state.current_defunct;
        let into = self.state.current_merge.into;
        let price = self.data.kernel.board.stock_price(defunct);

        proof {
            super::kernel::lemma_holdings_le_sum(
                self.data.kernel.players@,
                defunct,
                idx as int,
            );
            super::kernel::lemma_holdings_le_sum(self.data.kernel.players@, into, idx as int);
        }

        let money = self.data.kernel.players[idx].money;
        proof {
            assert(price as int * (selling as int) <= 1200 * 255) by (nonlinear_arith)
                requires
                    price <= 1200,
                    0 <= selling <= 255,
            ;
        }
        let sale: u32 = price * (selling as u32);
        let new_money = if sale > u32::MAX - money {
            u32::MAX
        } else {
            money + sale
        };
        self.data.kernel.players[idx].money = new_money;
        self.data.kernel.players[idx].holdings.set(defunct, keeping);
        let held_into: u8 = *self.data.kernel.players[idx].holdings.get(into);
        self.data.kernel.players[idx].holdings.set(into, held_into + trading / 2);
        let issued: u8 = *self.data.kernel.stock_bank.get(into);
        self.data.kernel.stock_bank.set(into, issued + trading / 2);

        proof {
            let ps0 = orig.data.kernel.players@;
            let resolved = spec_resolved_player(
                ps0[orig.resolver()],
                defunct,
                into,
                price,
                selling,
                trading,
                keeping,
            );
            assert(self.data.kernel.players@ =~= ps0.update(orig.resolver(), resolved));
            assert forall|c: Company|
                sum_holdings(self.data.kernel.players@, c) <= (
                #[trigger] self.data.kernel.stock_bank.spec_get(c)) <= 25 by {
                super::kernel::lemma_sum_holdings_update(ps0, c, orig.resolver(), resolved);
            }
            assert(self.data.kernel.players_wf());
            assert forall|k: int|
                0 <= k < self.state.shareholder_results@.len() implies #[trigger] entry_has_player(
                self.data.kernel.players@,
                self.state.shareholder_results@,
                k,
            ) by {
                assert(entry_has_player(ps0, self.state.shareholder_results@, k));
                let p = choose|p: int|
                    0 <= p < ps0.len() && (#[trigger] ps0[p].name)@
                        == self.state.shareholder_results@[k].player@;
                assert((self.data.kernel.players@[p].name)@
                    == self.state.shareholder_results@[k].player@);
            }
        }
    }

    /// Advances the merge along by one shareholder: applies the validated
    /// split, then moves to the next ranked shareholder, or — when the
    /// company's shareholders are exhausted — takes up the next defunct
    /// company, paying its principal bonuses at once. Returns whether a new
    /// defunct company was taken up; its ranked shareholders are then
    /// readable through [`Game::principle_shareholders`].
    pub fn continue_merge(&mut self, step: MergeStep<ContinueMerging>) -> (started_new: bool)
        requires
            old(self).wf(),
            old(self).resolving_wf(),
            step.resolve.game_id == old(self).data.id,
            old(self).spec_step_valid(step.selling, step.trading, step.keeping),
            old(self).state.resolving_player + 1 == old(self).state.shareholder_results@.len()
                ==> old(self).state.current_merge.defunct_seq().len() > 0,
        ensures
            final(self).wf(),
            final(self).resolving_wf(),
            started_new == (old(self).state.resolving_player + 1 == old(
                self,
            ).state.shareholder_results@.len()),
            spec_continue_effect(
                *old(self),
                *final(self),
                step.selling,
                step.trading,
                step.keeping,
            ),
    {
        self.apply_step(step.selling, step.keeping, step.trading);

        self.state.resolving_player += 1;

        if self.state.resolving_player == self.state.shareholder_results.len() {
            let defunct = self.state.current_merge.pop_defunct().unwrap();
            let ghost mid = self.data.kernel.players@;
            let results = self.data.kernel.pay_principle_bonuses(defunct);
            self.state.shareholder_results = results;
            self.state.current_defunct = defunct;
            self.state.resolving_player = 0;
            proof {
                assert forall|k: int|
                    0 <= k < self.state.shareholder_results@.len() implies #[trigger] entry_has_player(
                    self.data.kernel.players@,
                    self.state.shareholder_results@,
                    k,
                ) by {
                    assert(super::kernel::entry_names_player(
                        mid,
                        defunct,
                        self.state.shareholder_results@,
                        k,
                    ));
                    let p = choose|p: int|
                        0 <= p < mid.len() && (#[trigger] mid[p].name)@
                            == self.state.shareholder_results@[k].player@;
                    assert(player_paid_bonus(
                        mid,
                        self.data.kernel.players@,
                        p,
                        defunct,
                        self.data.kernel.board.spec_price(defunct),
                    ));
                    assert((self.data.kernel.players@[p].name)@
                        == self.state.shareholder_results@[k].player@);
                }
            }
            true
        } else {
            false
        }
    }
}

} // verus!

verus! {

use crate::messages::{IncorrectImplication, TilePlacement, TilePlacementImplication};
use crate::tile::Tile;

/// How the concluding step changes the game data: the split is applied to
/// the resolving shareholder's ledger and the board is resolved — the
/// merger chain joins the survivor, the defunct companies' counts drop to
/// zero, the marker clears, and a re-check at the marker demands no
/// implication.
pub open spec fn spec_finish_effect(
    pre: Game<ResolvingMerge>,
    post: super::GameImpl,
    selling: u8,
    trading: u8,
    keeping: u8,
) -> bool {
    let mid = pre.data.kernel.players@.update(
        pre.resolver(),
        spec_resolved_player(
            pre.data.kernel.players@[pre.resolver()],
            pre.state.current_defunct,
            pre.state.current_merge.into,
            pre.data.kernel.board.spec_price(pre.state.current_defunct),
            selling,
            trading,
            keeping,
        ),
    );
    let marker = pre.data.kernel.board.merger_tile.unwrap();
    &&& post.id == pre.data.id
    &&& post.player == pre.data.player
    &&& post.kernel.players@ == mid
    &&& post.kernel.stock_bank == pre.data.kernel.stock_bank.spec_set(
        pre.state.current_merge.into,
        (pre.data.kernel.stock_bank.spec_get(pre.state.current_merge.into) + trading
            / 2) as u8,
    )
    &&& post.kernel.board.merger_tile is None
    &&& post.kernel.board.headquarters == pre.data.kernel.board.headquarters
    &&& (forall|c: Company|
        pre.state.merge.lists_defunct(c) && c != pre.state.merge.into
            ==> post.kernel.board.company_sizes.spec_get(c) == 0)
    &&& post.kernel.board.cell(marker) == Some(Some(pre.state.merge.into))
    &&& post.kernel.board.spec_check_implication(
        TilePlacement { tile: marker, implication: None },
    ) is Ok
    &&& (forall|imp: Option<TilePlacementImplication>|
        imp is Some ==> post.kernel.board.spec_check_implication(
            TilePlacement { tile: marker, implication: imp },
        ) == Err::<(), IncorrectImplication>(IncorrectImplication::ShouldBeNone))
}

impl Game<ResolvingMerge> {
    /// Finishes the merge: applies the last validated split, relabels the
    /// board through [`crate::board::Board::resolve_merge`], and advances
    /// the game into the [`BuyingStock`] state — unless the merge has
    /// exhausted the stock of every existing company, which ends the game
    /// with [`GameOver::NoStock`].
    pub fn finish_merge(self, step: MergeStep<DoneMerging>) -> (r: Result<
        Game<BuyingStock>,
        Game<GameOver>,
    >)
        requires
            self.wf(),
            self.resolving_wf(),
            step.resolve.game_id == self.data.id,
            self.spec_step_valid(step.selling, step.trading, step.keeping),
            self.data.kernel.board.merger_tile is Some,
        ensures
            ({
                let g = match r {
                    Ok(g) => g.data,
                    Err(g) => g.data,
                };
                &&& g.wf()
                &&& spec_finish_effect(self, *g, step.selling, step.trading, step.keeping)
                &&& (r matches Err(go) ==> go.state == GameOver::NoStock
                    && super::kernel::spec_all_stock_depleted(
                    go.data.kernel.board,
                    go.data.kernel.stock_bank,
                ))
                &&& (r matches Ok(ok) ==> ok.state == BuyingStock
                    && !super::kernel::spec_all_stock_depleted(
                    ok.data.kernel.board,
                    ok.data.kernel.stock_bank,
                ))
            }),
    {
        let mut game = self;
        game.apply_step(step.selling, step.keeping, step.trading);

        game.data.kernel.board.resolve_merge(&game.state.merge);

        let depleted = super::kernel::stock_depleted(
            &game.data.kernel.board,
            &game.data.kernel.stock_bank,
        );
        if depleted {
            return Err(Game { data: game.data, state: GameOver::NoStock });
        }
        Ok(Game { data: game.data, state: BuyingStock })
    }
}

} // verus!
