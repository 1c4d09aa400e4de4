//! A game whose phase is only known at run time.

use vstd::prelude::*;

use super::buy_stock::BuyingStock;
use super::place_tile::PlacingTile;
use super::resolve_merge::ResolvingMerge;
use super::{Game, State};

verus! {

impl State for crate::messages::GameOver {

}

/// A state that indicates that the game is in one of three states:
/// [`PlacingTile`], [`ResolvingMerge`], or [`BuyingStock`].
#[derive(Debug)]
pub struct Ambiguous {
    /// Which of the three states the game is in.
    pub state: AmbiguousState,
}

impl State for Ambiguous {

}

/// The run-time tag of an [`Ambiguous`] game.
#[derive(Debug)]
pub enum AmbiguousState {
    /// The game awaits a tile placement.
    PlacingTile(PlacingTile),
    /// The game awaits a merge-resolution step.
    ResolvingMerge(ResolvingMerge),
    /// The game awaits a stock purchase.
    BuyingStock(BuyingStock),
}

/// The three phases a [`Game<Ambiguous>`] can turn out to be in.
pub enum GameDisambiguation {
    /// The game awaits a tile placement.
    PlacingTile(Game<PlacingTile>),
    /// The game awaits a merge-resolution step.
    ResolvingMerge(Game<ResolvingMerge>),
    /// The game awaits a stock purchase.
    BuyingStock(Game<BuyingStock>),
}

} // verus!

verus! {

use crate::messages::{ActionRequest, GameOver, InvalidMessageReason, TaggedPlayerAction};
use super::resolve_merge::MaybeResolvingMerge;

/// Result of a successful game update that captures both the new game
/// instance and the possibility of the game ending.
pub type GameUpdateResult<S> = Result<Game<S>, Game<GameOver>>;

/// Result of a tried game update, with the [`Err`] capturing the reason the
/// update was not possible together with the unchanged game.
pub type TryGameUpdateResult<SNew, SOld> = Result<
    GameUpdateResult<SNew>,
    (Game<SOld>, InvalidMessageReason),
>;

impl Game<Ambiguous> {
    /// Well-formedness of an ambiguous game: the shared data is coherent
    /// and, while a merge is being resolved, so is the resolution state,
    /// with the merger tile still marked on the board.
    pub open spec fn ambiguous_wf(self) -> bool {
        &&& self.wf()
        &&& match self.state.state {
            AmbiguousState::ResolvingMerge(st) => {
                &&& (Game { data: self.data, state: st }).resolving_wf()
                &&& self.data.kernel.board.merger_tile is Some
            },
            _ => true,
        }
    }

    /// Gets the action required of the active player in order to advance
    /// the game.
    pub fn needed_action(&self) -> (r: ActionRequest)
        ensures
            r == (match self.state.state {
                AmbiguousState::PlacingTile(_) => ActionRequest::PlayTile,
                AmbiguousState::ResolvingMerge(st) => (ActionRequest::ResolveMergeStock {
                    defunct: st.current_defunct,
                    into: st.merge.into,
                }),
                AmbiguousState::BuyingStock(_) => ActionRequest::BuyStock,
            }),
    {
        match &self.state.state {
            AmbiguousState::PlacingTile(_) => ActionRequest::PlayTile,
            AmbiguousState::ResolvingMerge(state) => ActionRequest::ResolveMergeStock {
                defunct: state.current_defunct,
                into: state.merge.into,
            },
            AmbiguousState::BuyingStock(_) => ActionRequest::BuyStock,
        }
    }

    /// Determines which of the three states this game is in, and then
    /// constructs an object to represent the game in that state.
    pub fn disambiguate(self) -> (r: GameDisambiguation)
        ensures
            self.state.state matches AmbiguousState::PlacingTile(st) ==> r
                == GameDisambiguation::PlacingTile(Game { data: self.data, state: st }),
            self.state.state matches AmbiguousState::ResolvingMerge(st) ==> r
                == GameDisambiguation::ResolvingMerge(Game { data: self.data, state: st }),
            self.state.state matches AmbiguousState::BuyingStock(st) ==> r
                == GameDisambiguation::BuyingStock(Game { data: self.data, state: st }),
    {
        match self.state.state {
            AmbiguousState::PlacingTile(state) => GameDisambiguation::PlacingTile(
                Game { data: self.data, state },
            ),
            AmbiguousState::ResolvingMerge(state) => GameDisambiguation::ResolvingMerge(
                Game { data: self.data, state },
            ),
            AmbiguousState::BuyingStock(state) => GameDisambiguation::BuyingStock(
                Game { data: self.data, state },
            ),
        }
    }
}

impl Game<PlacingTile> {
    /// Forgets the compile-time phase of this game.
    pub fn into_ambiguous(self) -> (r: Game<Ambiguous>)
        requires
            self.wf(),
        ensures
            r.ambiguous_wf(),
            r.data == self.data,
            r.state.state == AmbiguousState::PlacingTile(self.state),
    {
        Game {
            data: self.data,
            state: Ambiguous { state: AmbiguousState::PlacingTile(self.state) },
        }
    }
}

impl Game<ResolvingMerge> {
    /// Forgets the compile-time phase of this game.
    pub fn into_ambiguous(self) -> (r: Game<Ambiguous>)
        requires
            self.wf(),
            self.resolving_wf(),
            self.data.kernel.board.merger_tile is Some,
        ensures
            r.ambiguous_wf(),
            r.data == self.data,
            r.state.state == AmbiguousState::ResolvingMerge(self.state),
    {
        Game {
            data: self.data,
            state: Ambiguous { state: AmbiguousState::ResolvingMerge(self.state) },
        }
    }
}

impl Game<BuyingStock> {
    /// Forgets the compile-time phase of this game.
    pub fn into_ambiguous(self) -> (r: Game<Ambiguous>)
        requires
            self.wf(),
        ensures
            r.ambiguous_wf(),
            r.data == self.data,
            r.state.state == AmbiguousState::BuyingStock(self.state),
    {
        Game {
            data: self.data,
            state: Ambiguous { state: AmbiguousState::BuyingStock(self.state) },
        }
    }
}

impl Game<MaybeResolvingMerge> {
    /// Resolves the pending merge decision and forgets the compile-time
    /// phase: a game without a merge moves on to buying stock, one with a
    /// merge commences its resolution.
    pub fn into_ambiguous(self) -> (r: Game<Ambiguous>)
        requires
            self.wf(),
            self.state.merge matches Some(m) ==> m.defunct_seq().len() > 0
                && self.data.kernel.board.merger_tile is Some,
        ensures
            r.ambiguous_wf(),
            r.data.id == self.data.id,
            r.data.player == self.data.player,
            r.data.kernel.board == self.data.kernel.board,
            self.state.merge is None ==> r.data == self.data && r.state.state
                == AmbiguousState::BuyingStock(BuyingStock),
            self.state.merge matches Some(m) ==> (r.state.state
                matches AmbiguousState::ResolvingMerge(st)
                && super::resolve_merge::spec_commence_effect(*self.data, m, *r.data, st)),
    {
        match self.decide_merge() {
            Ok(skipper) => self.skip_merge(skipper).into_ambiguous(),
            Err(starter) => self.commence_merge(starter).into_ambiguous(),
        }
    }
}

impl Game<ResolvingMerge> {
    /// Steps the merge forward, handling both the cases where the merge
    /// concludes and where it continues. The cost is that the returned
    /// game does not have its state known at compile time.
    pub fn step_merge(
        self,
        step: Result<MergeStep<ContinueMerging>, MergeStep<DoneMerging>>,
    ) -> (r: Result<Game<Ambiguous>, Game<GameOver>>)
        requires
            self.wf(),
            self.resolving_wf(),
            self.data.kernel.board.merger_tile is Some,
            step matches Ok(cs) ==> cs.resolve.game_id == self.data.id
                && self.spec_step_valid(cs.selling, cs.trading, cs.keeping) && (
            self.state.resolving_player + 1 == self.state.shareholder_results@.len()
                ==> self.state.current_merge.defunct_seq().len() > 0),
            step matches Err(ds) ==> ds.resolve.game_id == self.data.id
                && self.spec_step_valid(ds.selling, ds.trading, ds.keeping),
        ensures
            r matches Ok(g) ==> g.ambiguous_wf() && g.data.id == self.data.id,
            r matches Err(go) ==> go.wf() && go.data.id == self.data.id && go.state
                == GameOver::NoStock,
            step matches Ok(cs) ==> (r matches Ok(g) && (g.state.state
                matches AmbiguousState::ResolvingMerge(st2)
                && super::resolve_merge::spec_continue_effect(
                self,
                (Game { data: g.data, state: st2 }),
                cs.selling,
                cs.trading,
                cs.keeping,
            ))),
            step matches Err(ds) ==> (match r {
                Ok(g) => g.state.state == AmbiguousState::BuyingStock(BuyingStock)
                    && super::resolve_merge::spec_finish_effect(
                    self,
                    *g.data,
                    ds.selling,
                    ds.trading,
                    ds.keeping,
                ) && !super::kernel::spec_all_stock_depleted(
                    g.data.kernel.board,
                    g.data.kernel.stock_bank,
                ),
                Err(go) => go.state == GameOver::NoStock
                    && super::resolve_merge::spec_finish_effect(
                    self,
                    *go.data,
                    ds.selling,
                    ds.trading,
                    ds.keeping,
                ) && super::kernel::spec_all_stock_depleted(
                    go.data.kernel.board,
                    go.data.kernel.stock_bank,
                ),
            }),
    {
        match step {
            Ok(not_done) => {
                let mut game = self;
                game.continue_merge(not_done);
                let ghost stepped = game;
                let amb = game.into_ambiguous();
                proof {
                    assert(amb.state.state == AmbiguousState::ResolvingMerge(stepped.state));
                    assert((Game { data: amb.data, state: stepped.state }) == stepped);
                }
                Ok(amb)
            },
            Err(done) => {
                match self.finish_merge(done) {
                    Ok(game) => Ok(game.into_ambiguous()),
                    Err(game_over) => Err(game_over),
                }
            },
        }
    }
}

use crate::messages::TilePlacementImplication;
use super::resolve_merge::{ContinueMerging, DoneMerging, MergeStep};

/// What one dispatch step does: the action is put to the current phase's
/// pure check; failure returns the unchanged game with the check's error,
/// and success advances the game exactly as that phase's advance
/// describes — a placement lands per [`super::place_tile::spec_place_advance`]
/// and either moves on to buying stock or commences the implied merge; a
/// resolution step continues or finishes the merge; a purchase applies and
/// either ends the game or rotates the turn.
pub open spec fn spec_try_advance(
    pre: Game<Ambiguous>,
    action: TaggedPlayerAction,
    r: TryGameUpdateResult<Ambiguous, Ambiguous>,
) -> bool {
    match pre.state.state {
        AmbiguousState::PlacingTile(_) => match super::place_tile::spec_check_place_action(
            *pre.data,
            action,
        ) {
            Err(e) => r matches Err((g, e2)) && g.data == pre.data && g.state.state
                == pre.state.state && e2 == e,
            Ok(p) => match r {
                Ok(Ok(g)) => match p.implication {
                    Some(TilePlacementImplication::MergesCompanies(m)) => exists|
                        mid: super::GameImpl,
                    |
                        #[trigger] super::place_tile::spec_place_advance(*pre.data, mid, p)
                            && (g.state.state matches AmbiguousState::ResolvingMerge(st)
                            && super::resolve_merge::spec_commence_effect(
                            mid,
                            m,
                            *g.data,
                            st,
                        )),
                    _ => super::place_tile::spec_place_advance(*pre.data, *g.data, p)
                        && g.state.state == AmbiguousState::BuyingStock(BuyingStock),
                },
                _ => false,
            },
        },
        AmbiguousState::ResolvingMerge(st) => {
            let pre_res = Game { data: pre.data, state: st };
            match pre_res.spec_check_resolve_action(action) {
                Err(e) => r matches Err((g, e2)) && g.data == pre.data && g.state.state
                    == pre.state.state && e2 == e,
                Ok(step) => match step {
                    Ok(cs) => match r {
                        Ok(Ok(g)) => g.state.state matches AmbiguousState::ResolvingMerge(
                            st2,
                        ) && super::resolve_merge::spec_continue_effect(
                            pre_res,
                            (Game { data: g.data, state: st2 }),
                            cs.selling,
                            cs.trading,
                            cs.keeping,
                        ),
                        _ => false,
                    },
                    Err(ds) => match r {
                        Ok(Ok(g)) => g.state.state == AmbiguousState::BuyingStock(BuyingStock)
                            && super::resolve_merge::spec_finish_effect(
                            pre_res,
                            *g.data,
                            ds.selling,
                            ds.trading,
                            ds.keeping,
                        ) && !super::kernel::spec_all_stock_depleted(
                            g.data.kernel.board,
                            g.data.kernel.stock_bank,
                        ),
                        Ok(Err(go)) => go.state == GameOver::NoStock
                            && super::resolve_merge::spec_finish_effect(
                            pre_res,
                            *go.data,
                            ds.selling,
                            ds.trading,
                            ds.keeping,
                        ) && super::kernel::spec_all_stock_depleted(
                            go.data.kernel.board,
                            go.data.kernel.stock_bank,
                        ),
                        _ => false,
                    },
                },
            }
        },
        AmbiguousState::BuyingStock(_) => match super::buy_stock::spec_check_buy_action(
            *pre.data,
            action,
        ) {
            Err(e) => r matches Err((g, e2)) && g.data == pre.data && g.state.state
                == pre.state.state && e2 == e,
            Ok((stock, total)) => match r {
                Ok(Ok(g)) => g.state.state == AmbiguousState::PlacingTile(
                    super::place_tile::PlacingTile,
                ) && super::buy_stock::spec_buy_effect(*pre.data, *g.data, stock@, total)
                    && super::buy_stock::spec_dominator(pre.data.kernel.board) is None
                    && !super::kernel::spec_all_stock_depleted(
                    g.data.kernel.board,
                    g.data.kernel.stock_bank,
                ) && g.data.player as int == (pre.data.player + 1) % (
                pre.data.kernel.players@.len() as int),
                Ok(Err(go)) => super::buy_stock::spec_buy_effect(
                    *pre.data,
                    *go.data,
                    stock@,
                    total,
                ) && go.data.player == pre.data.player && go.state == (
                match super::buy_stock::spec_dominator(pre.data.kernel.board) {
                    Some(c) => GameOver::DominatingCompany { company: c },
                    None => GameOver::NoStock,
                }) && (super::buy_stock::spec_dominator(pre.data.kernel.board) is None
                    ==> super::kernel::spec_all_stock_depleted(
                    go.data.kernel.board,
                    go.data.kernel.stock_bank,
                )),
                _ => false,
            },
        },
    }
}

impl Game<Ambiguous> {
    /// Takes a player action and attempts to advance the game: the current
    /// phase's pure check either rejects the action — returning the
    /// unchanged game with the reason — or yields the advance that is then
    /// applied, any game over surfacing as the inner [`Err`].
    pub fn try_advance_game(self, action: &TaggedPlayerAction) -> (r: TryGameUpdateResult<
        Ambiguous,
        Ambiguous,
    >)
        requires
            self.ambiguous_wf(),
        ensures
            spec_try_advance(self, *action, r),
            r matches Err((g, e)) ==> g.data == self.data && g.state.state == self.state.state
                && g.ambiguous_wf(),
            r matches Ok(Ok(g)) ==> g.ambiguous_wf() && g.data.id == self.data.id,
            r matches Ok(Err(go)) ==> go.wf() && go.data.id == self.data.id && (go.state
                matches GameOver::DominatingCompany { .. } || go.state == GameOver::NoStock),
    {
        match self.disambiguate() {
            GameDisambiguation::PlacingTile(game) => {
                match game.check_player_action(action) {
                    Ok(advance) => {
                        let ghost placement = advance.placement;
                        let mr = game.advance_game(advance);
                        let ghost mid = *mr.data;
                        let ghost merge_opt = mr.state.merge;
                        let amb = mr.into_ambiguous();
                        proof {
                            if let Some(TilePlacementImplication::MergesCompanies(m)) =
                                placement.implication {
                                assert(merge_opt == Some(m));
                                assert(super::place_tile::spec_place_advance(
                                    *self.data,
                                    mid,
                                    placement,
                                ));
                            }
                        }
                        Ok(Ok(amb))
                    },
                    Err(invalid) => Err((game.into_ambiguous(), invalid)),
                }
            },
            GameDisambiguation::ResolvingMerge(game) => {
                match game.check_player_action(action) {
                    Ok(advance) => Ok(game.step_merge(advance)),
                    Err(invalid) => Err((game.into_ambiguous(), invalid)),
                }
            },
            GameDisambiguation::BuyingStock(game) => {
                match game.check_player_action(action) {
                    Ok(advance) => {
                        match game.advance_game(advance) {
                            Ok(g) => Ok(Ok(g.into_ambiguous())),
                            Err(go) => Ok(Err(go)),
                        }
                    },
                    Err(invalid) => Err((game.into_ambiguous(), invalid)),
                }
            },
        }
    }

    /// Feeds a whole list of actions to the game in order, stopping at the
    /// first invalid action or at the end of the game: the result is the
    /// in-order fold of [`Game::try_advance_game`] over the moves.
    pub fn speed_play(self, moves: &Vec<TaggedPlayerAction>) -> (r: TryGameUpdateResult<
        Ambiguous,
        Ambiguous,
    >)
        requires
            self.ambiguous_wf(),
        ensures
            spec_speed_played(self, moves@, r),
            r matches Err((g, e)) ==> g.ambiguous_wf(),
            r matches Ok(Ok(g)) ==> g.ambiguous_wf() && g.data.id == self.data.id,
            r matches Ok(Err(go)) ==> go.wf(),
    {
        let ghost orig = self;
        let mut game = self;
        let mut i: usize = 0;
        let n = moves.len();
        proof {
            assert(moves@.skip(0) =~= moves@);
        }
        while i < n
            invariant
                orig == self,
                game.ambiguous_wf(),
                game.data.id == orig.data.id,
                i <= n,
                n == moves@.len(),
                forall|o: TryGameUpdateResult<Ambiguous, Ambiguous>|
                    #[trigger] spec_speed_played(game, moves@.skip(i as int), o)
                        ==> spec_speed_played(orig, moves@, o),
            decreases n - i,
        {
            let ghost pre_step = game;
            let outcome = game.try_advance_game(&moves[i]);
            let ghost oc = outcome;
            proof {
                assert(moves@.skip(i as int)[0] == moves@[i as int]);
                assert(moves@.skip(i as int).drop_first() =~= moves@.skip(i as int + 1));
                assert(spec_try_advance(pre_step, moves@.skip(i as int)[0], oc));
            }
            match outcome {
                Ok(Ok(g)) => {
                    proof {
                        assert forall|o: TryGameUpdateResult<Ambiguous, Ambiguous>|
                            #[trigger] spec_speed_played(g, moves@.skip(i as int + 1), o)
                                implies spec_speed_played(orig, moves@, o) by {
                            assert(spec_speed_played(pre_step, moves@.skip(i as int), o));
                        }
                    }
                    game = g;
                },
                Ok(Err(game_over)) => {
                    proof {
                        let o: TryGameUpdateResult<Ambiguous, Ambiguous> = Ok(
                            Err(game_over),
                        );
                        assert(spec_speed_played(pre_step, moves@.skip(i as int), o));
                    }
                    return Ok(Err(game_over));
                },
                Err(pair) => {
                    proof {
                        let o: TryGameUpdateResult<Ambiguous, Ambiguous> = Err(pair);
                        assert(spec_speed_played(pre_step, moves@.skip(i as int), o));
                    }
                    return Err(pair);
                },
            };
            i += 1;
        }
        proof {
            assert(moves@.skip(n as int) =~= Seq::<TaggedPlayerAction>::empty());
            assert(spec_speed_played(
                game,
                moves@.skip(n as int),
                Ok::<GameUpdateResult<Ambiguous>, (Game<Ambiguous>, InvalidMessageReason)>(
                    Ok(game),
                ),
            ));
        }
        Ok(Ok(game))
    }
}

/// The result of feeding the moves to the game in order: with no moves the
/// unchanged game comes back; otherwise one dispatch step is taken on the
/// first move, an invalid move or a game over ends the walk at once, and a
/// plain advance folds on over the remaining moves.
pub open spec fn spec_speed_played(
    pre: Game<Ambiguous>,
    moves: Seq<TaggedPlayerAction>,
    r: TryGameUpdateResult<Ambiguous, Ambiguous>,
) -> bool
    decreases moves.len(),
{
    if moves.len() == 0 {
        r == Ok::<GameUpdateResult<Ambiguous>, (Game<Ambiguous>, InvalidMessageReason)>(
            Ok(pre),
        )
    } else {
        exists|step: TryGameUpdateResult<Ambiguous, Ambiguous>|
            #[trigger] spec_try_advance(pre, moves[0], step) && match step {
                Ok(Ok(g)) => spec_speed_played(g, moves.drop_first(), r),
                Ok(Err(go)) => r == Ok::<
                    GameUpdateResult<Ambiguous>,
                    (Game<Ambiguous>, InvalidMessageReason),
                >(Err(go)),
                Err(pair) => r == Err::<
                    GameUpdateResult<Ambiguous>,
                    (Game<Ambiguous>, InvalidMessageReason),
                >(pair),
            }
    }
}

} // verus!
