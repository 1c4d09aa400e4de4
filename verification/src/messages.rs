//! Player actions, action requests, results and the error taxonomy of the
//! rules engine, together with the merge descriptor attached to a placement.

use vstd::prelude::*;

use crate::company::Company;
use crate::tile::Tile;

verus! {

/// A placement of a tile.
#[derive(Debug, Clone, Copy, PartialEq, Eq, Structural)]
pub struct TilePlacement {
    /// The tile placed.
    pub tile: Tile,
    /// Does the placement of this tile do anything special?
    pub implication: Option<TilePlacementImplication>,
}

/// Indicates anything important that happens during a tile placement.
#[derive(Debug, Clone, Copy, PartialEq, Eq, Structural)]
pub enum TilePlacementImplication {
    /// The tile placement founds a new company.
    FoundsCompany(Company),
    /// The tile placement merges two or more companies.
    MergesCompanies(Merge),
}

/// Indicates a merger in progress: up to three defunct companies, resolved in
/// last-added-first order, merging into one surviving company.
#[derive(Debug, Clone, Copy, PartialEq, Eq, Structural)]
pub struct Merge {
    /// The defunct companies being removed from the board, in the order they
    /// were listed.
    pub defunct_first: Option<Company>,
    /// The second defunct company, if any.
    pub defunct_second: Option<Company>,
    /// The third defunct company, if any.
    pub defunct_third: Option<Company>,
    /// The company into which the defunct companies are merging.
    pub into: Company,
}

impl Merge {
    /// The defunct companies still listed, in listing order.
    pub open spec fn defunct_seq(self) -> Seq<Company> {
        opt_seq(self.defunct_first) + opt_seq(self.defunct_second) + opt_seq(
            self.defunct_third,
        )
    }

    /// Whether `c` is still listed as defunct.
    pub open spec fn lists_defunct(self, c: Company) -> bool {
        ||| self.defunct_first == Some(c)
        ||| self.defunct_second == Some(c)
        ||| self.defunct_third == Some(c)
    }

    /// Creates a merge descriptor from a non-empty list of at most three
    /// defunct companies and the surviving company.
    pub fn new(defunct: &Vec<Company>, into: Company) -> (r: Merge)
        requires
            1 <= defunct@.len() <= 3,
        ensures
            r.into == into,
            r.defunct_first == Some(defunct@[0]),
            r.defunct_second == (if defunct@.len() >= 2 {
                Some(defunct@[1])
            } else {
                None::<Company>
            }),
            r.defunct_third == (if defunct@.len() >= 3 {
                Some(defunct@[2])
            } else {
                None::<Company>
            }),
    {
        Merge {
            defunct_first: Some(defunct[0]),
            defunct_second: if defunct.len() >= 2 {
                Some(defunct[1])
            } else {
                None
            },
            defunct_third: if defunct.len() >= 3 {
                Some(defunct[2])
            } else {
                None
            },
            into,
        }
    }

    /// Takes the last listed defunct company out of the descriptor and
    /// returns it, or returns [`None`] if none is listed.
    pub fn pop_defunct(&mut self) -> (r: Option<Company>)
        ensures
            final(self).into == old(self).into,
            old(self).defunct_third is Some ==> r == old(self).defunct_third
                && final(self).defunct_third is None
                && final(self).defunct_second == old(self).defunct_second
                && final(self).defunct_first == old(self).defunct_first,
            old(self).defunct_third is None && old(self).defunct_second is Some ==> r == old(
                self,
            ).defunct_second && final(self).defunct_third is None
                && final(self).defunct_second is None
                && final(self).defunct_first == old(self).defunct_first,
            old(self).defunct_third is None && old(self).defunct_second is None && old(
                self,
            ).defunct_first is Some ==> r == old(self).defunct_first
                && final(self).defunct_third is None
                && final(self).defunct_second is None
                && final(self).defunct_first is None,
            old(self).defunct_seq().len() == 0 ==> r is None && *final(self) == *old(self),
            r is Some <==> old(self).defunct_seq().len() > 0,
    {
        if self.defunct_third.is_some() {
            let r = self.defunct_third;
            self.defunct_third = None;
            r
        } else if self.defunct_second.is_some() {
            let r = self.defunct_second;
            self.defunct_second = None;
            r
        } else if self.defunct_first.is_some() {
            let r = self.defunct_first;
            self.defunct_first = None;
            r
        } else {
            None
        }
    }

    /// Whether no defunct company is listed any more.
    pub fn defunct_is_empty(&self) -> (r: bool)
        ensures
            r == (self.defunct_seq().len() == 0),
    {
        self.defunct_first.is_none() && self.defunct_second.is_none()
            && self.defunct_third.is_none()
    }

    /// The defunct companies still listed, in listing order.
    pub fn defunct(&self) -> (r: Vec<Company>)
        ensures
            r@ == self.defunct_seq(),
    {
        let mut v: Vec<Company> = Vec::new();
        if let Some(c) = self.defunct_first {
            v.push(c);
        }
        if let Some(c) = self.defunct_second {
            v.push(c);
        }
        if let Some(c) = self.defunct_third {
            v.push(c);
        }
        proof {
            assert(v@ =~= self.defunct_seq());
        }
        v
    }
}

/// A sequence holding an option's value, empty for [`None`].
pub open spec fn opt_seq(c: Option<Company>) -> Seq<Company> {
    match c {
        Some(x) => seq![x],
        None => Seq::empty(),
    }
}

/// Administrative commands that have restricted use.
#[derive(Debug, Clone, PartialEq, Eq)]
pub enum AdminCommand {
    /// Shut the server down.
    Shutdown,
    /// Begin the game.
    StartGame,
    /// End the game early.
    EndGame,
    /// Remove a player.
    Kick { player_name: String },
    /// Stop relaying chat.
    SilenceChat,
}

/// An action requested from a player by the engine.
#[derive(Debug, Clone, Copy, PartialEq, Eq, Structural)]
pub enum ActionRequest {
    /// Expected response is [`PlayerAction::PlayTile`].
    PlayTile,
    /// Expected response is [`PlayerAction::BuyStock`].
    BuyStock,
    /// Expected response is [`PlayerAction::ResolveMergeStock`].
    ResolveMergeStock { defunct: Company, into: Company },
}

/// An action performed by a player that changes the state of the game.
#[derive(Debug, Clone, Copy, PartialEq, Eq, Structural)]
pub enum PlayerAction {
    /// A player placed a tile, in response to [`ActionRequest::PlayTile`].
    PlayTile { placement: TilePlacement },
    /// A player bought stock, in response to [`ActionRequest::BuyStock`].
    BuyStock { first: Option<Company>, second: Option<Company>, third: Option<Company> },
    /// A player resolved their stock in a defunct company, in response to
    /// [`ActionRequest::ResolveMergeStock`].
    ResolveMergeStock { selling: u8, trading: u8, keeping: u8 },
}

/// A player action together with the name of the player who sent it.
#[derive(Debug, Clone, PartialEq, Eq)]
pub struct TaggedPlayerAction {
    pub player_name: String,
    pub action: PlayerAction,
}

/// Reason why the game ended.
#[derive(Debug, Clone, Copy, PartialEq, Eq, Structural)]
pub enum GameOver {
    /// All the stock in the existing companies has been bought out.
    NoStock,
    /// No legal tile placements can be made.
    NoTiles,
    /// One company has reached 41 or more tiles in size.
    DominatingCompany { company: Company },
    /// The game was manually ended early.
    EndedEarly,
}

/// An illegal tile placement move.
#[derive(Debug, Clone, Copy, PartialEq, Eq, Structural)]
pub enum IncorrectImplication {
    /// The placement implies nothing, but an implication was supplied.
    ShouldBeNone,
    /// The placement founds a company, but none was named.
    ShouldFoundCompany,
    /// The company being founded already exists.
    CompanyTaken,
    /// The placement merges companies, but no merge was supplied.
    ShouldMerge,
    /// The named company does not border the merger tile, was named twice, or
    /// is the survivor itself.
    IncorrectDefunct(Company),
    /// The named company borders the merger tile but was not listed.
    MissedDefunct(Company),
    /// The merge would eliminate a safe company, so the tile cannot be played.
    DeadTile,
    /// The merge would eliminate a company larger than the survivor.
    LargeIntoSmall,
}

/// An illegal stock purchase.
#[derive(Debug, Clone, Copy, PartialEq, Eq, Structural)]
pub enum BuyStockError {
    /// The named company is not on the board.
    NonexistentCompany { company: Company },
    /// No shares of the named company remain in the bank.
    OutOfStock,
    /// The player lacks `deficit` in cash to cover the purchase.
    InsufficientFunds { deficit: u32 },
}

/// An illegal merge-resolution step.
#[derive(Debug, Clone, Copy, PartialEq, Eq, Structural)]
pub enum MergeResolveError {
    /// The split does not match the stock the player actually holds.
    ResolvesNonexistentStock,
    /// Defunct shares trade two-for-one; an odd count cannot be traded.
    TradesInOddStock,
    /// The surviving company's bank cannot cover the traded-for shares.
    OutOfStock,
}

/// A message rejected by the engine, with the reason.
#[derive(Debug, Clone, PartialEq, Eq)]
pub enum InvalidMessageReason {
    /// A command to start a game arrived while one is already underway.
    GameAlreadyStarted,
    /// A command pertaining to a game arrived while none is in progress.
    NoGameStarted,
    /// The message was valid, but sent out of turn.
    OutOfTurn,
    /// An error occurred when buying stock.
    BuyStockError(BuyStockError),
    /// An error occurred when resolving a merge.
    MergeResolveError(MergeResolveError),
    /// A player tried to play or exchange a tile they don't have.
    TileNotFound,
    /// Replacement was requested for a tile that is not dead.
    NotDeadTile,
    /// The tile implication is incorrect.
    IncorrectTileImplication(IncorrectImplication),
    /// The sender lacks the permission needed for an admin command.
    PermissionDenied,
    /// A message could not be decoded from its wire form.
    JsonParseErr(String),
}

/// A player's standing at the end of the game.
#[derive(Debug, Clone, PartialEq, Eq)]
pub struct FinalResult {
    pub place: u8,
    pub player_name: String,
    pub final_money: u32,
}

/// How a player's holding in a defunct company compared to the other
/// players' when the company went under, and the bonus it earned.
#[derive(Debug, Clone, PartialEq, Eq)]
pub struct PrincipleShareholderResult {
    pub player: String,
    /// Number of shares the player has.
    pub shares: u8,
    /// Position in shareholding, with 1 the principal shareholder.
    pub position: u8,
    /// Prize earned as a principal shareholding bonus, if any.
    pub prize: u32,
}

/// Information about the start of a game.
#[derive(Debug, Clone, PartialEq, Eq)]
pub struct GameStart {
    pub starting_cash: u32,
    pub tiles_placed: Vec<Tile>,
    pub play_order: Vec<String>,
}

} // verus!
