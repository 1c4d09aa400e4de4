//! The game board: a 12 by 9 grid of cells, each empty, occupied without an
//! affiliation, or occupied by a company; per-company tile counts; the
//! pending-merge marker; and per-company headquarters locations.

use vstd::prelude::*;

use crate::company::{Company, CompanyMap};
use crate::messages::{IncorrectImplication, Merge, TilePlacement, TilePlacementImplication};
use crate::tile::{Tile, NUM_CELLS, NUM_COLS, FIRST_COL_BYTE};

verus! {

/// A cell's state: [`None`] is empty, [`Some(None)`] is occupied without a
/// company, [`Some(Some(c))`] belongs to company `c`.
pub type CellState = Option<Option<Company>>;

/// A class of cell states, used to count cells of the board.
pub enum CellClass {
    /// Cells owned by one given company.
    OwnedBy(Company),
    /// All occupied cells, affiliated or not.
    Occupied,
    /// Occupied cells that belong to no company.
    Unaffiliated,
}

/// Whether a cell state falls in a cell class.
pub open spec fn cell_matches(cell: CellState, class: CellClass) -> bool {
    match class {
        CellClass::OwnedBy(c) => cell == Some(Some(c)),
        CellClass::Occupied => cell is Some,
        CellClass::Unaffiliated => cell == Some(None::<Company>),
    }
}

/// The number of cells of `s` that fall in the class.
pub open spec fn count_cells(s: Seq<CellState>, class: CellClass) -> int
    decreases s.len(),
{
    if s.len() == 0 {
        0
    } else {
        count_cells(s.drop_last(), class) + if cell_matches(s.last(), class) {
            1int
        } else {
            0int
        }
    }
}

/// Cell counts lie between 0 and the length of the board.
pub proof fn lemma_count_bounds(s: Seq<CellState>, class: CellClass)
    ensures
        0 <= count_cells(s, class) <= s.len(),
    decreases s.len(),
{
    if s.len() > 0 {
        lemma_count_bounds(s.drop_last(), class);
    }
}

/// How writing one cell changes a count.
pub proof fn lemma_count_update(s: Seq<CellState>, class: CellClass, i: int, v: CellState)
    requires
        0 <= i < s.len(),
    ensures
        count_cells(s.update(i, v), class) == count_cells(s, class) - (if cell_matches(
            s[i],
            class,
        ) {
            1int
        } else {
            0int
        }) + (if cell_matches(v, class) {
            1int
        } else {
            0int
        }),
    decreases s.len(),
{
    let t = s.update(i, v);
    if i == s.len() - 1 {
        assert(t.drop_last() =~= s.drop_last());
    } else {
        assert(t.drop_last() =~= s.drop_last().update(i, v));
        assert(t.last() == s.last());
        lemma_count_update(s.drop_last(), class, i, v);
    }
}

/// A cell that falls in a class makes its count positive.
pub proof fn lemma_count_index(s: Seq<CellState>, class: CellClass, i: int)
    requires
        0 <= i < s.len(),
        cell_matches(s[i], class),
    ensures
        count_cells(s, class) >= 1,
    decreases s.len(),
{
    lemma_count_bounds(s.drop_last(), class);
    if i < s.len() - 1 {
        lemma_count_index(s.drop_last(), class, i);
    }
}

/// A board none of whose cells fall in a class counts zero for it.
pub proof fn lemma_count_zero(s: Seq<CellState>, class: CellClass)
    requires
        forall|i: int| 0 <= i < s.len() ==> !cell_matches(#[trigger] s[i], class),
    ensures
        count_cells(s, class) == 0,
    decreases s.len(),
{
    if s.len() > 0 {
        lemma_count_zero(s.drop_last(), class);
    }
}

/// The sum of all seven companies' cell counts.
pub open spec fn owned_total(s: Seq<CellState>) -> int {
    count_cells(s, CellClass::OwnedBy(Company::Continental)) + count_cells(
        s,
        CellClass::OwnedBy(Company::Imperial),
    ) + count_cells(s, CellClass::OwnedBy(Company::American)) + count_cells(
        s,
        CellClass::OwnedBy(Company::Festival),
    ) + count_cells(s, CellClass::OwnedBy(Company::Worldwide)) + count_cells(
        s,
        CellClass::OwnedBy(Company::Luxor),
    ) + count_cells(s, CellClass::OwnedBy(Company::Tower))
}

/// Every occupied cell belongs to exactly one company or to none: the
/// companies' cell counts plus the unaffiliated count partition the occupied
/// count.
pub proof fn lemma_cell_partition(s: Seq<CellState>)
    ensures
        count_cells(s, CellClass::Occupied) == owned_total(s) + count_cells(
            s,
            CellClass::Unaffiliated,
        ),
    decreases s.len(),
{
    if s.len() > 0 {
        lemma_cell_partition(s.drop_last());
        let t = s.drop_last();
        assert(count_cells(s, CellClass::Occupied) == count_cells(t, CellClass::Occupied)
            + if cell_matches(s.last(), CellClass::Occupied) {
            1int
        } else {
            0int
        });
        assert(count_cells(s, CellClass::Unaffiliated) == count_cells(
            t,
            CellClass::Unaffiliated,
        ) + if cell_matches(s.last(), CellClass::Unaffiliated) {
            1int
        } else {
            0int
        });
        match s.last() {
            Some(Some(c)) => {
                assert forall|d: Company|
                    count_cells(s, CellClass::OwnedBy(d)) == count_cells(
                        t,
                        CellClass::OwnedBy(d),
                    ) + if d == c {
                        1int
                    } else {
                        0int
                    } by {}
            },
            _ => {
                assert forall|d: Company|
                    count_cells(s, CellClass::OwnedBy(d)) == count_cells(
                        t,
                        CellClass::OwnedBy(d),
                    ) by {}
            },
        }
    }
}

/// Contains all the common knowledge pertaining to the game board.
#[derive(Debug, Clone)]
pub struct Board {
    /// Cell states in row-major order: row 1 columns a..i first.
    pub tiles: Vec<CellState>,
    /// The sizes of each company on the board.
    pub company_sizes: CompanyMap<u8>,
    /// The location of a merger happening on the board, if there is one.
    pub merger_tile: Option<Tile>,
    /// Locations of headquarters on the board.
    pub headquarters: CompanyMap<Option<Tile>>,
}

impl Board {
    /// The state of the cell at tile `t`.
    pub open spec fn cell(self, t: Tile) -> CellState {
        self.tiles@[t.index()]
    }

    /// Well-formedness: the grid has one cell per tile, the per-company size
    /// table agrees with the cells, and the merge marker names a real tile.
    pub open spec fn wf(self) -> bool {
        &&& self.tiles@.len() == NUM_CELLS
        &&& forall|c: Company|
            #[trigger] self.company_sizes.spec_get(c) == count_cells(
                self.tiles@,
                CellClass::OwnedBy(c),
            )
        &&& match self.merger_tile {
            Some(t) => t.wf(),
            None => true,
        }
    }

    /// Creates a new empty board.
    pub fn new() -> (r: Board)
        ensures
            r.wf(),
            forall|i: int| 0 <= i < NUM_CELLS ==> r.tiles@[i] is None,
            forall|c: Company| #[trigger] r.company_sizes.spec_get(c) == 0,
            r.merger_tile is None,
            forall|c: Company| #[trigger] r.headquarters.spec_get(c) is None,
    {
        let mut tiles: Vec<CellState> = Vec::new();
        for k in 0..NUM_CELLS
            invariant
                tiles@.len() == k,
                forall|i: int| 0 <= i < k ==> tiles@[i] is None,
        {
            tiles.push(None);
        }
        let board = Board {
            tiles,
            company_sizes: CompanyMap::new(&0u8),
            merger_tile: None,
            headquarters: CompanyMap::new(&None),
        };
        proof {
            assert forall|c: Company|
                #[trigger] board.company_sizes.spec_get(c) == count_cells(
                    board.tiles@,
                    CellClass::OwnedBy(c),
                ) by {
                lemma_count_zero(board.tiles@, CellClass::OwnedBy(c));
            }
        }
        board
    }

    /// Reads the state of the cell at tile `t`.
    pub fn get(&self, t: Tile) -> (r: CellState)
        requires
            self.wf(),
            t.wf(),
        ensures
            r == self.cell(t),
    {
        proof {
            crate::tile::lemma_tile_index_bounds(t);
        }
        let idx: usize = ((t.row - 1) as usize) * (NUM_COLS as usize) + ((t.col
            - FIRST_COL_BYTE) as usize);
        self.tiles[idx]
    }

    /// Places a tile onto the board, or overwrites an existing cell, keeping
    /// the company size table in step. This function does not check whether
    /// the move is legal.
    fn set_tile(&mut self, t: Tile, affiliation: Option<Company>)
        requires
            old(self).wf(),
            t.wf(),
        ensures
            final(self).wf(),
            final(self).tiles@ == old(self).tiles@.update(t.index(), Some(affiliation)),
            final(self).merger_tile == old(self).merger_tile,
            final(self).headquarters == old(self).headquarters,
    {
        proof {
            crate::tile::lemma_tile_index_bounds(t);
        }
        let idx: usize = ((t.row - 1) as usize) * (NUM_COLS as usize) + ((t.col
            - FIRST_COL_BYTE) as usize);
        self.set_index(idx, affiliation);
    }

    /// Writes the cell at array index `idx`, keeping the size table in step.
    fn set_index(&mut self, idx: usize, affiliation: Option<Company>)
        requires
            old(self).wf(),
            idx < old(self).tiles@.len(),
        ensures
            final(self).wf(),
            final(self).tiles@ == old(self).tiles@.update(idx as int, Some(affiliation)),
            final(self).merger_tile == old(self).merger_tile,
            final(self).headquarters == old(self).headquarters,
    {
        let replaced: CellState = self.tiles[idx];
        self.tiles[idx] = Some(affiliation);

        if let Some(Some(replaced_company)) = replaced {
            proof {
                lemma_count_index(
                    old(self).tiles@,
                    CellClass::OwnedBy(replaced_company),
                    idx as int,
                );
            }
            let cur: u8 = *self.company_sizes.get(replaced_company);
            self.company_sizes.set(replaced_company, cur - 1);
        }
        if let Some(added_company) = affiliation {
            proof {
                lemma_count_bounds(old(self).tiles@, CellClass::OwnedBy(added_company));
            }
            let cur: u8 = *self.company_sizes.get(added_company);
            self.company_sizes.set(added_company, cur + 1);
        }
        proof {
            assert forall|c: Company|
                #[trigger] self.company_sizes.spec_get(c) == count_cells(
                    self.tiles@,
                    CellClass::OwnedBy(c),
                ) by {
                lemma_count_update(
                    old(self).tiles@,
                    CellClass::OwnedBy(c),
                    idx as int,
                    Some(affiliation),
                );
            }
        }
    }

    /// A company exists once its chain has at least two tiles.
    pub open spec fn spec_company_exists(self, c: Company) -> bool {
        self.company_sizes.spec_get(c) >= 2
    }

    /// A company is safe once its chain has more than ten tiles.
    pub open spec fn spec_company_is_safe(self, c: Company) -> bool {
        self.company_sizes.spec_get(c) > 10
    }

    /// Determines if a company exists.
    pub fn company_exists(&self, company: Company) -> (r: bool)
        ensures
            r == self.spec_company_exists(company),
            r == (self.company_sizes.spec_get(company) >= 2),
    {
        *self.company_sizes.get(company) >= 2
    }

    /// Determines if a company is safe, meaning that the company cannot go
    /// defunct for the remainder of the game.
    pub fn company_is_safe(&self, company: Company) -> (r: bool)
        ensures
            r == self.spec_company_is_safe(company),
            r == (self.company_sizes.spec_get(company) > 10),
    {
        *self.company_sizes.get(company) > 10
    }

    /// The share price of a company of size `size`: zero below the founding
    /// size, then a base price from a size-tier table plus a fixed
    /// per-company premium.
    pub open spec fn spec_stock_price(c: Company, size: u8) -> u32 {
        let base: u32 = if size < 2 {
            0
        } else if size == 2 {
            200
        } else if size == 3 {
            300
        } else if size == 4 {
            400
        } else if size == 5 {
            500
        } else if size <= 10 {
            600
        } else if size <= 20 {
            700
        } else if size <= 30 {
            800
        } else if size <= 40 {
            900
        } else {
            1000
        };
        if base == 0 {
            0
        } else {
            match c {
                Company::Continental | Company::Imperial => (base + 200) as u32,
                Company::American | Company::Festival | Company::Worldwide => (base
                    + 100) as u32,
                Company::Luxor | Company::Tower => base,
            }
        }
    }

    /// The current share price of a company on this board.
    pub open spec fn spec_price(self, c: Company) -> u32 {
        Board::spec_stock_price(c, self.company_sizes.spec_get(c))
    }

    /// Gets the stock price per share of a given company. If the company
    /// doesn't exist, zero will be returned.
    pub fn stock_price(&self, company: Company) -> (r: u32)
        ensures
            r == Self::spec_stock_price(company, self.company_sizes.spec_get(company)),
            r == self.spec_price(company),
            r <= 1200,
    {
        let size: u8 = *self.company_sizes.get(company);
        let base: u32 = if size < 2 {
            return 0;
        } else if size == 2 {
            200
        } else if size == 3 {
            300
        } else if size == 4 {
            400
        } else if size == 5 {
            500
        } else if size <= 10 {
            600
        } else if size <= 20 {
            700
        } else if size <= 30 {
            800
        } else if size <= 40 {
            900
        } else {
            1000
        };
        match company {
            Company::Continental | Company::Imperial => base + 200,
            Company::American | Company::Festival | Company::Worldwide => base + 100,
            Company::Luxor | Company::Tower => base,
        }
    }
}

} // verus!

verus! {

impl Board {
    /// Whether the optional tile is a cell owned by company `c`.
    pub open spec fn nb_owned(self, o: Option<Tile>, c: Company) -> bool {
        match o {
            Some(n) => self.cell(n) == Some(Some(c)),
            None => false,
        }
    }

    /// Whether the optional tile is an occupied, unaffiliated cell.
    pub open spec fn nb_unaffiliated(self, o: Option<Tile>) -> bool {
        match o {
            Some(n) => self.cell(n) == Some(None::<Company>),
            None => false,
        }
    }

    /// Whether the optional tile is an occupied cell.
    pub open spec fn nb_occupied(self, o: Option<Tile>) -> bool {
        match o {
            Some(n) => self.cell(n) is Some,
            None => false,
        }
    }

    /// Whether a neighbor of `t` belongs to company `c`.
    pub open spec fn borders_company(self, t: Tile, c: Company) -> bool {
        ||| self.nb_owned(t.spec_next_row(), c)
        ||| self.nb_owned(t.spec_prev_row(), c)
        ||| self.nb_owned(t.spec_next_col(), c)
        ||| self.nb_owned(t.spec_prev_col(), c)
    }

    /// Whether a neighbor of `t` is occupied but belongs to no company.
    pub open spec fn borders_unaffiliated(self, t: Tile) -> bool {
        ||| self.nb_unaffiliated(t.spec_next_row())
        ||| self.nb_unaffiliated(t.spec_prev_row())
        ||| self.nb_unaffiliated(t.spec_next_col())
        ||| self.nb_unaffiliated(t.spec_prev_col())
    }

    /// Whether any neighbor of `t` is occupied.
    pub open spec fn borders_occupied(self, t: Tile) -> bool {
        ||| self.nb_occupied(t.spec_next_row())
        ||| self.nb_occupied(t.spec_prev_row())
        ||| self.nb_occupied(t.spec_next_col())
        ||| self.nb_occupied(t.spec_prev_col())
    }

    /// The number of distinct companies with a cell bordering `t`.
    pub open spec fn bordering_company_count(self, t: Tile) -> int {
        bool_to_int(self.borders_company(t, Company::Continental)) + bool_to_int(
            self.borders_company(t, Company::Imperial),
        ) + bool_to_int(self.borders_company(t, Company::American)) + bool_to_int(
            self.borders_company(t, Company::Festival),
        ) + bool_to_int(self.borders_company(t, Company::Worldwide)) + bool_to_int(
            self.borders_company(t, Company::Luxor),
        ) + bool_to_int(self.borders_company(t, Company::Tower))
    }

    /// Computes, for each company, whether it borders `t`, and whether an
    /// occupied unaffiliated cell borders `t`.
    fn bordering_map(&self, t: Tile) -> (r: (CompanyMap<bool>, bool))
        requires
            self.wf(),
            t.wf(),
        ensures
            forall|c: Company| #[trigger] r.0.spec_get(c) == self.borders_company(t, c),
            r.1 == self.borders_unaffiliated(t),
    {
        let mut companies: CompanyMap<bool> = CompanyMap::new(&false);
        let mut unaffiliated: bool = false;

        if let Some(n) = t.next_row() {
            match self.get(n) {
                Some(Some(c)) => companies.set(c, true),
                Some(None) => unaffiliated = true,
                None => (),
            }
        }
        if let Some(n) = t.next_col() {
            match self.get(n) {
                Some(Some(c)) => companies.set(c, true),
                Some(None) => unaffiliated = true,
                None => (),
            }
        }
        if let Some(n) = t.prev_row() {
            match self.get(n) {
                Some(Some(c)) => companies.set(c, true),
                Some(None) => unaffiliated = true,
                None => (),
            }
        }
        if let Some(n) = t.prev_col() {
            match self.get(n) {
                Some(Some(c)) => companies.set(c, true),
                Some(None) => unaffiliated = true,
                None => (),
            }
        }
        (companies, unaffiliated)
    }

    /// Counts how many companies a bordering map marks.
    fn count_bordering(companies: &CompanyMap<bool>) -> (r: u8)
        ensures
            r == bool_to_int(companies.spec_get(Company::Continental)) + bool_to_int(
                companies.spec_get(Company::Imperial),
            ) + bool_to_int(companies.spec_get(Company::American)) + bool_to_int(
                companies.spec_get(Company::Festival),
            ) + bool_to_int(companies.spec_get(Company::Worldwide)) + bool_to_int(
                companies.spec_get(Company::Luxor),
            ) + bool_to_int(companies.spec_get(Company::Tower)),
    {
        let mut r: u8 = 0;
        if companies.continental {
            r += 1;
        }
        if companies.imperial {
            r += 1;
        }
        if companies.american {
            r += 1;
        }
        if companies.festival {
            r += 1;
        }
        if companies.worldwide {
            r += 1;
        }
        if companies.luxor {
            r += 1;
        }
        if companies.tower {
            r += 1;
        }
        r
    }

    /// Checks if a tile is "dead": whether it borders cells of two or more
    /// distinct companies. This check pays no regard to company safety; the
    /// merge legality check separately refuses merges of safe companies.
    pub fn dead_tile(&self, tile: Tile) -> (r: bool)
        requires
            self.wf(),
            tile.wf(),
        ensures
            r == (self.bordering_company_count(tile) > 1),
    {
        let (companies, _unaffiliated) = self.bordering_map(tile);
        Self::count_bordering(&companies) > 1
    }
}

/// 1 for true, 0 for false.
pub open spec fn bool_to_int(b: bool) -> int {
    if b {
        1int
    } else {
        0int
    }
}

} // verus!

verus! {

impl Board {
    /// All four cells around `t` that are occupied belong to company `c`.
    pub open spec fn chain_closed_at(self, t: Tile, c: Company) -> bool {
        &&& (self.nb_occupied(t.spec_next_row()) ==> self.nb_owned(t.spec_next_row(), c))
        &&& (self.nb_occupied(t.spec_prev_row()) ==> self.nb_owned(t.spec_prev_row(), c))
        &&& (self.nb_occupied(t.spec_next_col()) ==> self.nb_owned(t.spec_next_col(), c))
        &&& (self.nb_occupied(t.spec_prev_col()) ==> self.nb_owned(t.spec_prev_col(), c))
    }

    /// Occupied cells not owned by `c`: the work still to do when a chain is
    /// being relabeled to `c`.
    pub open spec fn foreign_count(s: Seq<CellState>, c: Company) -> int {
        count_cells(s, CellClass::Occupied) - count_cells(s, CellClass::OwnedBy(c))
    }

    proof fn lemma_foreign_count_nonneg(s: Seq<CellState>, c: Company)
        ensures
            Self::foreign_count(s, c) >= 0,
        decreases s.len(),
    {
        if s.len() > 0 {
            Self::lemma_foreign_count_nonneg(s.drop_last(), c);
        }
    }

    /// The optional neighbor cell is empty, already `c`, or still queued
    /// for the walk.
    pub open spec fn nb_guarded(self, o: Option<Tile>, c: Company, wl: Seq<Tile>) -> bool {
        match o {
            Some(n) => !(self.cell(n) is Some) || self.cell(n) == Some(Some(c))
                || wl.contains(n),
            None => true,
        }
    }

    /// All four neighbors of `x` are guarded.
    pub open spec fn guarded_at(self, x: Tile, c: Company, wl: Seq<Tile>) -> bool {
        &&& self.nb_guarded(x.spec_next_row(), c, wl)
        &&& self.nb_guarded(x.spec_prev_row(), c, wl)
        &&& self.nb_guarded(x.spec_next_col(), c, wl)
        &&& self.nb_guarded(x.spec_prev_col(), c, wl)
    }

    /// Updates this tile and every occupied cell connected to it to belong
    /// to the passed company, walking the chain with an explicit work list.
    #[verifier::rlimit(100)]
    fn update_chain(&mut self, tile: Tile, company: Company)
        requires
            old(self).wf(),
            tile.wf(),
        ensures
            final(self).wf(),
            final(self).tiles@.len() == old(self).tiles@.len(),
            final(self).cell(tile) == Some(Some(company)),
            forall|i: int|
                0 <= i < old(self).tiles@.len() && i != tile.index()
                    ==> final(self).tiles@[i] == old(self).tiles@[i]
                    || final(self).tiles@[i] == Some(Some(company)),
            forall|i: int|
                0 <= i < old(self).tiles@.len() && i != tile.index()
                    ==> (final(self).tiles@[i] is Some <==> old(self).tiles@[i] is Some),
            final(self).chain_closed_at(tile, company),
            chain_spread_exact(*old(self), *final(self), tile, company),
            final(self).merger_tile == old(self).merger_tile,
            final(self).headquarters == old(self).headquarters,
    {
        broadcast use vstd::seq_lib::lemma_seq_contains_after_push;

        self.set_tile(tile, Some(company));

        let mut worklist: Vec<Tile> = Vec::new();
        if let Some(n) = tile.next_row() {
            worklist.push(n);
        }
        if let Some(n) = tile.prev_row() {
            worklist.push(n);
        }
        if let Some(n) = tile.next_col() {
            worklist.push(n);
        }
        if let Some(n) = tile.prev_col() {
            worklist.push(n);
        }

        let ghost orig = old(self).tiles@;
        let ghost snap = self.tiles@;
        let ghost marker = self.merger_tile;
        let ghost hq = self.headquarters;

        proof {
            Self::lemma_foreign_count_nonneg(self.tiles@, company);
            crate::tile::lemma_tile_index_bounds(tile);
            assert(snap[tile.index()] == Some(Some(company)));
            assert forall|k: int|
                0 <= k < worklist@.len() implies chain_reaches(
                snap,
                company,
                tile,
                #[trigger] worklist@[k],
            ) by {
                match tile.spec_next_row() {
                    Some(n) => lemma_adjacent_path(snap, company, tile, n),
                    None => {},
                }
                match tile.spec_prev_row() {
                    Some(n) => lemma_adjacent_path(snap, company, tile, n),
                    None => {},
                }
                match tile.spec_next_col() {
                    Some(n) => lemma_adjacent_path(snap, company, tile, n),
                    None => {},
                }
                match tile.spec_prev_col() {
                    Some(n) => lemma_adjacent_path(snap, company, tile, n),
                    None => {},
                }
            }
            assert forall|x: Tile|
                x.wf() && self.cell(x) == Some(Some(company)) && (snap[#[trigger] x.index()]
                    != Some(Some(company)) || x == tile) implies self.guarded_at(
                x,
                company,
                worklist@,
            ) by {
                assert(x == tile);
            }
        }

        while worklist.len() > 0
            invariant
                self.wf(),
                tile.wf(),
                0 <= tile.index() < snap.len(),
                self.tiles@.len() == snap.len(),
                snap.len() == NUM_CELLS,
                snap == orig.update(tile.index(), Some(Some(company))),
                snap[tile.index()] == Some(Some(company)),
                forall|i: int|
                    0 <= i < snap.len() ==> self.tiles@[i] == snap[i] || self.tiles@[i]
                        == Some(Some(company)),
                forall|i: int|
                    0 <= i < snap.len() ==> (self.tiles@[i] is Some <==> snap[i] is Some),
                forall|k: int| 0 <= k < worklist@.len() ==> (#[trigger] worklist@[k]).wf(),
                forall|k: int|
                    0 <= k < worklist@.len() ==> chain_reaches(
                        snap,
                        company,
                        tile,
                        #[trigger] worklist@[k],
                    ),
                forall|u: Tile|
                    u.wf() && self.tiles@[#[trigger] u.index()] != snap[u.index()]
                        ==> chain_reaches(snap, company, tile, u),
                forall|x: Tile|
                    x.wf() && self.cell(x) == Some(Some(company)) && (snap[#[trigger] x.index()]
                        != Some(Some(company)) || x == tile) ==> self.guarded_at(
                        x,
                        company,
                        worklist@,
                    ),
                self.merger_tile == marker,
                self.headquarters == hq,
                Self::foreign_count(self.tiles@, company) >= 0,
            decreases Self::foreign_count(self.tiles@, company), worklist@.len(),
        {
            let ghost pre_self = *self;
            let ghost pre_list = worklist@;
            proof {
                assert(chain_reaches(snap, company, tile, pre_list.last()));
            }
            let ghost p_t = choose|p: Seq<Tile>|
                chain_path(snap, company, tile, pre_list.last(), p);
            let popped = worklist.pop();
            let t = popped.unwrap();
            let ghost mid_list = worklist@;

            let cellv = self.get(t);
            let needs_label = match cellv {
                None => false,
                Some(None) => true,
                Some(Some(c0)) => !(c0 == company),
            };

            if needs_label {
                let ghost pre_tiles = self.tiles@;
                self.set_tile(t, Some(company));
                proof {
                    lemma_count_update(
                        pre_tiles,
                        CellClass::Occupied,
                        t.index(),
                        Some(Some(company)),
                    );
                    lemma_count_update(
                        pre_tiles,
                        CellClass::OwnedBy(company),
                        t.index(),
                        Some(Some(company)),
                    );
                    assert(Self::foreign_count(self.tiles@, company) == Self::foreign_count(
                        pre_tiles,
                        company,
                    ) - 1);
                    crate::tile::lemma_tile_index_bounds(t);
                    // the popped tile was occupied and foreign on the
                    // reference board, so walks may pass through it
                    assert(snap[t.index()] is Some && snap[t.index()] != Some(Some(company)));
                }
                if let Some(n) = t.next_row() {
                    worklist.push(n);
                }
                if let Some(n) = t.prev_row() {
                    worklist.push(n);
                }
                if let Some(n) = t.next_col() {
                    worklist.push(n);
                }
                if let Some(n) = t.prev_col() {
                    worklist.push(n);
                }
                proof {
                    Self::lemma_foreign_count_nonneg(self.tiles@, company);
                    match t.spec_next_row() {
                        Some(n) => lemma_extend_path(snap, company, tile, t, n, p_t),
                        None => {},
                    }
                    match t.spec_prev_row() {
                        Some(n) => lemma_extend_path(snap, company, tile, t, n, p_t),
                        None => {},
                    }
                    match t.spec_next_col() {
                        Some(n) => lemma_extend_path(snap, company, tile, t, n, p_t),
                        None => {},
                    }
                    match t.spec_prev_col() {
                        Some(n) => lemma_extend_path(snap, company, tile, t, n, p_t),
                        None => {},
                    }
                }
            }
            proof {
                broadcast use vstd::seq_lib::lemma_seq_contains_after_push;

                assert forall|k: int|
                    0 <= k < worklist@.len() implies chain_reaches(
                    snap,
                    company,
                    tile,
                    #[trigger] worklist@[k],
                ) by {
                    if k < mid_list.len() {
                        assert(worklist@[k] == pre_list[k]);
                        assert(chain_reaches(snap, company, tile, pre_list[k]));
                    }
                }
                assert forall|u: Tile|
                    u.wf() && self.tiles@[#[trigger] u.index()] != snap[u.index()] implies chain_reaches(
                    snap,
                    company,
                    tile,
                    u,
                ) by {
                    if pre_self.tiles@[u.index()] != snap[u.index()] {
                        assert(chain_reaches(snap, company, tile, u));
                    } else {
                        assert(needs_label && u.index() == t.index());
                        crate::tile::lemma_tile_index_injective(u, t);
                        assert(chain_path(snap, company, tile, t, p_t));
                    }
                }
                assert forall|y: Tile|
                    mid_list.contains(y) implies #[trigger] worklist@.contains(y) by {}
                assert forall|x: Tile|
                    x.wf() && self.cell(x) == Some(Some(company)) && (snap[#[trigger] x.index()]
                        != Some(Some(company)) || x == tile) implies self.guarded_at(
                    x,
                    company,
                    worklist@,
                ) by {
                    if needs_label && x.index() == t.index() {
                        crate::tile::lemma_tile_index_injective(x, t);
                        assert(x == t);
                    } else {
                        assert(pre_self.cell(x) == Some(Some(company)));
                        assert(pre_self.guarded_at(x, company, pre_list));
                        lemma_guard_preserved(
                            pre_self,
                            *self,
                            x,
                            company,
                            pre_list,
                            worklist@,
                            t,
                            needs_label,
                        );
                    }
                }
            }
        }

        proof {
            broadcast use vstd::seq_lib::lemma_seq_contains_after_push;

            assert(self.tiles@[tile.index()] == snap[tile.index()] || self.tiles@[tile.index()]
                == Some(Some(company)));
            assert(self.cell(tile) == Some(Some(company)));
            assert forall|i: int|
                0 <= i < snap.len() && i != tile.index() implies (self.tiles@[i] == old(
                self,
            ).tiles@[i] || self.tiles@[i] == Some(Some(company))) && (self.tiles@[i] is Some
                <==> old(self).tiles@[i] is Some) by {
                assert(self.tiles@[i] == snap[i] || self.tiles@[i] == Some(Some(company)));
                assert(self.tiles@[i] is Some <==> snap[i] is Some);
                assert(snap[i] == old(self).tiles@[i]);
            }

            // the walk has drained: the seed and every relabeled cell are
            // closed
            assert(worklist@.len() == 0);
            assert forall|x: Tile|
                x.wf() && self.cell(x) == Some(Some(company)) && (snap[#[trigger] x.index()]
                    != Some(Some(company)) || x == tile) implies self.chain_closed_at(
                x,
                company,
            ) by {
                assert(self.guarded_at(x, company, worklist@));
            }
            assert(self.chain_closed_at(tile, company));

            // a changed cell was reached: transfer the walk from the board
            // after the seed write back to the original board
            assert forall|u: Tile|
                u.wf() && u.index() != tile.index() && self.tiles@[#[trigger] u.index()]
                    != orig[u.index()] implies chain_reaches(orig, company, tile, u) by {
                assert(snap[u.index()] == orig[u.index()]);
                assert(chain_reaches(snap, company, tile, u));
                let pth = choose|p: Seq<Tile>| chain_path(snap, company, tile, u, p);
                assert(chain_path(orig, company, tile, u, pth)) by {
                    assert forall|j: int|
                        1 <= j < pth.len() - 1 implies orig[(#[trigger] pth[j]).index()] is Some
                            && orig[pth[j].index()] != Some(Some(company)) by {
                        assert(snap[pth[j].index()] != Some(Some(company)));
                        assert(pth[j].index() != tile.index());
                    }
                }
            }

            // every occupied cell the chain reaches was swallowed
            assert forall|u: Tile|
                u.wf() && #[trigger] chain_reaches(orig, company, tile, u)
                    && orig[u.index()] is Some implies self.cell(u) == Some(
                Some(company),
            ) by {
                crate::tile::lemma_tile_index_bounds(u);
                let pth = choose|p: Seq<Tile>| chain_path(orig, company, tile, u, p);
                assert forall|x: Tile|
                    x.wf() && self.cell(x) == Some(Some(company)) && (orig[#[trigger] x.index()]
                        != Some(Some(company)) || x == tile) implies self.chain_closed_at(
                    x,
                    company,
                ) by {
                    if x != tile {
                        if x.index() == tile.index() {
                            crate::tile::lemma_tile_index_injective(x, tile);
                        }
                        assert(snap[x.index()] == orig[x.index()]);
                    }
                    assert(self.guarded_at(x, company, worklist@));
                }
                assert forall|i: int|
                    0 <= i < orig.len() implies self.tiles@[i] == orig[i] || self.tiles@[i]
                    == Some(Some(company)) by {
                    if i != tile.index() {
                        assert(snap[i] == orig[i]);
                    }
                }
                lemma_path_spreads(*self, orig, company, tile, pth, pth.len() - 1);
            }
        }
    }
}

} // verus!

verus! {

/// Whether the set holds any of the seven companies.
pub open spec fn set_has_company(s: Set<Company>) -> bool {
    ||| s.contains(Company::Continental)
    ||| s.contains(Company::Imperial)
    ||| s.contains(Company::American)
    ||| s.contains(Company::Festival)
    ||| s.contains(Company::Worldwide)
    ||| s.contains(Company::Luxor)
    ||| s.contains(Company::Tower)
}

/// One step of checking a merge's defunct list: a listed company must still
/// be in the remaining bordering set, and checking it removes it.
pub open spec fn defunct_step(rem: Set<Company>, o: Option<Company>) -> Result<
    Set<Company>,
    Company,
> {
    match o {
        Some(d) => if rem.contains(d) {
            Ok(rem.remove(d))
        } else {
            Err(d)
        },
        None => Ok(rem),
    }
}

/// The member of the set that comes first in company declaration order.
pub open spec fn first_company_in(s: Set<Company>) -> Company {
    if s.contains(Company::Continental) {
        Company::Continental
    } else if s.contains(Company::Imperial) {
        Company::Imperial
    } else if s.contains(Company::American) {
        Company::American
    } else if s.contains(Company::Festival) {
        Company::Festival
    } else if s.contains(Company::Worldwide) {
        Company::Worldwide
    } else if s.contains(Company::Luxor) {
        Company::Luxor
    } else {
        Company::Tower
    }
}

impl Board {
    /// Whether the optional defunct entry names a company larger than the
    /// merge survivor.
    pub open spec fn opt_defunct_too_large(self, o: Option<Company>, into: Company) -> bool {
        match o {
            Some(d) => self.company_sizes.spec_get(d) > self.company_sizes.spec_get(into),
            None => false,
        }
    }

    /// Whether the optional defunct entry names a safe company.
    pub open spec fn opt_defunct_safe(self, o: Option<Company>) -> bool {
        match o {
            Some(d) => self.spec_company_is_safe(d),
            None => false,
        }
    }

    /// The set of companies bordering `t`, without the merge survivor.
    pub open spec fn bordering_minus_survivor(self, t: Tile, into: Company) -> Set<Company> {
        Set::new(|c: Company| self.borders_company(t, c)).remove(into)
    }

    /// The verdict on a proposed merge at tile `t`: the defunct list must
    /// name, without repetition, exactly the bordering companies other than
    /// the survivor; the survivor must be at least as large as every defunct
    /// company; and no defunct company may be safe.
    pub open spec fn spec_check_merge(self, t: Tile, m: Merge) -> Result<
        (),
        IncorrectImplication,
    > {
        let rem0 = self.bordering_minus_survivor(t, m.into);
        match defunct_step(rem0, m.defunct_first) {
            Err(d) => Err(IncorrectImplication::IncorrectDefunct(d)),
            Ok(rem1) => match defunct_step(rem1, m.defunct_second) {
                Err(d) => Err(IncorrectImplication::IncorrectDefunct(d)),
                Ok(rem2) => match defunct_step(rem2, m.defunct_third) {
                    Err(d) => Err(IncorrectImplication::IncorrectDefunct(d)),
                    Ok(rem3) => if set_has_company(rem3) {
                        Err(IncorrectImplication::MissedDefunct(first_company_in(rem3)))
                    } else if self.opt_defunct_too_large(m.defunct_first, m.into)
                        || self.opt_defunct_too_large(m.defunct_second, m.into)
                        || self.opt_defunct_too_large(m.defunct_third, m.into) {
                        Err(IncorrectImplication::LargeIntoSmall)
                    } else if self.opt_defunct_safe(m.defunct_first) || self.opt_defunct_safe(
                        m.defunct_second,
                    ) || self.opt_defunct_safe(m.defunct_third) {
                        Err(IncorrectImplication::DeadTile)
                    } else {
                        Ok(())
                    },
                },
            },
        }
    }

    /// The verdict on a proposed placement, classified by the distinct
    /// companies bordering the tile: none (and nothing occupied nearby)
    /// demands no implication; only unaffiliated neighbors demand founding a
    /// company that does not yet exist; one bordering company demands no
    /// implication; two or more demand a merge.
    pub open spec fn spec_check_implication(self, p: TilePlacement) -> Result<
        (),
        IncorrectImplication,
    > {
        let k = self.bordering_company_count(p.tile);
        if k == 0 && !self.borders_unaffiliated(p.tile) {
            if p.implication is Some {
                Err(IncorrectImplication::ShouldBeNone)
            } else {
                Ok(())
            }
        } else if k == 0 {
            match p.implication {
                Some(TilePlacementImplication::FoundsCompany(c)) => if self.spec_company_exists(
                    c,
                ) {
                    Err(IncorrectImplication::CompanyTaken)
                } else {
                    Ok(())
                },
                _ => Err(IncorrectImplication::ShouldFoundCompany),
            }
        } else if k == 1 {
            if p.implication is Some {
                Err(IncorrectImplication::ShouldBeNone)
            } else {
                Ok(())
            }
        } else {
            match p.implication {
                Some(TilePlacementImplication::MergesCompanies(m)) => self.spec_check_merge(
                    p.tile,
                    m,
                ),
                _ => Err(IncorrectImplication::ShouldMerge),
            }
        }
    }

    /// Checks whether a proposed merge at `t` is legal, given the map of
    /// companies bordering `t`.
    fn check_merge_implication(
        &self,
        t: Tile,
        m: Merge,
        companies: CompanyMap<bool>,
    ) -> (r: Result<(), IncorrectImplication>)
        requires
            self.wf(),
            t.wf(),
            forall|c: Company| #[trigger] companies.spec_get(c) == self.borders_company(t, c),
        ensures
            r == self.spec_check_merge(t, m),
    {
        let ghost rem0 = self.bordering_minus_survivor(t, m.into);
        let mut remaining = companies;
        remaining.set(m.into, false);
        proof {
            assert forall|c: Company| #[trigger] remaining.spec_get(c) == rem0.contains(c) by {}
        }

        if let Some(d) = m.defunct_first {
            if !*remaining.get(d) {
                return Err(IncorrectImplication::IncorrectDefunct(d));
            }
            remaining.set(d, false);
        }
        let ghost rem1 = match m.defunct_first {
            Some(d) => rem0.remove(d),
            None => rem0,
        };
        proof {
            assert forall|c: Company| #[trigger] remaining.spec_get(c) == rem1.contains(c) by {}
        }

        if let Some(d) = m.defunct_second {
            if !*remaining.get(d) {
                return Err(IncorrectImplication::IncorrectDefunct(d));
            }
            remaining.set(d, false);
        }
        let ghost rem2 = match m.defunct_second {
            Some(d) => rem1.remove(d),
            None => rem1,
        };
        proof {
            assert forall|c: Company| #[trigger] remaining.spec_get(c) == rem2.contains(c) by {}
        }

        if let Some(d) = m.defunct_third {
            if !*remaining.get(d) {
                return Err(IncorrectImplication::IncorrectDefunct(d));
            }
            remaining.set(d, false);
        }
        let ghost rem3 = match m.defunct_third {
            Some(d) => rem2.remove(d),
            None => rem2,
        };
        proof {
            assert forall|c: Company| #[trigger] remaining.spec_get(c) == rem3.contains(c) by {}
        }

        if *remaining.get(Company::Continental) {
            return Err(IncorrectImplication::MissedDefunct(Company::Continental));
        }
        if *remaining.get(Company::Imperial) {
            return Err(IncorrectImplication::MissedDefunct(Company::Imperial));
        }
        if *remaining.get(Company::American) {
            return Err(IncorrectImplication::MissedDefunct(Company::American));
        }
        if *remaining.get(Company::Festival) {
            return Err(IncorrectImplication::MissedDefunct(Company::Festival));
        }
        if *remaining.get(Company::Worldwide) {
            return Err(IncorrectImplication::MissedDefunct(Company::Worldwide));
        }
        if *remaining.get(Company::Luxor) {
            return Err(IncorrectImplication::MissedDefunct(Company::Luxor));
        }
        if *remaining.get(Company::Tower) {
            return Err(IncorrectImplication::MissedDefunct(Company::Tower));
        }
        proof {
            assert(!set_has_company(rem3));
        }

        let into_size: u8 = *self.company_sizes.get(m.into);
        if let Some(d) = m.defunct_first {
            if *self.company_sizes.get(d) > into_size {
                return Err(IncorrectImplication::LargeIntoSmall);
            }
        }
        if let Some(d) = m.defunct_second {
            if *self.company_sizes.get(d) > into_size {
                return Err(IncorrectImplication::LargeIntoSmall);
            }
        }
        if let Some(d) = m.defunct_third {
            if *self.company_sizes.get(d) > into_size {
                return Err(IncorrectImplication::LargeIntoSmall);
            }
        }

        if let Some(d) = m.defunct_first {
            if self.company_is_safe(d) {
                return Err(IncorrectImplication::DeadTile);
            }
        }
        if let Some(d) = m.defunct_second {
            if self.company_is_safe(d) {
                return Err(IncorrectImplication::DeadTile);
            }
        }
        if let Some(d) = m.defunct_third {
            if self.company_is_safe(d) {
                return Err(IncorrectImplication::DeadTile);
            }
        }

        Ok(())
    }

    /// Checks if a tile placement, with its associated implication, is
    /// legal. Validation is pure: the board is never changed.
    pub fn check_implication(&self, placement: TilePlacement) -> (r: Result<
        (),
        IncorrectImplication,
    >)
        requires
            self.wf(),
            placement.tile.wf(),
        ensures
            r == self.spec_check_implication(placement),
    {
        let (companies, unaffiliated) = self.bordering_map(placement.tile);
        let count = Self::count_bordering(&companies);

        if count == 0 && !unaffiliated {
            if placement.implication.is_some() {
                Err(IncorrectImplication::ShouldBeNone)
            } else {
                Ok(())
            }
        } else if count == 0 {
            match placement.implication {
                Some(TilePlacementImplication::FoundsCompany(c)) => {
                    if self.company_exists(c) {
                        Err(IncorrectImplication::CompanyTaken)
                    } else {
                        Ok(())
                    }
                },
                _ => Err(IncorrectImplication::ShouldFoundCompany),
            }
        } else if count == 1 {
            if placement.implication.is_some() {
                Err(IncorrectImplication::ShouldBeNone)
            } else {
                Ok(())
            }
        } else {
            match placement.implication {
                Some(TilePlacementImplication::MergesCompanies(m)) => self
                    .check_merge_implication(placement.tile, m, companies),
                _ => Err(IncorrectImplication::ShouldMerge),
            }
        }
    }
}

} // verus!

verus! {

/// The board `post` arose from `pre` by relabeling the chain at `t` to
/// company `c`: the seed cell now belongs to `c`, cells changed only by
/// taking on `c`'s label, no cell's occupancy changed but possibly the
/// seed's, and every occupied cell around the seed belongs to `c`.
pub open spec fn relabeled_from(pre: Board, post: Board, t: Tile, c: Company) -> bool {
    &&& post.tiles@.len() == pre.tiles@.len()
    &&& post.cell(t) == Some(Some(c))
    &&& forall|i: int|
        0 <= i < pre.tiles@.len() && i != t.index() ==> post.tiles@[i] == pre.tiles@[i]
            || post.tiles@[i] == Some(Some(c))
    &&& forall|i: int|
        0 <= i < pre.tiles@.len() && i != t.index() ==> (post.tiles@[i] is Some
            <==> pre.tiles@[i] is Some)
    &&& post.chain_closed_at(t, c)
}

impl Board {
    /// The first marked company of a bordering map, in declaration order.
    fn first_marked(companies: &CompanyMap<bool>) -> (r: Option<Company>)
        ensures
            r matches Some(c) ==> companies.spec_get(c),
            r is None ==> forall|c: Company| !(#[trigger] companies.spec_get(c)),
    {
        if companies.continental {
            Some(Company::Continental)
        } else if companies.imperial {
            Some(Company::Imperial)
        } else if companies.american {
            Some(Company::American)
        } else if companies.festival {
            Some(Company::Festival)
        } else if companies.worldwide {
            Some(Company::Worldwide)
        } else if companies.luxor {
            Some(Company::Luxor)
        } else if companies.tower {
            Some(Company::Tower)
        } else {
            None
        }
    }

    /// Places a tile onto the board, figuring out which chain it should
    /// join, if any. The tile must not border two distinct companies.
    fn place_non_merging_tile(&mut self, tile: Tile)
        requires
            old(self).wf(),
            tile.wf(),
            old(self).bordering_company_count(tile) <= 1,
        ensures
            final(self).wf(),
            final(self).tiles@.len() == old(self).tiles@.len(),
            final(self).merger_tile == old(self).merger_tile,
            final(self).headquarters == old(self).headquarters,
            old(self).bordering_company_count(tile) == 0 ==> final(self).tiles@ == old(
                self,
            ).tiles@.update(tile.index(), Some(None::<Company>)),
            forall|c: Company|
                old(self).borders_company(tile, c) ==> relabeled_from(
                    *old(self),
                    *final(self),
                    tile,
                    c,
                ) && chain_spread_exact(*old(self), *final(self), tile, c),
    {
        let (companies, _unaffiliated) = self.bordering_map(tile);
        let affiliation = Self::first_marked(&companies);

        match affiliation {
            None => {
                proof {
                    assert forall|d: Company| !old(self).borders_company(tile, d) by {
                        assert(!companies.spec_get(d));
                    }
                }
                self.set_tile(tile, None);
            },
            Some(c) => {
                self.update_chain(tile, c);
                proof {
                    assert forall|d: Company|
                        old(self).borders_company(tile, d) implies relabeled_from(
                        *old(self),
                        *self,
                        tile,
                        d,
                    ) && chain_spread_exact(*old(self), *self, tile, d) by {
                        assert(d == c);
                    }
                }
            },
        }
    }

    /// Places a merger tile onto the board: the cell is occupied without an
    /// affiliation and the pending-merge marker is set, to be cleared by
    /// [`Board::resolve_merge`].
    fn place_merger_tile(&mut self, tile: Tile)
        requires
            old(self).wf(),
            tile.wf(),
        ensures
            final(self).wf(),
            final(self).tiles@ == old(self).tiles@.update(tile.index(), Some(None::<Company>)),
            final(self).merger_tile == Some(tile),
            final(self).headquarters == old(self).headquarters,
    {
        self.merger_tile = Some(tile);
        self.set_tile(tile, None);
    }

    /// Places the tile and founds a company at the tile, making the tile the
    /// company's headquarters. Assumes the placement is legal.
    fn found_company(&mut self, tile: Tile, company: Company)
        requires
            old(self).wf(),
            tile.wf(),
        ensures
            final(self).wf(),
            relabeled_from(*old(self), *final(self), tile, company),
            chain_spread_exact(*old(self), *final(self), tile, company),
            final(self).merger_tile == old(self).merger_tile,
            final(self).headquarters.spec_get(company) == Some(tile),
            forall|d: Company|
                d != company ==> final(self).headquarters.spec_get(d) == old(
                    self,
                ).headquarters.spec_get(d),
    {
        self.headquarters.set(company, Some(tile));
        self.update_chain(tile, company);
    }
}

} // verus!

verus! {

/// Sum of seven 0-or-1 terms is zero exactly when each is.
proof fn lemma_no_bordering_company(b: Board, t: Tile)
    requires
        b.bordering_company_count(t) == 0,
    ensures
        forall|c: Company| !(#[trigger] b.borders_company(t, c)),
{
    assert forall|c: Company| !(#[trigger] b.borders_company(t, c)) by {
        if b.borders_company(t, c) {
            assert(bool_to_int(b.borders_company(t, c)) == 1);
        }
    }
}

/// A tile that borders no company and no unaffiliated cell borders nothing
/// occupied at all.
proof fn lemma_no_borders_means_empty(b: Board, t: Tile)
    requires
        !b.borders_unaffiliated(t),
        forall|c: Company| !(#[trigger] b.borders_company(t, c)),
    ensures
        !b.borders_occupied(t),
{
    if b.nb_occupied(t.spec_next_row()) {
        match t.spec_next_row() {
            Some(n) => {
                match b.cell(n) {
                    Some(Some(c)) => {
                        assert(b.borders_company(t, c));
                    },
                    _ => {},
                }
            },
            None => {},
        }
    }
    if b.nb_occupied(t.spec_prev_row()) {
        match t.spec_prev_row() {
            Some(n) => {
                match b.cell(n) {
                    Some(Some(c)) => {
                        assert(b.borders_company(t, c));
                    },
                    _ => {},
                }
            },
            None => {},
        }
    }
    if b.nb_occupied(t.spec_next_col()) {
        match t.spec_next_col() {
            Some(n) => {
                match b.cell(n) {
                    Some(Some(c)) => {
                        assert(b.borders_company(t, c));
                    },
                    _ => {},
                }
            },
            None => {},
        }
    }
    if b.nb_occupied(t.spec_prev_col()) {
        match t.spec_prev_col() {
            Some(n) => {
                match b.cell(n) {
                    Some(Some(c)) => {
                        assert(b.borders_company(t, c));
                    },
                    _ => {},
                }
            },
            None => {},
        }
    }
}

/// After a placement with no occupied neighbor, re-checking any placement
/// at the same tile demands no implication.
proof fn lemma_replay_no_neighbors(pre: Board, post: Board, t: Tile)
    requires
        pre.tiles@.len() == NUM_CELLS,
        t.wf(),
        !pre.borders_occupied(t),
        post.tiles@ == pre.tiles@.update(t.index(), Some(None::<Company>)),
    ensures
        post.spec_check_implication(
            TilePlacement { tile: t, implication: None },
        ) is Ok,
        forall|imp: Option<TilePlacementImplication>|
            imp is Some ==> post.spec_check_implication(
                TilePlacement { tile: t, implication: imp },
            ) == Err::<(), IncorrectImplication>(IncorrectImplication::ShouldBeNone),
{
    assert(!post.nb_occupied(t.spec_next_row()));
    assert(!post.nb_occupied(t.spec_prev_row()));
    assert(!post.nb_occupied(t.spec_next_col()));
    assert(!post.nb_occupied(t.spec_prev_col()));
    assert(post.bordering_company_count(t) == 0);
    assert(!post.borders_unaffiliated(t));
}

/// After a placement that joined or founded the chain of company `c`,
/// re-checking any placement at the same tile demands no implication.
proof fn lemma_replay_after_join(pre: Board, post: Board, t: Tile, c: Company)
    requires
        pre.tiles@.len() == NUM_CELLS,
        t.wf(),
        pre.borders_occupied(t),
        relabeled_from(pre, post, t, c),
    ensures
        post.borders_company(t, c),
        post.bordering_company_count(t) == 1,
        post.spec_check_implication(
            TilePlacement { tile: t, implication: None },
        ) is Ok,
        forall|imp: Option<TilePlacementImplication>|
            imp is Some ==> post.spec_check_implication(
                TilePlacement { tile: t, implication: imp },
            ) == Err::<(), IncorrectImplication>(IncorrectImplication::ShouldBeNone),
{
    assert(post.nb_occupied(t.spec_next_row()) == pre.nb_occupied(t.spec_next_row()));
    assert(post.nb_occupied(t.spec_prev_row()) == pre.nb_occupied(t.spec_prev_row()));
    assert(post.nb_occupied(t.spec_next_col()) == pre.nb_occupied(t.spec_next_col()));
    assert(post.nb_occupied(t.spec_prev_col()) == pre.nb_occupied(t.spec_prev_col()));
    assert(post.borders_company(t, c));
    assert(!post.borders_unaffiliated(t));
    assert forall|d: Company| d != c implies !(#[trigger] post.borders_company(t, d)) by {}
    assert(post.bordering_company_count(t) == 1);
}

impl Board {
    /// Places a tile on the board. This function assumes that the move being
    /// made is legal: a placement without implication must not border two
    /// distinct companies. If a merge occurs, the board is left in an
    /// intermediate merging state, to be completed by
    /// [`Board::resolve_merge`].
    ///
    /// Once a legal non-merging placement has been applied, re-checking a
    /// placement at the same tile against the new board reports that its
    /// classification should now be "none".
    pub fn place_tile(&mut self, placement: TilePlacement)
        requires
            old(self).wf(),
            placement.tile.wf(),
            placement.implication is None ==> old(self).bordering_company_count(
                placement.tile,
            ) <= 1,
        ensures
            final(self).wf(),
            final(self).tiles@.len() == old(self).tiles@.len(),
            placement.implication is None ==> final(self).merger_tile == old(self).merger_tile
                && final(self).headquarters == old(self).headquarters
                && (old(self).bordering_company_count(placement.tile) == 0
                ==> final(self).tiles@ == old(self).tiles@.update(
                placement.tile.index(),
                Some(None::<Company>),
            )) && (forall|c: Company|
                old(self).borders_company(placement.tile, c) ==> relabeled_from(
                    *old(self),
                    *final(self),
                    placement.tile,
                    c,
                ) && chain_spread_exact(*old(self), *final(self), placement.tile, c)),
            placement.implication matches Some(TilePlacementImplication::FoundsCompany(c))
                ==> relabeled_from(*old(self), *final(self), placement.tile, c)
                && chain_spread_exact(*old(self), *final(self), placement.tile, c)
                && final(self).merger_tile == old(self).merger_tile
                && final(self).headquarters.spec_get(c) == Some(placement.tile)
                && (forall|d: Company|
                d != c ==> final(self).headquarters.spec_get(d) == old(
                    self,
                ).headquarters.spec_get(d)),
            placement.implication matches Some(TilePlacementImplication::MergesCompanies(m))
                ==> final(self).tiles@ == old(self).tiles@.update(
                placement.tile.index(),
                Some(None::<Company>),
            ) && final(self).merger_tile == Some(placement.tile)
                && final(self).headquarters == old(self).headquarters,
            old(self).spec_check_implication(placement) is Ok && !(
            placement.implication matches Some(TilePlacementImplication::MergesCompanies(m)))
                ==> final(self).spec_check_implication(
                TilePlacement { tile: placement.tile, implication: None },
            ) is Ok && (forall|imp: Option<TilePlacementImplication>|
                imp is Some ==> final(self).spec_check_implication(
                    TilePlacement { tile: placement.tile, implication: imp },
                ) == Err::<(), IncorrectImplication>(IncorrectImplication::ShouldBeNone)),
    {
        let t = placement.tile;
        match placement.implication {
            None => {
                self.place_non_merging_tile(t);
                proof {
                    if old(self).spec_check_implication(placement) is Ok {
                        let k = old(self).bordering_company_count(t);
                        if k == 0 {
                            lemma_no_bordering_company(*old(self), t);
                            assert(!old(self).borders_unaffiliated(t));
                            lemma_no_borders_means_empty(*old(self), t);
                            lemma_replay_no_neighbors(*old(self), *self, t);
                        } else {
                            let c = choose|c: Company| old(self).borders_company(t, c);
                            assert(old(self).borders_occupied(t));
                            lemma_replay_after_join(*old(self), *self, t, c);
                        }
                    }
                }
            },
            Some(TilePlacementImplication::FoundsCompany(company)) => {
                self.found_company(t, company);
                proof {
                    if old(self).spec_check_implication(placement) is Ok {
                        assert(old(self).borders_unaffiliated(t));
                        assert(old(self).borders_occupied(t));
                        lemma_replay_after_join(*old(self), *self, t, company);
                    }
                }
            },
            Some(TilePlacementImplication::MergesCompanies(_)) => {
                self.place_merger_tile(t);
            },
        }
    }
}

} // verus!

verus! {

impl Board {
    /// Updates the companies to finish a merge: relabels the chain at the
    /// pending-merge marker to the surviving company, attributes every cell
    /// still carrying a defunct company's label to the survivor, and clears
    /// the marker. Defunct companies end with a tile count of zero.
    ///
    /// Afterwards, re-checking a placement at the marker tile reports that
    /// its classification should be "none".
    pub fn resolve_merge(&mut self, merge: &Merge)
        requires
            old(self).wf(),
            old(self).merger_tile is Some,
        ensures
            final(self).wf(),
            final(self).tiles@.len() == old(self).tiles@.len(),
            final(self).merger_tile is None,
            final(self).headquarters == old(self).headquarters,
            forall|i: int|
                0 <= i < old(self).tiles@.len() ==> final(self).tiles@[i] == old(self).tiles@[i]
                    || final(self).tiles@[i] == Some(Some(merge.into)),
            forall|i: int|
                0 <= i < old(self).tiles@.len() && i != old(self).merger_tile.unwrap().index()
                    ==> (final(self).tiles@[i] is Some <==> old(self).tiles@[i] is Some),
            final(self).cell(old(self).merger_tile.unwrap()) == Some(Some(merge.into)),
            forall|c: Company|
                merge.lists_defunct(c) && c != merge.into
                    ==> final(self).company_sizes.spec_get(c) == 0,
            final(self).spec_check_implication(
                TilePlacement { tile: old(self).merger_tile.unwrap(), implication: None },
            ) is Ok,
            forall|imp: Option<TilePlacementImplication>|
                imp is Some ==> final(self).spec_check_implication(
                    TilePlacement { tile: old(self).merger_tile.unwrap(), implication: imp },
                ) == Err::<(), IncorrectImplication>(IncorrectImplication::ShouldBeNone),
    {
        let marker = self.merger_tile.unwrap();
        let into = merge.into;
        self.update_chain(marker, into);

        let ghost mid = *self;

        let mut idx: usize = 0;
        while idx < NUM_CELLS
            invariant
                self.wf(),
                self.tiles@.len() == mid.tiles@.len(),
                mid.tiles@.len() == NUM_CELLS,
                forall|i: int|
                    0 <= i < NUM_CELLS ==> self.tiles@[i] == mid.tiles@[i] || self.tiles@[i]
                        == Some(Some(into)),
                forall|i: int|
                    0 <= i < NUM_CELLS ==> (self.tiles@[i] is Some <==> mid.tiles@[i] is Some),
                forall|i: int|
                    0 <= i < idx ==> !(exists|c: Company|
                        merge.lists_defunct(c) && c != into && #[trigger] self.tiles@[i]
                            == Some(Some(c))),
                self.merger_tile == mid.merger_tile,
                self.headquarters == mid.headquarters,
            decreases NUM_CELLS - idx,
        {
            let cellv: CellState = self.tiles[idx];
            if let Some(Some(c)) = cellv {
                let listed = match merge.defunct_first {
                    Some(d) => d == c,
                    None => false,
                } || match merge.defunct_second {
                    Some(d) => d == c,
                    None => false,
                } || match merge.defunct_third {
                    Some(d) => d == c,
                    None => false,
                };
                if listed && !(c == into) {
                    self.set_index(idx, Some(into));
                }
            }
            idx += 1;
        }

        self.merger_tile = None;

        proof {
            assert forall|c: Company|
                merge.lists_defunct(c) && c != into implies self.company_sizes.spec_get(c)
                == 0 by {
                assert forall|i: int|
                    0 <= i < self.tiles@.len() implies !cell_matches(
                    #[trigger] self.tiles@[i],
                    CellClass::OwnedBy(c),
                ) by {
                    if self.tiles@[i] == Some(Some(c)) {
                        assert(exists|d: Company|
                            merge.lists_defunct(d) && d != into && self.tiles@[i] == Some(
                                Some(d),
                            ));
                    }
                }
                lemma_count_zero(self.tiles@, CellClass::OwnedBy(c));
            }
            assert(self.cell(marker) == Some(Some(into)));
            assert(self.chain_closed_at(marker, into)) by {
                assert(mid.chain_closed_at(marker, into));
            }
            assert(relabeled_from(*old(self), *self, marker, into)) by {
                assert(mid.cell(marker) == Some(Some(into)));
            }
            if old(self).borders_occupied(marker) {
                lemma_replay_after_join(*old(self), *self, marker, into);
            } else {
                assert(!self.nb_occupied(marker.spec_next_row()));
                assert(!self.nb_occupied(marker.spec_prev_row()));
                assert(!self.nb_occupied(marker.spec_next_col()));
                assert(!self.nb_occupied(marker.spec_prev_col()));
                assert(self.bordering_company_count(marker) == 0);
                assert(!self.borders_unaffiliated(marker));
            }
        }
    }
}

} // verus!

verus! {

/// On a well-formed board, the companies' tile counts plus the number of
/// occupied unaffiliated cells together account for every occupied cell.
pub proof fn lemma_board_tile_partition(b: Board)
    requires
        b.wf(),
    ensures
        b.company_sizes.spec_get(Company::Continental) + b.company_sizes.spec_get(
            Company::Imperial,
        ) + b.company_sizes.spec_get(Company::American) + b.company_sizes.spec_get(
            Company::Festival,
        ) + b.company_sizes.spec_get(Company::Worldwide) + b.company_sizes.spec_get(
            Company::Luxor,
        ) + b.company_sizes.spec_get(Company::Tower) + count_cells(
            b.tiles@,
            CellClass::Unaffiliated,
        ) == count_cells(b.tiles@, CellClass::Occupied),
{
    lemma_cell_partition(b.tiles@);
}

/// A merge that passes the legality check never lists a safe company in its
/// defunct set.
pub proof fn lemma_legal_merge_spares_safe_companies(b: Board, p: TilePlacement, m: Merge)
    requires
        b.spec_check_implication(p) is Ok,
        p.implication == Some(TilePlacementImplication::MergesCompanies(m)),
    ensures
        forall|c: Company| m.lists_defunct(c) ==> !b.spec_company_is_safe(c),
{
    assert(b.spec_check_merge(p.tile, m) is Ok);
    assert(!b.opt_defunct_safe(m.defunct_first) && !b.opt_defunct_safe(m.defunct_second)
        && !b.opt_defunct_safe(m.defunct_third));
}

} // verus!

verus! {

/// A merge that passes the legality check lists at least one defunct
/// company, and the merger tile borders at least two distinct companies.
pub proof fn lemma_valid_merge_lists_defunct(b: Board, p: TilePlacement, m: Merge)
    requires
        b.spec_check_implication(p) is Ok,
        p.implication == Some(TilePlacementImplication::MergesCompanies(m)),
    ensures
        m.defunct_seq().len() > 0,
        b.bordering_company_count(p.tile) >= 2,
{
    assert(b.bordering_company_count(p.tile) >= 2);
    assert(b.spec_check_merge(p.tile, m) is Ok);
    if m.defunct_seq().len() == 0 {
        let rem0 = b.bordering_minus_survivor(p.tile, m.into);
        assert(m.defunct_first is None && m.defunct_second is None && m.defunct_third is None);
        assert(!set_has_company(rem0));
        assert forall|c: Company| b.borders_company(p.tile, c) implies c == m.into by {
            if c != m.into {
                assert(rem0.contains(c));
                assert(set_has_company(rem0));
            }
        }
        assert(b.bordering_company_count(p.tile) <= 1);
    }
}

} // verus!

verus! {

/// Whether `a` and `b` are orthogonal neighbors.
pub open spec fn tiles_adjacent(a: Tile, b: Tile) -> bool {
    ||| a.spec_next_row() == Some(b)
    ||| a.spec_prev_row() == Some(b)
    ||| a.spec_next_col() == Some(b)
    ||| a.spec_prev_col() == Some(b)
}

/// A walk from `t` to `u` over the board `s`: consecutive tiles are
/// neighbors, and every tile strictly between the endpoints is occupied
/// and not yet labeled `c` — the cells through which a relabeling to `c`
/// can spread.
pub open spec fn chain_path(
    s: Seq<CellState>,
    c: Company,
    t: Tile,
    u: Tile,
    path: Seq<Tile>,
) -> bool {
    &&& path.len() >= 1
    &&& path[0] == t
    &&& path.last() == u
    &&& forall|j: int| 0 <= j < path.len() - 1 ==> tiles_adjacent(#[trigger] path[j], path[j + 1])
    &&& forall|j: int| 1 <= j < path.len() ==> (#[trigger] path[j]).wf()
    &&& forall|j: int|
        1 <= j < path.len() - 1 ==> s[(#[trigger] path[j]).index()] is Some
            && s[path[j].index()] != Some(Some(c))
}

/// Whether the relabeling to `c` seeded at `t` can spread to `u` on the
/// board `s`.
pub open spec fn chain_reaches(s: Seq<CellState>, c: Company, t: Tile, u: Tile) -> bool {
    exists|path: Seq<Tile>| chain_path(s, c, t, u, path)
}

/// The relabeling seeded at `t` changed exactly the cells its chain
/// reaches: a cell other than the seed changed only if the seed's chain
/// reaches it, and every occupied cell the chain reaches belongs to `c`
/// afterwards.
pub open spec fn chain_spread_exact(pre: Board, post: Board, t: Tile, c: Company) -> bool {
    &&& forall|u: Tile|
        u.wf() && u.index() != t.index() && post.tiles@[#[trigger] u.index()]
            != pre.tiles@[u.index()] ==> chain_reaches(pre.tiles@, c, t, u)
    &&& forall|u: Tile|
        u.wf() && #[trigger] chain_reaches(pre.tiles@, c, t, u) && pre.tiles@[u.index()] is Some
            ==> post.cell(u) == Some(Some(c))
}

/// An element of a sequence is, after dropping the last entry, still there
/// or was that last entry.
proof fn lemma_contains_after_pop<T>(pre: Seq<T>, x: T)
    requires
        pre.len() > 0,
        pre.contains(x),
    ensures
        pre.drop_last().contains(x) || x == pre.last(),
{
    let j = choose|j: int| 0 <= j < pre.len() && pre[j] == x;
    if j < pre.len() - 1 {
        assert(pre.drop_last()[j] == x);
    }
}

/// One iteration of the walk keeps a closed-or-queued cell closed or
/// queued: the popped tile either needed no relabeling — it was empty or
/// already `c` — or has just been relabeled to `c`; every other queued
/// tile stays queued.
proof fn lemma_guard_preserved(
    pre_b: Board,
    post_b: Board,
    x: Tile,
    c: Company,
    pre_list: Seq<Tile>,
    now: Seq<Tile>,
    t0: Tile,
    relabeled: bool,
)
    requires
        pre_b.guarded_at(x, c, pre_list),
        pre_list.len() > 0,
        t0 == pre_list.last(),
        post_b.tiles@.len() == pre_b.tiles@.len(),
        relabeled ==> t0.wf() && 0 <= t0.index() < pre_b.tiles@.len() && post_b.tiles@
            == pre_b.tiles@.update(t0.index(), Some(Some(c))) && pre_b.cell(t0) is Some,
        !relabeled ==> post_b.tiles@ == pre_b.tiles@,
        !relabeled ==> !(pre_b.cell(t0) is Some) || pre_b.cell(t0) == Some(Some(c)),
        forall|y: Tile| pre_list.drop_last().contains(y) ==> #[trigger] now.contains(y),
        pre_b.tiles@.len() == NUM_CELLS,
        x.wf(),
    ensures
        post_b.guarded_at(x, c, now),
{
    assert forall|o: Option<Tile>|
        (match o {
            Some(n) => n.wf(),
            None => true,
        }) && pre_b.nb_guarded(o, c, pre_list) implies #[trigger] post_b.nb_guarded(
        o,
        c,
        now,
    ) by {
        match o {
            Some(n) => {
                crate::tile::lemma_tile_index_bounds(n);
                if !(pre_b.cell(n) is Some) {
                    if relabeled && n.index() == t0.index() {
                        assert(pre_b.cell(t0) is Some);
                    }
                    assert(!(post_b.cell(n) is Some));
                } else if pre_b.cell(n) == Some(Some(c)) {
                    assert(post_b.cell(n) == Some(Some(c)));
                } else {
                    assert(pre_list.contains(n));
                    lemma_contains_after_pop(pre_list, n);
                    if n == t0 {
                        if relabeled {
                            assert(post_b.cell(n) == Some(Some(c)));
                        }
                    } else {
                        assert(now.contains(n));
                    }
                }
            },
            None => {},
        }
    }
    assert(pre_b.nb_guarded(x.spec_next_row(), c, pre_list));
    assert(pre_b.nb_guarded(x.spec_prev_row(), c, pre_list));
    assert(pre_b.nb_guarded(x.spec_next_col(), c, pre_list));
    assert(pre_b.nb_guarded(x.spec_prev_col(), c, pre_list));
}

/// A one-step walk to a neighbor of the seed.
proof fn lemma_adjacent_path(s: Seq<CellState>, c: Company, t: Tile, n: Tile)
    requires
        tiles_adjacent(t, n),
        n.wf(),
    ensures
        chain_path(s, c, t, n, seq![t, n]),
{
    let p = seq![t, n];
    assert(p[0] == t && p.last() == n);
    assert forall|j: int| 0 <= j < p.len() - 1 implies tiles_adjacent(
        #[trigger] p[j],
        p[j + 1],
    ) by {}
}

/// Extending a walk by one neighbor of its occupied, still-foreign
/// endpoint keeps it a walk.
proof fn lemma_extend_path(
    s: Seq<CellState>,
    c: Company,
    t: Tile,
    t0: Tile,
    n: Tile,
    p: Seq<Tile>,
)
    requires
        chain_path(s, c, t, t0, p),
        tiles_adjacent(t0, n),
        n.wf(),
        t0.wf(),
        0 <= t0.index() < s.len(),
        s[t0.index()] is Some,
        s[t0.index()] != Some(Some(c)),
    ensures
        chain_path(s, c, t, n, p.push(n)),
{
    let q = p.push(n);
    assert(q[0] == t && q.last() == n);
    assert forall|j: int| 0 <= j < q.len() - 1 implies tiles_adjacent(
        #[trigger] q[j],
        q[j + 1],
    ) by {
        if j < p.len() - 1 {
            assert(q[j] == p[j] && q[j + 1] == p[j + 1]);
        } else {
            assert(q[j] == t0 && q[j + 1] == n);
        }
    }
    assert forall|j: int| 1 <= j < q.len() implies (#[trigger] q[j]).wf() by {
        if j < p.len() {
            assert(q[j] == p[j]);
        }
    }
    assert forall|j: int|
        1 <= j < q.len() - 1 implies s[(#[trigger] q[j]).index()] is Some
            && s[q[j].index()] != Some(Some(c)) by {
        assert(q[j] == p[j]);
        if j < p.len() - 1 {
        } else {
            assert(p[j] == t0);
        }
    }
}

/// Once the relabeled region is closed — every occupied cell around the
/// seed and around each relabeled cell already belongs to `c` — each walk
/// of the seed's chain ends in a `c` cell: walking the path, every tile is
/// swallowed in turn.
proof fn lemma_path_spreads(
    b: Board,
    pre: Seq<CellState>,
    c: Company,
    t: Tile,
    path: Seq<Tile>,
    j: int,
)
    requires
        b.tiles@.len() == pre.len(),
        pre.len() == NUM_CELLS,
        t.wf(),
        b.cell(t) == Some(Some(c)),
        forall|i: int|
            0 <= i < pre.len() ==> b.tiles@[i] == pre[i] || b.tiles@[i] == Some(Some(c)),
        forall|x: Tile|
            x.wf() && b.cell(x) == Some(Some(c)) && (pre[#[trigger] x.index()] != Some(
                Some(c),
            ) || x == t) ==> b.chain_closed_at(x, c),
        chain_path(pre, c, t, path.last(), path),
        0 <= j < path.len(),
        j == path.len() - 1 && j > 0 ==> pre[path[j].index()] is Some,
    ensures
        b.cell(path[j]) == Some(Some(c)),
    decreases j,
{
    if j == 0 {
        assert(path[0] == t);
    } else {
        lemma_path_spreads(b, pre, c, t, path, j - 1);
        let x = path[j - 1];
        let u = path[j];
        assert(tiles_adjacent(x, u));
        crate::tile::lemma_tile_index_bounds(u);
        if j - 1 > 0 {
            crate::tile::lemma_tile_index_bounds(x);
            assert(pre[x.index()] != Some(Some(c)));
        }
        assert(b.chain_closed_at(x, c));
        // `u` is occupied on `b`: it was occupied on `pre` and cells only
        // ever take on the label `c`
        assert(b.tiles@[u.index()] is Some) by {
            if j < path.len() - 1 {
                assert(pre[u.index()] is Some);
            }
            assert(b.tiles@[u.index()] == pre[u.index()] || b.tiles@[u.index()] == Some(
                Some(c),
            ));
        }
        if x.spec_next_row() == Some(u) {
            assert(b.nb_occupied(x.spec_next_row()));
        } else if x.spec_prev_row() == Some(u) {
            assert(b.nb_occupied(x.spec_prev_row()));
        } else if x.spec_next_col() == Some(u) {
            assert(b.nb_occupied(x.spec_next_col()));
        } else {
            assert(b.nb_occupied(x.spec_prev_col()));
        }
    }
}

} // verus!
