//! Board tiles, identified by a row number (1 through 12) and a column
//! letter (`'a'` through `'i'`), together with their orthogonal neighbors.

use vstd::prelude::*;

verus! {

/// A position on the board: row 1..=12 and column `'a'..='i'` (stored as the
/// letter's byte value). Ordered by row first, column second.
#[derive(Debug, Clone, Copy, PartialEq, Eq, Structural, Hash)]
pub struct Tile {
    pub row: u8,
    pub col: u8,
}

/// Number of rows on the board.
pub const NUM_ROWS: u8 = 12;

/// Number of columns on the board (letters `'a'` through `'i'`).
pub const NUM_COLS: u8 = 9;

/// Byte value of the first column letter `'a'`.
pub const FIRST_COL_BYTE: u8 = 97;

/// Byte value of the last column letter `'i'`.
pub const LAST_COL_BYTE: u8 = 105;

/// Number of cells on the board.
pub const NUM_CELLS: usize = 108;

impl Tile {
    /// A tile names a real board position: its row and column are in range.
    pub open spec fn wf(self) -> bool {
        &&& 1 <= self.row <= NUM_ROWS
        &&& FIRST_COL_BYTE <= self.col <= LAST_COL_BYTE
    }

    /// Index of this tile's cell in a row-major array of the whole board.
    pub open spec fn index(self) -> int {
        (self.row - 1) * (NUM_COLS as int) + (self.col - FIRST_COL_BYTE)
    }

    /// Creates a tile from a row number and a column letter.
    pub fn new(row: u8, col: char) -> (r: Tile)
        requires
            1 <= row <= NUM_ROWS,
            'a' <= col <= 'i',
        ensures
            r.row == row,
            r.col == col as u8,
            r.wf(),
    {
        Tile { row, col: col as u8 }
    }

    /// Whether this tile names a real board position.
    pub fn is_wf(&self) -> (r: bool)
        ensures
            r == self.wf(),
    {
        1 <= self.row && self.row <= NUM_ROWS && FIRST_COL_BYTE <= self.col && self.col
            <= LAST_COL_BYTE
    }

    /// The tile's row number.
    pub fn row(&self) -> (r: u8)
        ensures
            r == self.row,
    {
        self.row
    }

    /// The tile's column letter.
    pub fn col(&self) -> (r: char)
        requires
            self.wf(),
        ensures
            r == self.col as char,
    {
        self.col as char
    }

    /// One-based number of a column letter: `'a'` is 1, `'i'` is 9.
    pub fn col_as_num(chr: char) -> (r: u8)
        requires
            'a' <= chr <= 'i',
        ensures
            r == chr as u8 - FIRST_COL_BYTE + 1,
    {
        (chr as u8) - FIRST_COL_BYTE + 1
    }

    /// The neighbor in the next row, if this is not the last row.
    pub open spec fn spec_next_row(self) -> Option<Tile> {
        if self.row == NUM_ROWS {
            None
        } else {
            Some(Tile { row: (self.row + 1) as u8, col: self.col })
        }
    }

    /// The neighbor in the previous row, if this is not the first row.
    pub open spec fn spec_prev_row(self) -> Option<Tile> {
        if self.row == 1 {
            None
        } else {
            Some(Tile { row: (self.row - 1) as u8, col: self.col })
        }
    }

    /// The neighbor in the next column, if this is not the last column.
    pub open spec fn spec_next_col(self) -> Option<Tile> {
        if self.col == LAST_COL_BYTE {
            None
        } else {
            Some(Tile { row: self.row, col: (self.col + 1) as u8 })
        }
    }

    /// The neighbor in the previous column, if this is not the first column.
    pub open spec fn spec_prev_col(self) -> Option<Tile> {
        if self.col == FIRST_COL_BYTE {
            None
        } else {
            Some(Tile { row: self.row, col: (self.col - 1) as u8 })
        }
    }

    /// Gets the tile bordering this one in the next row, returning [`None`] if
    /// it doesn't exist.
    pub fn next_row(&self) -> (r: Option<Tile>)
        requires
            self.wf(),
        ensures
            r == self.spec_next_row(),
            r matches Some(t) ==> t.wf(),
    {
        if self.row == NUM_ROWS {
            None
        } else {
            Some(Tile { row: self.row + 1, col: self.col })
        }
    }

    /// Gets the tile bordering this one in the previous row, returning
    /// [`None`] if it doesn't exist.
    pub fn prev_row(&self) -> (r: Option<Tile>)
        requires
            self.wf(),
        ensures
            r == self.spec_prev_row(),
            r matches Some(t) ==> t.wf(),
    {
        if self.row == 1 {
            None
        } else {
            Some(Tile { row: self.row - 1, col: self.col })
        }
    }

    /// Gets the tile bordering this one in the next column, returning
    /// [`None`] if it doesn't exist.
    pub fn next_col(&self) -> (r: Option<Tile>)
        requires
            self.wf(),
        ensures
            r == self.spec_next_col(),
            r matches Some(t) ==> t.wf(),
    {
        if self.col == LAST_COL_BYTE {
            None
        } else {
            Some(Tile { row: self.row, col: self.col + 1 })
        }
    }

    /// Gets the tile bordering this one in the previous column, returning
    /// [`None`] if it doesn't exist.
    pub fn prev_col(&self) -> (r: Option<Tile>)
        requires
            self.wf(),
        ensures
            r == self.spec_prev_col(),
            r matches Some(t) ==> t.wf(),
    {
        if self.col == FIRST_COL_BYTE {
            None
        } else {
            Some(Tile { row: self.row, col: self.col - 1 })
        }
    }
}

/// Distinct well-formed tiles occupy distinct cells of the board array.
pub proof fn lemma_tile_index_injective(a: Tile, b: Tile)
    requires
        a.wf(),
        b.wf(),
        a.index() == b.index(),
    ensures
        a == b,
{
}

/// A well-formed tile's cell index lies inside the board array.
pub proof fn lemma_tile_index_bounds(t: Tile)
    requires
        t.wf(),
    ensures
        0 <= t.index() < NUM_CELLS,
{
}

} // verus!

verus! {

use crate::text::{chars_vec, string_of_range, to_lower, lower_char};

/// Why a string failed to parse as a tile.
#[derive(Debug, Clone, PartialEq, Eq)]
pub enum TileFromStrError {
    /// The string holds no dash between row and column.
    NoDash,
    /// The string holds more than one dash.
    TwoDashes,
    /// The part before the dash is not a number up to 255.
    ErrorParsingRow(String),
    /// The row number lies outside 1 through 12.
    InvalidRow(u8),
    /// The part after the dash does not begin with a column letter.
    InvalidColumn(String),
}

/// Index of the first occurrence of `ch` in `s`, or the length of `s` if
/// there is none.
pub open spec fn find_char(s: Seq<char>, ch: char) -> int
    decreases s.len(),
{
    if s.len() == 0 {
        0
    } else if s[0] == ch {
        0
    } else {
        1 + find_char(s.drop_first(), ch)
    }
}

/// What [`find_char`] promises: the result is the position of the first
/// occurrence, or the length when the character does not occur.
pub proof fn lemma_find_char(s: Seq<char>, ch: char)
    ensures
        0 <= find_char(s, ch) <= s.len(),
        forall|j: int| 0 <= j < find_char(s, ch) ==> s[j] != ch,
        find_char(s, ch) < s.len() ==> s[find_char(s, ch)] == ch,
    decreases s.len(),
{
    if s.len() > 0 && s[0] != ch {
        lemma_find_char(s.drop_first(), ch);
        assert forall|j: int| 0 <= j < find_char(s, ch) implies s[j] != ch by {
            if j > 0 {
                assert(s.drop_first()[j - 1] == s[j]);
            }
        }
    }
}

/// Whether `c` is a decimal digit.
pub open spec fn is_digit(c: char) -> bool {
    '0' <= c <= '9'
}

/// The value of a digit character.
pub open spec fn digit_val(c: char) -> int {
    c as int - '0' as int
}

/// The value of a digit string read left to right on top of `acc`, or
/// [`None`] on a non-digit or once the value leaves the range of a `u8`.
pub open spec fn spec_digits_val(s: Seq<char>, acc: int) -> Option<int>
    decreases s.len(),
{
    if s.len() == 0 {
        Some(acc)
    } else if !is_digit(s[0]) {
        None
    } else if acc * 10 + digit_val(s[0]) > 255 {
        None
    } else {
        spec_digits_val(s.drop_first(), acc * 10 + digit_val(s[0]))
    }
}

/// The `u8` a string denotes: an optional leading `'+'`, then at least one
/// digit, with a value of at most 255.
pub open spec fn spec_parse_u8(s: Seq<char>) -> Option<int> {
    if s.len() == 0 {
        None
    } else {
        let body = if s[0] == '+' {
            s.drop_first()
        } else {
            s
        };
        if body.len() == 0 {
            None
        } else {
            spec_digits_val(body, 0)
        }
    }
}

/// The shape of a tile-parse failure, without the message strings that
/// the error value carries.
pub enum TileParseIssue {
    /// The string holds no dash.
    NoDash,
    /// The string holds more than one dash.
    TwoDashes,
    /// The part before the dash is not a number up to 255.
    BadRow,
    /// The row number lies outside 1 through 12.
    RowOutOfRange(u8),
    /// The part after the dash does not begin with a column letter.
    BadColumn,
}

/// The tile a string denotes: a row number and a column letter separated
/// by one dash, the letter `'a'` through `'i'` in either case, with
/// anything after the letter ignored.
pub open spec fn spec_parse_tile(s: Seq<char>) -> Result<Tile, TileParseIssue> {
    let i = find_char(s, '-');
    if i == s.len() {
        Err(TileParseIssue::NoDash)
    } else {
        let row_part = s.subrange(0, i);
        let col_part = s.subrange(i + 1, s.len() as int);
        if find_char(col_part, '-') < col_part.len() {
            Err(TileParseIssue::TwoDashes)
        } else {
            match spec_parse_u8(row_part) {
                None => Err(TileParseIssue::BadRow),
                Some(row) => if !(1 <= row <= NUM_ROWS) {
                    Err(TileParseIssue::RowOutOfRange(row as u8))
                } else if col_part.len() == 0 {
                    Err(TileParseIssue::BadColumn)
                } else if 'a' <= col_part[0] <= 'i' {
                    Ok(Tile { row: row as u8, col: col_part[0] as u8 })
                } else if 'A' <= col_part[0] <= 'I' {
                    Ok(Tile { row: row as u8, col: lower_char(col_part[0]) as u8 })
                } else {
                    Err(TileParseIssue::BadColumn)
                },
            }
        }
    }
}

impl Tile {
    /// Parses a tile from its textual form: the row number, a dash, and
    /// the column letter, as in `"12-i"`. The letter may be upper case,
    /// and anything after it is ignored.
    pub fn parse(s: &str) -> (r: Result<Tile, TileFromStrError>)
        ensures
            ({
                let sp = spec_parse_tile(s@);
                match r {
                    Ok(t) => sp matches Ok(t2) && t == t2 && t.wf(),
                    Err(e) => match sp {
                        Ok(_) => false,
                        Err(e2) => tile_errors_match(e, e2, s@),
                    },
                }
            }),
    {
        let v = chars_vec(s);
        let n = v.len();

        let mut i: usize = 0;
        while i < n && v[i] != '-'
            invariant
                n == v@.len(),
                i <= n,
                forall|j: int| 0 <= j < i ==> v@[j] != '-',
            decreases n - i,
        {
            i += 1;
        }
        proof {
            lemma_find_char(v@, '-');
            if i < n {
                assert(find_char(v@, '-') == i);
            } else {
                assert(find_char(v@, '-') == n);
            }
        }
        if i == n {
            return Err(TileFromStrError::NoDash);
        }

        let ghost row_part = v@.subrange(0, i as int);
        let ghost col_part = v@.subrange(i as int + 1, n as int);

        let mut j: usize = i + 1;
        while j < n && v[j] != '-'
            invariant
                n == v@.len(),
                i < n,
                i + 1 <= j <= n,
                forall|k: int| i < k < j ==> v@[k] != '-',
            decreases n - j,
        {
            j += 1;
        }
        proof {
            lemma_find_char(col_part, '-');
            assert forall|k: int| 0 <= k < col_part.len() implies col_part[k] == v@[i + 1
                + k] by {}
            if j < n {
                assert(col_part[j - i - 1] == '-');
                assert(find_char(col_part, '-') < col_part.len());
            } else {
                assert(forall|k: int| 0 <= k < col_part.len() ==> col_part[k] != '-');
                assert(find_char(col_part, '-') == col_part.len());
            }
        }
        if j < n {
            return Err(TileFromStrError::TwoDashes);
        }

        // parse the row number
        let mut k: usize = 0;
        if i > 0 && v[0] == '+' {
            k = 1;
        }
        let ghost body = if row_part.len() > 0 && row_part[0] == '+' {
            row_part.drop_first()
        } else {
            row_part
        };
        if k == i {
            return Err(TileFromStrError::ErrorParsingRow(string_of_range(&v, 0, i)));
        }
        let ghost kk0 = k as int;
        proof {
            if row_part.len() > 0 && row_part[0] == '+' {
                assert(body =~= row_part.subrange(1, row_part.len() as int));
            } else {
                assert(body =~= row_part.subrange(0, row_part.len() as int));
            }
            assert(body =~= row_part.subrange(kk0, i as int));
            assert(body.subrange(0, body.len() as int) =~= body);
        }
        let mut val: u32 = 0;
        let mut row_ok = true;
        while k < i
            invariant
                n == v@.len(),
                i < n,
                kk0 <= k <= i,
                kk0 == (if row_part.len() > 0 && row_part[0] == '+' {
                    1int
                } else {
                    0int
                }),
                row_part == v@.subrange(0, i as int),
                body == row_part.subrange(kk0, i as int),
                body.len() > 0,
                val <= 255,
                row_ok ==> spec_digits_val(body, 0) == spec_digits_val(
                    body.subrange(k - kk0, body.len() as int),
                    val as int,
                ),
                !row_ok ==> spec_digits_val(body, 0) is None,
            decreases i - k,
        {
            let c = v[k];
            proof {
                assert(body[k - kk0] == v@[k as int]);
                assert(body.subrange(k - kk0, body.len() as int)[0] == v@[k as int]);
            }
            if !('0' <= c && c <= '9') {
                row_ok = false;
                proof {
                    assert(spec_digits_val(
                        body.subrange(k - kk0, body.len() as int),
                        val as int,
                    ) is None);
                }
                k = i;
            } else {
                let d: u32 = (c as u32) - 48;
                let next_val: u32 = val * 10 + d;
                proof {
                    assert(digit_val(c) == d);
                    assert(body.subrange(k - kk0, body.len() as int).drop_first()
                        =~= body.subrange(k + 1 - kk0, body.len() as int));
                }
                if next_val > 255 {
                    row_ok = false;
                    k = i;
                } else {
                    val = next_val;
                    k += 1;
                }
            }
        }
        proof {
            if row_ok {
                assert(body.subrange(i - kk0, body.len() as int) =~= Seq::<char>::empty());
                assert(spec_digits_val(body, 0) == Some(val as int));
            }
        }
        if !row_ok {
            return Err(TileFromStrError::ErrorParsingRow(string_of_range(&v, 0, i)));
        }

        let row: u32 = val;
        if !(1 <= row && row <= NUM_ROWS as u32) {
            return Err(TileFromStrError::InvalidRow(row as u8));
        }

        // the column is the first character after the dash
        if i + 1 == n {
            return Err(TileFromStrError::InvalidColumn(string_of_range(&v, i + 1, n)));
        }
        let c = v[i + 1];
        proof {
            assert(col_part[0] == v@[i as int + 1]);
        }
        if 'a' <= c && c <= 'i' {
            Ok(Tile { row: row as u8, col: c as u8 })
        } else if 'A' <= c && c <= 'I' {
            Ok(Tile { row: row as u8, col: to_lower(c) as u8 })
        } else {
            Err(TileFromStrError::InvalidColumn(string_of_range(&v, i + 1, n)))
        }
    }
}

/// The error value reports the issue the spec assigns to the string: the
/// same variant, the same row payload, and message strings holding
/// exactly the offending part of the input.
pub open spec fn tile_errors_match(e: TileFromStrError, issue: TileParseIssue, s: Seq<char>) -> bool {
    match (e, issue) {
        (TileFromStrError::NoDash, TileParseIssue::NoDash) => true,
        (TileFromStrError::TwoDashes, TileParseIssue::TwoDashes) => true,
        (TileFromStrError::InvalidRow(a), TileParseIssue::RowOutOfRange(b)) => a == b,
        (TileFromStrError::ErrorParsingRow(a), TileParseIssue::BadRow) => a@ == s.subrange(
            0,
            find_char(s, '-'),
        ),
        (TileFromStrError::InvalidColumn(a), TileParseIssue::BadColumn) => a@ == s.subrange(
            find_char(s, '-') + 1,
            s.len() as int,
        ),
        _ => false,
    }
}

impl core::str::FromStr for Tile {
    type Err = TileFromStrError;

    fn from_str(s: &str) -> Result<Self, Self::Err> {
        Tile::parse(s)
    }
}

} // verus!

verus! {

/// Represents a player's hand of up to six tiles.
#[derive(Debug, Clone, PartialEq, Eq)]
pub struct Hand {
    /// The six slots of the hand, each holding a tile or empty.
    pub tiles: Vec<Option<Tile>>,
}

/// The number of tile slots of a hand.
pub const HAND_SIZE: usize = 6;

impl Hand {
    /// A hand always has exactly six slots.
    pub open spec fn wf(self) -> bool {
        self.tiles@.len() == HAND_SIZE
    }

    /// The number of slots of `s` that hold a tile.
    pub open spec fn count_filled(s: Seq<Option<Tile>>) -> int
        decreases s.len(),
    {
        if s.len() == 0 {
            0
        } else {
            Self::count_filled(s.drop_last()) + if s.last() is Some {
                1int
            } else {
                0int
            }
        }
    }

    /// A hand whose six slots are all empty.
    pub fn new() -> (r: Hand)
        ensures
            r.wf(),
            forall|i: int| 0 <= i < HAND_SIZE ==> r.tiles@[i] is None,
    {
        let mut tiles: Vec<Option<Tile>> = Vec::new();
        let mut i: usize = 0;
        while i < HAND_SIZE
            invariant
                tiles@.len() == i,
                i <= HAND_SIZE,
                forall|j: int| 0 <= j < i ==> tiles@[j] is None,
            decreases HAND_SIZE - i,
        {
            tiles.push(None);
            i += 1;
        }
        Hand { tiles }
    }

    /// Checks if the hand is empty.
    pub fn is_empty(&self) -> (r: bool)
        requires
            self.wf(),
        ensures
            r == forall|i: int| 0 <= i < HAND_SIZE ==> self.tiles@[i] is None,
    {
        let mut i: usize = 0;
        while i < HAND_SIZE
            invariant
                self.wf(),
                i <= HAND_SIZE,
                forall|j: int| 0 <= j < i ==> self.tiles@[j] is None,
            decreases HAND_SIZE - i,
        {
            if self.tiles[i].is_some() {
                return false;
            }
            i += 1;
        }
        true
    }

    /// Counts the number of tiles in the player's hand.
    pub fn len(&self) -> (r: u8)
        requires
            self.wf(),
        ensures
            r as int == Self::count_filled(self.tiles@),
    {
        let mut r: u8 = 0;
        let mut i: usize = 0;
        while i < HAND_SIZE
            invariant
                self.wf(),
                i <= HAND_SIZE,
                r <= i,
                r as int == Self::count_filled(self.tiles@.take(i as int)),
            decreases HAND_SIZE - i,
        {
            proof {
                assert(self.tiles@.take(i as int + 1).drop_last() =~= self.tiles@.take(
                    i as int,
                ));
            }
            if self.tiles[i].is_some() {
                r += 1;
            }
            i += 1;
        }
        proof {
            assert(self.tiles@.take(HAND_SIZE as int) =~= self.tiles@);
        }
        r
    }

    /// Checks if the hand is full.
    pub fn is_full(&self) -> (r: bool)
        requires
            self.wf(),
        ensures
            r == forall|i: int| 0 <= i < HAND_SIZE ==> self.tiles@[i] is Some,
    {
        let mut i: usize = 0;
        while i < HAND_SIZE
            invariant
                self.wf(),
                i <= HAND_SIZE,
                forall|j: int| 0 <= j < i ==> self.tiles@[j] is Some,
            decreases HAND_SIZE - i,
        {
            if self.tiles[i].is_none() {
                return false;
            }
            i += 1;
        }
        true
    }

    /// The tiles of the hand, in slot order.
    pub fn iter(&self) -> (r: Vec<Tile>)
        requires
            self.wf(),
        ensures
            r@ == filled_tiles(self.tiles@),
    {
        let mut r: Vec<Tile> = Vec::new();
        let mut i: usize = 0;
        while i < HAND_SIZE
            invariant
                self.wf(),
                i <= HAND_SIZE,
                r@ == filled_tiles(self.tiles@.take(i as int)),
            decreases HAND_SIZE - i,
        {
            proof {
                assert(self.tiles@.take(i as int + 1).drop_last() =~= self.tiles@.take(
                    i as int,
                ));
            }
            if let Some(t) = self.tiles[i] {
                r.push(t);
            }
            i += 1;
        }
        proof {
            assert(self.tiles@.take(HAND_SIZE as int) =~= self.tiles@);
        }
        r
    }

    /// Attempts to swap a slot equal to `old_tile` with the provided
    /// `new_tile`. If the hand has more than one such slot, only the first
    /// is replaced. If no slot matches, the new tile is returned rather
    /// than inserted.
    pub fn swap_tile(&mut self, old_tile: Option<Tile>, new_tile: Option<Tile>) -> (r: Result<
        (),
        Option<Tile>,
    >)
        requires
            old(self).wf(),
        ensures
            final(self).wf(),
            r is Ok ==> exists|i: int|
                0 <= i < HAND_SIZE && old(self).tiles@[i] == old_tile
                    && final(self).tiles@ == old(self).tiles@.update(i, new_tile) && (forall|
                    j: int,
                |
                    0 <= j < i ==> old(self).tiles@[j] != old_tile),
            r is Err ==> r == Err::<(), Option<Tile>>(new_tile) && *final(self) == *old(self)
                && (forall|i: int| 0 <= i < HAND_SIZE ==> old(self).tiles@[i] != old_tile),
    {
        let mut i: usize = 0;
        while i < HAND_SIZE
            invariant
                self.wf(),
                *self == *old(self),
                i <= HAND_SIZE,
                forall|j: int| 0 <= j < i ==> self.tiles@[j] != old_tile,
            decreases HAND_SIZE - i,
        {
            let slot = self.tiles[i];
            let matches_slot = match (slot, old_tile) {
                (None, None) => true,
                (Some(a), Some(b)) => a.row == b.row && a.col == b.col,
                _ => false,
            };
            if matches_slot {
                self.tiles[i] = new_tile;
                return Ok(());
            }
            i += 1;
        }
        Err(new_tile)
    }

    /// Inserts a tile into an empty slot in a player's hand. If there is no
    /// empty slot, the new tile is returned rather than inserted.
    pub fn insert_tile(&mut self, new_tile: Tile) -> (r: Result<(), Tile>)
        requires
            old(self).wf(),
        ensures
            final(self).wf(),
            r is Ok ==> exists|i: int|
                0 <= i < HAND_SIZE && old(self).tiles@[i] is None && final(self).tiles@ == old(
                    self,
                ).tiles@.update(i, Some(new_tile)) && (forall|j: int|
                    0 <= j < i ==> old(self).tiles@[j] is Some),
            r is Err ==> r == Err::<(), Tile>(new_tile) && *final(self) == *old(self) && (
            forall|i: int| 0 <= i < HAND_SIZE ==> old(self).tiles@[i] is Some),
    {
        match self.swap_tile(None, Some(new_tile)) {
            Ok(()) => Ok(()),
            Err(_) => Err(new_tile),
        }
    }

    /// Removes a tile from a player's hand. Returns `true` upon success,
    /// and `false` if the desired tile cannot be found in the hand.
    pub fn remove_tile(&mut self, tile: Tile) -> (r: bool)
        requires
            old(self).wf(),
        ensures
            final(self).wf(),
            r ==> exists|i: int|
                0 <= i < HAND_SIZE && old(self).tiles@[i] == Some(tile) && final(self).tiles@
                    == old(self).tiles@.update(i, None::<Tile>) && (forall|j: int|
                    0 <= j < i ==> old(self).tiles@[j] != Some(tile)),
            !r ==> *final(self) == *old(self) && (forall|i: int|
                0 <= i < HAND_SIZE ==> old(self).tiles@[i] != Some(tile)),
    {
        self.swap_tile(Some(tile), None).is_ok()
    }
}

/// The tiles held in the filled slots, in slot order.
pub open spec fn filled_tiles(s: Seq<Option<Tile>>) -> Seq<Tile>
    decreases s.len(),
{
    if s.len() == 0 {
        Seq::empty()
    } else {
        filled_tiles(s.drop_last()) + match s.last() {
            Some(t) => seq![t],
            None => Seq::empty(),
        }
    }
}

} // verus!

verus! {

/// Represents a player's hand of tiles that is guaranteed to be full.
#[derive(Debug, Clone, PartialEq, Eq)]
pub struct FullHand {
    /// The six tiles of the hand.
    pub tiles: Vec<Tile>,
}

impl FullHand {
    /// A full hand always holds exactly six tiles.
    pub open spec fn wf(self) -> bool {
        self.tiles@.len() == HAND_SIZE
    }

    /// Attempts to swap a tile equal to `old_tile` with the provided
    /// `new_tile`. If the hand has more than one such tile, only the first
    /// is replaced; if none matches, the new tile is returned.
    pub fn swap_tile(&mut self, old_tile: Tile, new_tile: Tile) -> (r: Result<(), Tile>)
        requires
            old(self).wf(),
        ensures
            final(self).wf(),
            r is Ok ==> exists|i: int|
                0 <= i < HAND_SIZE && old(self).tiles@[i] == old_tile
                    && final(self).tiles@ == old(self).tiles@.update(i, new_tile) && (forall|
                    j: int,
                |
                    0 <= j < i ==> old(self).tiles@[j] != old_tile),
            r is Err ==> r == Err::<(), Tile>(new_tile) && *final(self) == *old(self) && (
            forall|i: int| 0 <= i < HAND_SIZE ==> old(self).tiles@[i] != old_tile),
    {
        let mut i: usize = 0;
        while i < HAND_SIZE
            invariant
                self.wf(),
                *self == *old(self),
                i <= HAND_SIZE,
                forall|j: int| 0 <= j < i ==> self.tiles@[j] != old_tile,
            decreases HAND_SIZE - i,
        {
            let slot = self.tiles[i];
            if slot.row == old_tile.row && slot.col == old_tile.col {
                self.tiles[i] = new_tile;
                return Ok(());
            }
            i += 1;
        }
        Err(new_tile)
    }

    /// The six tiles of the hand, in slot order.
    pub fn iter(&self) -> (r: Vec<Tile>)
        requires
            self.wf(),
        ensures
            r@ == self.tiles@,
    {
        let mut r: Vec<Tile> = Vec::new();
        let mut i: usize = 0;
        while i < HAND_SIZE
            invariant
                self.wf(),
                i <= HAND_SIZE,
                r@ == self.tiles@.take(i as int),
            decreases HAND_SIZE - i,
        {
            r.push(self.tiles[i]);
            proof {
                assert(r@ =~= self.tiles@.take(i as int + 1));
            }
            i += 1;
        }
        proof {
            assert(self.tiles@.take(HAND_SIZE as int) =~= self.tiles@);
        }
        r
    }

    /// Attempts to convert a [`Hand`] to a [`FullHand`]. On failure, the
    /// number of tiles in the hand is returned.
    pub fn try_from_hand(value: &Hand) -> (r: Result<FullHand, u8>)
        requires
            value.wf(),
        ensures
            r matches Ok(fh) ==> fh.wf() && fh.tiles@ == filled_tiles(value.tiles@) && (
            forall|i: int| 0 <= i < HAND_SIZE ==> value.tiles@[i] is Some),
            r matches Err(n) ==> n as int == Hand::count_filled(value.tiles@) && !(forall|
                i: int,
            | 0 <= i < HAND_SIZE ==> value.tiles@[i] is Some),
    {
        if value.is_full() {
            let mut tiles: Vec<Tile> = Vec::new();
            let mut i: usize = 0;
            while i < HAND_SIZE
                invariant
                    value.wf(),
                    i <= HAND_SIZE,
                    forall|j: int| 0 <= j < HAND_SIZE ==> value.tiles@[j] is Some,
                    tiles@ == filled_tiles(value.tiles@.take(i as int)),
                decreases HAND_SIZE - i,
            {
                proof {
                    assert(value.tiles@.take(i as int + 1).drop_last() =~= value.tiles@.take(
                        i as int,
                    ));
                }
                if let Some(t) = value.tiles[i] {
                    tiles.push(t);
                }
                i += 1;
            }
            proof {
                assert(value.tiles@.take(HAND_SIZE as int) =~= value.tiles@);
                lemma_filled_tiles_len(value.tiles@);
            }
            Ok(FullHand { tiles })
        } else {
            Err(value.len())
        }
    }
}

/// All slots filled make the filled-tile list as long as the slot list.
proof fn lemma_filled_tiles_len(s: Seq<Option<Tile>>)
    requires
        forall|i: int| 0 <= i < s.len() ==> s[i] is Some,
    ensures
        filled_tiles(s).len() == s.len(),
    decreases s.len(),
{
    if s.len() > 0 {
        lemma_filled_tiles_len(s.drop_last());
    }
}

/// A slot list whose first `d.len()` slots hold exactly the tiles of `d`
/// and whose remaining slots are empty holds exactly `d`.
proof fn lemma_filled_prefix(s: Seq<Option<Tile>>, d: Seq<Tile>)
    requires
        d.len() <= s.len(),
        forall|k: int| 0 <= k < d.len() ==> s[k] == Some(d[k]),
        forall|k: int| d.len() <= k < s.len() ==> s[k] is None,
    ensures
        filled_tiles(s) == d,
        Hand::count_filled(s) == d.len(),
    decreases s.len(),
{
    if s.len() == 0 {
        assert(filled_tiles(s) =~= d);
    } else if d.len() == s.len() {
        lemma_filled_prefix(s.drop_last(), d.drop_last());
        assert(filled_tiles(s) =~= d);
    } else {
        lemma_filled_prefix(s.drop_last(), d);
        assert(filled_tiles(s) =~= d);
    }
}

impl Hand {
    /// Creates a new hand by drawing tiles from a [`Boneyard`]: six draws
    /// are attempted, and what the draws took from the boneyard is exactly
    /// what the hand holds. If the boneyard runs out of tiles before the
    /// hand fills, [`Err`] with the partially filled [`Hand`] is returned
    /// instead, holding everything the boneyard could still supply.
    pub fn from_boneyard(boneyard: &mut Boneyard<Tile>) -> (r: Result<FullHand, Hand>)
        ensures
            r is Ok <==> old(boneyard).pool@.len() >= 6,
            r matches Ok(full) ==> full.wf()
                && final(boneyard).pool@.len() == old(boneyard).pool@.len() - 6
                && old(boneyard).pool@.to_multiset()
                == final(boneyard).pool@.to_multiset().add(full.tiles@.to_multiset()),
            r matches Err(h) ==> h.wf() && final(boneyard).pool@.len() == 0
                && Hand::count_filled(h.tiles@) == old(boneyard).pool@.len()
                && old(boneyard).pool@.to_multiset() == filled_tiles(h.tiles@).to_multiset(),
    {
        broadcast use vstd::seq_lib::group_to_multiset_ensures;
        broadcast use vstd::multiset::group_multiset_axioms;

        let mut hand = Hand::new();
        let ghost mut drawn: Seq<Tile> = Seq::empty();
        proof {
            assert(drawn.to_multiset() =~= vstd::multiset::Multiset::empty());
            assert(old(boneyard).pool@.to_multiset() =~= boneyard.pool@.to_multiset().add(
                drawn.to_multiset(),
            ));
        }
        let mut i: usize = 0;
        while i < HAND_SIZE
            invariant
                hand.wf(),
                i <= HAND_SIZE,
                drawn.len() == (if i as int <= old(boneyard).pool@.len() {
                    i as int
                } else {
                    old(boneyard).pool@.len() as int
                }),
                forall|k: int| 0 <= k < drawn.len() ==> hand.tiles@[k] == Some(drawn[k]),
                forall|k: int| drawn.len() <= k < HAND_SIZE ==> hand.tiles@[k] is None,
                boneyard.pool@.len() == old(boneyard).pool@.len() - drawn.len(),
                old(boneyard).pool@.to_multiset() == boneyard.pool@.to_multiset().add(
                    drawn.to_multiset(),
                ),
            decreases HAND_SIZE - i,
        {
            let ghost pre_pool = boneyard.pool@;
            let drawn_tile = boneyard.remove();
            proof {
                broadcast use vstd::seq_lib::group_to_multiset_ensures;
                broadcast use vstd::multiset::group_multiset_axioms;

                if let Some(t) = drawn_tile {
                    assert(drawn.len() < old(boneyard).pool@.len());
                    assert(drawn.len() == i as int);
                    assert(pre_pool.to_multiset() =~= boneyard.pool@.to_multiset().insert(
                        t,
                    ));
                    assert(old(boneyard).pool@.to_multiset()
                        =~= boneyard.pool@.to_multiset().add(drawn.push(t).to_multiset()));
                }
            }
            self_assign(&mut hand, i, drawn_tile);
            proof {
                if let Some(t) = drawn_tile {
                    drawn = drawn.push(t);
                }
            }
            i += 1;
        }
        proof {
            lemma_filled_prefix(hand.tiles@, drawn);
        }
        match FullHand::try_from_hand(&hand) {
            Ok(fh) => {
                proof {
                    assert(fh.tiles@ == drawn);
                }
                Ok(fh)
            },
            Err(_) => {
                proof {
                    assert(drawn.len() < 6);
                    assert(boneyard.pool@ =~= Seq::<Tile>::empty());
                    assert(boneyard.pool@.to_multiset() =~= vstd::multiset::Multiset::empty());
                    assert(old(boneyard).pool@.to_multiset() =~= drawn.to_multiset());
                }
                Err(hand)
            },
        }
    }
}

/// Writes one slot of a hand.
fn self_assign(hand: &mut Hand, i: usize, v: Option<Tile>)
    requires
        old(hand).wf(),
        i < HAND_SIZE,
    ensures
        final(hand).wf(),
        final(hand).tiles@ == old(hand).tiles@.update(i as int, v),
{
    hand.tiles[i] = v;
}

/// A collection from which items are removed at random.
#[derive(Debug)]
pub struct Boneyard<T> {
    /// The items not yet drawn.
    pub pool: Vec<T>,
}

/// Draws one value of the asked-for type from the thread's random number
/// generator. Relies on rand::random; nothing is promised of the result.
pub assume_specification<T>[ rand::random::<T> ]() -> (r: T)
    where rand::distributions::Standard: rand::distributions::Distribution<T>
;

impl<T> Boneyard<T> {
    /// A boneyard holding the given items.
    pub fn new(initial: Vec<T>) -> (r: Boneyard<T>)
        ensures
            r.pool == initial,
    {
        Boneyard { pool: initial }
    }

    /// Takes a value from the boneyard at a position chosen by the random
    /// number generator. Returns [`None`] if the boneyard is empty; each
    /// draw removes exactly the returned item, whichever position the
    /// generator picked.
    pub fn remove(&mut self) -> (r: Option<T>)
        ensures
            r is Some <==> old(self).pool@.len() > 0,
            r matches Some(v) ==> exists|i: int|
                0 <= i < old(self).pool@.len() && v == old(self).pool@[i]
                    && final(self).pool@ =~= old(self).pool@.update(
                    i,
                    old(self).pool@.last(),
                ).drop_last(),
            r matches Some(v) ==> final(self).pool@.len() == old(self).pool@.len() - 1
                && old(self).pool@.to_multiset() == final(self).pool@.to_multiset().insert(v),
            r is None ==> *final(self) == *old(self),
    {
        if self.pool.len() == 0 {
            return None;
        }
        let raw: usize = rand::random();
        let idx = raw % self.pool.len();
        let taken = self.pool.swap_remove(idx);
        proof {
            broadcast use vstd::multiset::group_multiset_axioms;

            assert(taken == old(self).pool@[idx as int]);
            lemma_swap_removed_multiset(old(self).pool@, idx as int);
            assert(old(self).pool@.to_multiset().count(taken) > 0) by {
                broadcast use vstd::seq_lib::group_to_multiset_ensures;

                assert(old(self).pool@.contains(taken));
            }
            assert(old(self).pool@.to_multiset() =~= final(self).pool@.to_multiset().insert(
                taken,
            ));
        }
        Some(taken)
    }
}

impl Tile {
    /// Creates the boneyard of every tile of the board: entry `k` is the
    /// `k`-th tile in row-major order, so each of the 108 tiles appears
    /// exactly once.
    pub fn boneyard() -> (r: Boneyard<Tile>)
        ensures
            r.pool@.len() == NUM_CELLS,
            forall|k: int|
                0 <= k < r.pool@.len() ==> (#[trigger] r.pool@[k]) == (Tile {
                    row: (1 + k / 9) as u8,
                    col: (FIRST_COL_BYTE + k % 9) as u8,
                }),
            forall|k: int| 0 <= k < r.pool@.len() ==> (#[trigger] r.pool@[k]).wf(),
            forall|t: Tile| t.wf() ==> #[trigger] r.pool@.contains(t),
    {
        full_boneyard()
    }
}

/// Creates the boneyard of every tile of the board, each appearing once in
/// row-major order.
fn full_boneyard() -> (r: Boneyard<Tile>)
    ensures
        r.pool@.len() == NUM_CELLS,
        forall|k: int|
            0 <= k < r.pool@.len() ==> (#[trigger] r.pool@[k]) == (Tile {
                row: (1 + k / 9) as u8,
                col: (FIRST_COL_BYTE + k % 9) as u8,
            }),
        forall|k: int| 0 <= k < r.pool@.len() ==> (#[trigger] r.pool@[k]).wf(),
        forall|t: Tile| t.wf() ==> #[trigger] r.pool@.contains(t),
{
    let mut pool: Vec<Tile> = Vec::new();
    let mut row: u8 = 1;
    while row <= NUM_ROWS
        invariant
            1 <= row <= NUM_ROWS + 1,
            pool@.len() == (row - 1) * 9,
            forall|k: int|
                0 <= k < pool@.len() ==> (#[trigger] pool@[k]) == (Tile {
                    row: (1 + k / 9) as u8,
                    col: (FIRST_COL_BYTE + k % 9) as u8,
                }),
            forall|k: int| 0 <= k < pool@.len() ==> (#[trigger] pool@[k]).wf(),
        decreases NUM_ROWS + 1 - row,
    {
        let mut col: u8 = FIRST_COL_BYTE;
        while col <= LAST_COL_BYTE
            invariant
                1 <= row <= NUM_ROWS,
                FIRST_COL_BYTE <= col <= LAST_COL_BYTE + 1,
                pool@.len() == (row - 1) * 9 + (col - FIRST_COL_BYTE),
                forall|k: int|
                    0 <= k < pool@.len() ==> (#[trigger] pool@[k]) == (Tile {
                        row: (1 + k / 9) as u8,
                        col: (FIRST_COL_BYTE + k % 9) as u8,
                    }),
                forall|k: int| 0 <= k < pool@.len() ==> (#[trigger] pool@[k]).wf(),
            decreases LAST_COL_BYTE + 1 - col,
        {
            proof {
                let n = pool@.len() as int;
                vstd::arithmetic::div_mod::lemma_fundamental_div_mod_converse(
                    n,
                    9,
                    row - 1,
                    col - FIRST_COL_BYTE,
                );
            }
            pool.push(Tile { row, col });
            col += 1;
        }
        row += 1;
    }
    proof {
        assert forall|t: Tile| t.wf() implies #[trigger] pool@.contains(t) by {
            let k = t.index();
            lemma_tile_index_bounds(t);
            vstd::arithmetic::div_mod::lemma_fundamental_div_mod_converse(
                k,
                9,
                t.row - 1,
                t.col - FIRST_COL_BYTE,
            );
            assert(pool@[k] == t);
        }
    }
    Boneyard { pool }
}

} // verus!

verus! {

use vstd::multiset::Multiset;

/// Taking the element at `i` out by moving the last element into its place
/// removes exactly that element, as a multiset.
proof fn lemma_swap_removed_multiset<T>(s: Seq<T>, i: int)
    requires
        0 <= i < s.len(),
    ensures
        s.update(i, s.last()).drop_last().to_multiset() == s.to_multiset().remove(s[i]),
{
    broadcast use vstd::multiset::group_multiset_axioms;

    vstd::seq_lib::to_multiset_remove(s, i);
    if i == s.len() - 1 {
        assert(s.update(i, s.last()).drop_last() =~= s.remove(i));
    } else {
        let a = s.subrange(0, i);
        let mid = s.subrange(i + 1, s.len() - 1);
        let t = s.update(i, s.last()).drop_last();
        assert(t =~= a + (seq![s.last()] + mid));
        assert(s.remove(i) =~= a + (mid + seq![s.last()]));
        vstd::seq_lib::lemma_multiset_commutative(a, seq![s.last()] + mid);
        vstd::seq_lib::lemma_multiset_commutative(seq![s.last()], mid);
        vstd::seq_lib::lemma_multiset_commutative(a, mid + seq![s.last()]);
        vstd::seq_lib::lemma_multiset_commutative(mid, seq![s.last()]);
        assert(t.to_multiset() =~= s.remove(i).to_multiset());
    }
}

} // verus!
