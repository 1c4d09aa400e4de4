//! Decoding the text commands a player types into engine actions.

use vstd::prelude::*;

use crate::company::{spec_parse_company, Company};
use crate::messages::{Merge, PlayerAction, TilePlacement, TilePlacementImplication};
use crate::text::string_of_range;
use crate::tile::{find_char, lemma_find_char, spec_parse_tile, Tile};

verus! {

/// The words of `s`, split at every single space, as `split(" ")` yields
/// them: consecutive spaces give empty words, and there is always at least
/// one word.
pub open spec fn split_spaces(s: Seq<char>) -> Seq<Seq<char>>
    decreases s.len(),
{
    let i = find_char(s, ' ');
    if i < 0 || i >= s.len() {
        seq![s]
    } else {
        seq![s.subrange(0, i)] + split_spaces(s.subrange(i + 1, s.len() as int))
    }
}

/// Splitting yields at least one word.
pub proof fn lemma_split_spaces_len(s: Seq<char>)
    ensures
        split_spaces(s).len() >= 1,
    decreases s.len(),
{
    lemma_find_char(s, ' ');
    if find_char(s, ' ') < s.len() {
        lemma_split_spaces_len(s.subrange(find_char(s, ' ') + 1, s.len() as int));
    }
}

/// Splits a string into its single-space-separated words.
fn split_words(s: &str) -> (ws: Vec<String>)
    ensures
        ws@.len() == split_spaces(s@).len(),
        forall|i: int| 0 <= i < ws@.len() ==> (#[trigger] ws@[i])@ == split_spaces(s@)[i],
        ws@.len() >= 1,
{
    let v = crate::text::chars_vec(s);
    let r = split_range(&v, 0);
    proof {
        assert(v@.subrange(0, v@.len() as int) =~= s@);
        lemma_split_spaces_len(s@);
    }
    r
}

/// Splits the suffix of `v` starting at `from` into its words.
fn split_range(v: &Vec<char>, from: usize) -> (ws: Vec<String>)
    requires
        from <= v@.len(),
    ensures
        ({
            let tail = v@.subrange(from as int, v@.len() as int);
            &&& ws@.len() == split_spaces(tail).len()
            &&& forall|i: int|
                0 <= i < ws@.len() ==> (#[trigger] ws@[i])@ == split_spaces(tail)[i]
        }),
    decreases v@.len() - from,
{
    let ghost tail = v@.subrange(from as int, v@.len() as int);
    let n = v.len();
    let mut j: usize = from;
    while j < n && v[j] != ' '
        invariant
            from <= j <= n,
            n == v@.len(),
            forall|k: int| from <= k < j ==> v@[k] != ' ',
        decreases n - j,
    {
        j += 1;
    }
    proof {
        lemma_find_char(tail, ' ');
        assert forall|k: int| 0 <= k < tail.len() implies tail[k] == v@[from + k] by {}
        if j < n {
            assert(tail[j - from] == ' ');
            assert(find_char(tail, ' ') == j - from);
        } else {
            assert(forall|k: int| 0 <= k < tail.len() ==> tail[k] != ' ');
            assert(find_char(tail, ' ') == tail.len());
        }
    }
    if j == n {
        let word = string_of_range(v, from, n);
        let mut ws: Vec<String> = Vec::new();
        ws.push(word);
        proof {
            assert(split_spaces(tail) =~= seq![tail]);
            assert(ws@[0]@ =~= tail);
        }
        ws
    } else {
        let word = string_of_range(v, from, j);
        let rest = split_range(v, j + 1);
        let mut ws: Vec<String> = Vec::new();
        ws.push(word);
        let mut k: usize = 0;
        let rest_len = rest.len();
        while k < rest_len
            invariant
                k <= rest_len,
                rest_len == rest@.len(),
                ws@.len() == k + 1,
                ws@[0] == word,
                forall|i: int| 0 <= i < k ==> ws@[i + 1] == rest@[i],
            decreases rest_len - k,
        {
            let w = rest[k].clone();
            ws.push(w);
            k += 1;
        }
        proof {
            let next_tail = v@.subrange(j as int + 1, v@.len() as int);
            assert(next_tail =~= tail.subrange(find_char(tail, ' ') + 1, tail.len() as int));
            assert(word@ =~= tail.subrange(0, find_char(tail, ' ')));
            assert forall|i: int|
                0 <= i < ws@.len() implies (#[trigger] ws@[i])@ == split_spaces(tail)[i] by {
                if i > 0 {
                    assert(ws@[i] == rest@[i - 1]);
                }
            }
        }
        ws
    }
}

} // verus!

verus! {

use crate::tile::spec_parse_u8;

/// Why a text command failed to decode.
#[derive(Debug, Clone, PartialEq, Eq)]
pub enum CommandParseErr {
    /// The command held no input at all.
    EmptyInput,
    /// Something was missing or took an unexpected form.
    Expected(&'static str),
    /// The same argument appeared twice.
    DuplicateArgument(String),
}

/// The shape of a command-decode failure: what was expected, or which
/// argument was doubled.
pub enum CommandIssue {
    /// Something was missing or took an unexpected form.
    Expected(Seq<char>),
    /// The same argument appeared twice.
    Duplicate(Seq<char>),
}

/// The error value reports the issue the spec assigns to the command.
pub open spec fn command_errors_match(e: CommandParseErr, i: CommandIssue) -> bool {
    match (e, i) {
        (CommandParseErr::Expected(msg), CommandIssue::Expected(want)) => msg@ == want,
        (CommandParseErr::DuplicateArgument(d), CommandIssue::Duplicate(w)) => d@ == w,
        _ => false,
    }
}

/// Walks the words of a merge clause up to the word `"into"`, reading each
/// earlier word as a defunct company. Yields the companies and the index
/// of `"into"`.
pub open spec fn spec_merge_words(ws: Seq<Seq<char>>, i: int, acc: Seq<Company>) -> Result<
    (Seq<Company>, int),
    CommandIssue,
>
    decreases ws.len() - i,
{
    if i < 0 || i >= ws.len() {
        Err(CommandIssue::Expected("into"@))
    } else if ws[i] == "into"@ {
        Ok((acc, i))
    } else {
        match spec_parse_company(ws[i]) {
            None => Err(CommandIssue::Expected("company"@)),
            Some(c) => spec_merge_words(ws, i + 1, acc.push(c)),
        }
    }
}

/// The merge descriptor a defunct list and survivor denote.
pub open spec fn spec_merge_of(ds: Seq<Company>, into: Company) -> Merge {
    Merge {
        defunct_first: Some(ds[0]),
        defunct_second: if ds.len() >= 2 {
            Some(ds[1])
        } else {
            None
        },
        defunct_third: if ds.len() >= 3 {
            Some(ds[2])
        } else {
            None
        },
        into,
    }
}

/// The action a `play` command denotes.
pub open spec fn spec_play_command(ws: Seq<Seq<char>>) -> Result<PlayerAction, CommandIssue> {
    if ws.len() < 2 {
        Err(CommandIssue::Expected("tile"@))
    } else {
        match crate::tile::spec_parse_tile(ws[1]) {
            Err(_) => Err(CommandIssue::Expected("tile"@)),
            Ok(tile) => if ws.len() == 2 {
                Ok(
                    PlayerAction::PlayTile {
                        placement: TilePlacement { tile, implication: None },
                    },
                )
            } else if ws[2] == "founding"@ {
                if ws.len() < 4 {
                    Err(CommandIssue::Expected("company"@))
                } else {
                    match spec_parse_company(ws[3]) {
                        None => Err(CommandIssue::Expected("company"@)),
                        Some(c) => Ok(
                            PlayerAction::PlayTile {
                                placement: TilePlacement {
                                    tile,
                                    implication: Some(
                                        TilePlacementImplication::FoundsCompany(c),
                                    ),
                                },
                            },
                        ),
                    }
                }
            } else if ws[2] == "merging"@ {
                match spec_merge_words(ws, 3, Seq::empty()) {
                    Err(e) => Err(e),
                    Ok((ds, j)) => if j + 1 >= ws.len() {
                        Err(CommandIssue::Expected("company"@))
                    } else {
                        match spec_parse_company(ws[j + 1]) {
                            None => Err(CommandIssue::Expected("company"@)),
                            Some(into) => if 1 <= ds.len() <= 3 {
                                Ok(
                                    PlayerAction::PlayTile {
                                        placement: TilePlacement {
                                            tile,
                                            implication: Some(
                                                TilePlacementImplication::MergesCompanies(
                                                    spec_merge_of(ds, into),
                                                ),
                                            ),
                                        },
                                    },
                                )
                            } else {
                                Err(CommandIssue::Expected("company"@))
                            },
                        }
                    },
                }
            } else {
                Err(CommandIssue::Expected("\"founding\" or \"merging\""@))
            },
        }
    }
}

/// One chosen share of a `buy` command: absent, a company, or an error.
pub open spec fn spec_buy_word(ws: Seq<Seq<char>>, i: int) -> Result<
    Option<Company>,
    CommandIssue,
> {
    if i >= ws.len() {
        Ok(None)
    } else {
        match spec_parse_company(ws[i]) {
            None => Err(CommandIssue::Expected("company"@)),
            Some(c) => Ok(Some(c)),
        }
    }
}

/// The action a `buy` command denotes.
pub open spec fn spec_buy_command(ws: Seq<Seq<char>>) -> Result<PlayerAction, CommandIssue> {
    match spec_buy_word(ws, 1) {
        Err(e) => Err(e),
        Ok(first) => match spec_buy_word(ws, 2) {
            Err(e) => Err(e),
            Ok(second) => match spec_buy_word(ws, 3) {
                Err(e) => Err(e),
                Ok(third) => Ok(PlayerAction::BuyStock { first, second, third }),
            },
        },
    }
}

/// One keyword-count pair of a `resolve` command, laid on top of the
/// amounts read so far.
pub open spec fn spec_resolve_round(
    ws: Seq<Seq<char>>,
    base: int,
    sell: Option<u8>,
    trade: Option<u8>,
    keep: Option<u8>,
) -> Result<(Option<u8>, Option<u8>, Option<u8>), CommandIssue> {
    if base >= ws.len() {
        Err(CommandIssue::Expected("\"trade\", \"sell\", or \"keep\""@))
    } else if base + 1 >= ws.len() {
        Err(CommandIssue::Expected("integer"@))
    } else {
        match spec_parse_u8(ws[base + 1]) {
            None => Err(CommandIssue::Expected("integer"@)),
            Some(n) => if ws[base] == "sell"@ {
                if sell is Some {
                    Err(CommandIssue::Duplicate("sell"@))
                } else {
                    Ok((Some(n as u8), trade, keep))
                }
            } else if ws[base] == "trade"@ {
                if trade is Some {
                    Err(CommandIssue::Duplicate("trade"@))
                } else {
                    Ok((sell, Some(n as u8), keep))
                }
            } else if ws[base] == "keep"@ {
                if keep is Some {
                    Err(CommandIssue::Duplicate("keep"@))
                } else {
                    Ok((sell, trade, Some(n as u8)))
                }
            } else {
                Err(CommandIssue::Expected("\"trade\", \"sell\", or \"keep\""@))
            },
        }
    }
}

/// The action a `resolve` command denotes: three keyword-count pairs, one
/// each of `sell`, `trade` and `keep`, in any order.
pub open spec fn spec_resolve_command(ws: Seq<Seq<char>>) -> Result<PlayerAction, CommandIssue> {
    match spec_resolve_round(ws, 1, None, None, None) {
        Err(e) => Err(e),
        Ok((s1, t1, k1)) => match spec_resolve_round(ws, 3, s1, t1, k1) {
            Err(e) => Err(e),
            Ok((s2, t2, k2)) => match spec_resolve_round(ws, 5, s2, t2, k2) {
                Err(e) => Err(e),
                Ok((s3, t3, k3)) => match (s3, t3, k3) {
                    (Some(selling), Some(trading), Some(keeping)) => Ok(
                        PlayerAction::ResolveMergeStock { selling, trading, keeping },
                    ),
                    _ => Err(CommandIssue::Expected("\"trade\", \"sell\", or \"keep\""@)),
                },
            },
        },
    }
}

/// The action a whole text command denotes.
pub open spec fn spec_parse_game_command(s: Seq<char>) -> Result<PlayerAction, CommandIssue> {
    let ws = split_spaces(s);
    if ws[0] == "play"@ {
        spec_play_command(ws)
    } else if ws[0] == "buy"@ {
        spec_buy_command(ws)
    } else if ws[0] == "resolve"@ {
        spec_resolve_command(ws)
    } else {
        Err(CommandIssue::Expected("\"play\", \"buy\", or \"resolve\""@))
    }
}

} // verus!

verus! {

use crate::kernel::kernel::str_eq;
use crate::messages::AdminCommand;
use crate::text::parse_u8_str;

impl CommandParseErr {
    /// The words a command keyword may be, quoted for the error message.
    pub open spec fn keyword_message() -> Seq<char> {
        "\"trade\", \"sell\", or \"keep\""@
    }
}

/// Reads the words of a merge clause up to `"into"` as defunct companies.
fn parse_merge_clause(
    ws: &Vec<String>,
    Ghost(wsv): Ghost<Seq<Seq<char>>>,
    tile: Tile,
) -> (r: Result<PlayerAction, CommandParseErr>)
    requires
        ws@.len() == wsv.len(),
        ws@.len() >= 3,
        forall|i: int| 0 <= i < ws@.len() ==> (#[trigger] ws@[i])@ == wsv[i],
    ensures
        ({
            let sp = match spec_merge_words(wsv, 3, Seq::empty()) {
                Err(e) => Err(e),
                Ok((ds, j)) => if j + 1 >= wsv.len() {
                    Err(CommandIssue::Expected("company"@))
                } else {
                    match spec_parse_company(wsv[j + 1]) {
                        None => Err(CommandIssue::Expected("company"@)),
                        Some(into) => if 1 <= ds.len() <= 3 {
                            Ok(
                                PlayerAction::PlayTile {
                                    placement: TilePlacement {
                                        tile,
                                        implication: Some(
                                            TilePlacementImplication::MergesCompanies(
                                                spec_merge_of(ds, into),
                                            ),
                                        ),
                                    },
                                },
                            )
                        } else {
                            Err(CommandIssue::Expected("company"@))
                        },
                    }
                },
            };
            match r {
                Ok(a) => sp == Ok::<PlayerAction, CommandIssue>(a),
                Err(e) => sp matches Err(i) && command_errors_match(e, i),
            }
        }),
{
    let n = ws.len();
    let mut defunct: Vec<Company> = Vec::new();
    let mut i: usize = 3;
    let mut found = false;
    while i < n && !found
        invariant
            n == ws@.len(),
            n == wsv.len(),
            forall|k: int| 0 <= k < ws@.len() ==> (#[trigger] ws@[k])@ == wsv[k],
            3 <= i <= n,
            spec_merge_words(wsv, 3, Seq::empty()) == spec_merge_words(
                wsv,
                i as int,
                defunct@,
            ),
            found ==> i < n && wsv[i as int] == "into"@,
        decreases n - i, (if found {
            0int
        } else {
            1int
        }),
    {
        if str_eq(ws[i].as_str(), "into") {
            found = true;
        } else {
            match Company::parse(ws[i].as_str()) {
                Err(_) => {
                    return Err(CommandParseErr::Expected("company"));
                },
                Ok(c) => {
                    defunct.push(c);
                    i += 1;
                },
            }
        }
    }
    if !found {
        return Err(CommandParseErr::Expected("into"));
    }
    proof {
        assert(spec_merge_words(wsv, i as int, defunct@) == Ok::<
            (Seq<Company>, int),
            CommandIssue,
        >((defunct@, i as int)));
    }
    if i + 1 >= n {
        return Err(CommandParseErr::Expected("company"));
    }
    let into = match Company::parse(ws[i + 1].as_str()) {
        Err(_) => {
            return Err(CommandParseErr::Expected("company"));
        },
        Ok(c) => c,
    };
    if defunct.len() < 1 || defunct.len() > 3 {
        return Err(CommandParseErr::Expected("company"));
    }
    let merge = Merge::new(&defunct, into);
    Ok(
        PlayerAction::PlayTile {
            placement: TilePlacement {
                tile,
                implication: Some(TilePlacementImplication::MergesCompanies(merge)),
            },
        },
    )
}

/// Reads one keyword-count pair of a `resolve` command.
fn parse_resolve_round(
    ws: &Vec<String>,
    Ghost(wsv): Ghost<Seq<Seq<char>>>,
    base: usize,
    amounts: (Option<u8>, Option<u8>, Option<u8>),
) -> (r: Result<(Option<u8>, Option<u8>, Option<u8>), CommandParseErr>)
    requires
        ws@.len() == wsv.len(),
        forall|i: int| 0 <= i < ws@.len() ==> (#[trigger] ws@[i])@ == wsv[i],
    ensures
        ({
            let sp = spec_resolve_round(wsv, base as int, amounts.0, amounts.1, amounts.2);
            match r {
                Ok(a) => sp == Ok::<(Option<u8>, Option<u8>, Option<u8>), CommandIssue>(a),
                Err(e) => sp matches Err(i) && command_errors_match(e, i),
            }
        }),
{
    let (sell, trade, keep) = amounts;
    let n = ws.len();
    if base >= n {
        return Err(CommandParseErr::Expected("\"trade\", \"sell\", or \"keep\""));
    }
    if base + 1 >= n {
        return Err(CommandParseErr::Expected("integer"));
    }
    let count = match parse_u8_str(ws[base + 1].as_str()) {
        None => {
            return Err(CommandParseErr::Expected("integer"));
        },
        Some(c) => c,
    };
    if str_eq(ws[base].as_str(), "sell") {
        if sell.is_some() {
            Err(CommandParseErr::DuplicateArgument("sell".to_owned()))
        } else {
            Ok((Some(count), trade, keep))
        }
    } else if str_eq(ws[base].as_str(), "trade") {
        if trade.is_some() {
            Err(CommandParseErr::DuplicateArgument("trade".to_owned()))
        } else {
            Ok((sell, Some(count), keep))
        }
    } else if str_eq(ws[base].as_str(), "keep") {
        if keep.is_some() {
            Err(CommandParseErr::DuplicateArgument("keep".to_owned()))
        } else {
            Ok((sell, trade, Some(count)))
        }
    } else {
        Err(CommandParseErr::Expected("\"trade\", \"sell\", or \"keep\""))
    }
}

/// Decodes a text command into a [`PlayerAction`]: `play <tile>` with an
/// optional `founding <company>` or `merging <companies> into <company>`
/// clause, `buy` with up to three companies, or `resolve` with `sell`,
/// `trade` and `keep` counts in any order.
pub fn parse_game_command(command: &str) -> (r: Result<PlayerAction, CommandParseErr>)
    ensures
        r matches Ok(a) ==> spec_parse_game_command(command@) == Ok::<
            PlayerAction,
            CommandIssue,
        >(a),
        r matches Err(e) ==> spec_parse_game_command(command@) matches Err(i)
            && command_errors_match(e, i),
{
    let ws = split_words(command);
    let ghost wsv = split_spaces(command@);
    let n = ws.len();

    if str_eq(ws[0].as_str(), "play") {
        if n < 2 {
            return Err(CommandParseErr::Expected("tile"));
        }
        let tile = match Tile::parse(ws[1].as_str()) {
            Err(_) => {
                return Err(CommandParseErr::Expected("tile"));
            },
            Ok(t) => t,
        };
        if n == 2 {
            Ok(PlayerAction::PlayTile { placement: TilePlacement { tile, implication: None } })
        } else if str_eq(ws[2].as_str(), "founding") {
            if n < 4 {
                return Err(CommandParseErr::Expected("company"));
            }
            match Company::parse(ws[3].as_str()) {
                Err(_) => Err(CommandParseErr::Expected("company")),
                Ok(c) => Ok(
                    PlayerAction::PlayTile {
                        placement: TilePlacement {
                            tile,
                            implication: Some(TilePlacementImplication::FoundsCompany(c)),
                        },
                    },
                ),
            }
        } else if str_eq(ws[2].as_str(), "merging") {
            parse_merge_clause(&ws, Ghost(wsv), tile)
        } else {
            Err(CommandParseErr::Expected("\"founding\" or \"merging\""))
        }
    } else if str_eq(ws[0].as_str(), "buy") {
        let mut stock: [Option<Company>; 3] = [None, None, None];
        let mut slot: usize = 0;
        while slot < 3 && slot + 1 < n
            invariant
                n == ws@.len(),
                n == wsv.len(),
                wsv == split_spaces(command@),
                wsv.len() >= 1,
                wsv[0] == "buy"@,
                wsv[0] != "play"@,
                forall|k: int| 0 <= k < ws@.len() ==> (#[trigger] ws@[k])@ == wsv[k],
                slot <= 3,
                forall|k: int|
                    0 <= k < 3 ==> (#[trigger] stock@[k]) == (if k < slot {
                        match spec_buy_word(wsv, k + 1) {
                            Ok(c) => c,
                            Err(_) => None,
                        }
                    } else {
                        None::<Company>
                    }),
                forall|k: int| 1 <= k <= slot ==> (#[trigger] spec_buy_word(wsv, k)) is Ok,
            decreases 3 - slot,
        {
            match Company::parse(ws[slot + 1].as_str()) {
                Err(_) => {
                    proof {
                        assert(ws@[slot as int + 1]@ == wsv[slot as int + 1]);
                        if slot >= 1 {
                            assert(spec_buy_word(wsv, 1) is Ok);
                        }
                        if slot >= 2 {
                            assert(spec_buy_word(wsv, 2) is Ok);
                        }
                        assert(spec_buy_word(wsv, slot as int + 1) == Err::<
                            Option<Company>,
                            CommandIssue,
                        >(CommandIssue::Expected("company"@)));
                    }
                    return Err(CommandParseErr::Expected("company"));
                },
                Ok(c) => {
                    stock[slot] = Some(c);
                },
            }
            slot += 1;
        }
        proof {
            assert forall|k: int|
                0 <= k < 3 implies (#[trigger] spec_buy_word(wsv, k + 1)) matches Ok(c) && c
                == stock@[k] by {}
        }
        Ok(PlayerAction::BuyStock { first: stock[0], second: stock[1], third: stock[2] })
    } else if str_eq(ws[0].as_str(), "resolve") {
        let amounts = match parse_resolve_round(&ws, Ghost(wsv), 1, (None, None, None)) {
            Err(e) => {
                return Err(e);
            },
            Ok(a) => a,
        };
        let amounts = match parse_resolve_round(&ws, Ghost(wsv), 3, amounts) {
            Err(e) => {
                return Err(e);
            },
            Ok(a) => a,
        };
        let amounts = match parse_resolve_round(&ws, Ghost(wsv), 5, amounts) {
            Err(e) => {
                return Err(e);
            },
            Ok(a) => a,
        };
        match amounts {
            (Some(selling), Some(trading), Some(keeping)) => Ok(
                PlayerAction::ResolveMergeStock { selling, trading, keeping },
            ),
            _ => Err(CommandParseErr::Expected("\"trade\", \"sell\", or \"keep\"")),
        }
    } else {
        Err(CommandParseErr::Expected("\"play\", \"buy\", or \"resolve\""))
    }
}

/// What an admin command denotes: one of the fixed words, or `kick` with
/// the name that follows the first space.
pub open spec fn spec_parse_admin(s: Seq<char>) -> Result<Seq<char>, CommandIssue> {
    if s == "shutdown"@ || s == "silencechat"@ || s == "start"@ || s == "end"@ {
        Ok(s)
    } else if find_char(s, ' ') >= s.len() {
        if s == "kick"@ {
            Err(CommandIssue::Expected("player name"@))
        } else {
            Err(
                CommandIssue::Expected(
                    "\"shutdown\", \"silencechat\", \"start\", \"end\", or \"kick\""@,
                ),
            )
        }
    } else {
        Ok(s.subrange(find_char(s, ' ') + 1, s.len() as int))
    }
}

/// Decodes an administrative command: `shutdown`, `silencechat`, `start`,
/// `end`, or a command with a space, whose tail names a player to kick.
pub fn parse_admin_command(command: &str) -> (r: Result<AdminCommand, CommandParseErr>)
    ensures
        r matches Ok(a) ==> spec_parse_admin(command@) matches Ok(w) && (match a {
            AdminCommand::Shutdown => w == "shutdown"@,
            AdminCommand::SilenceChat => w == "silencechat"@,
            AdminCommand::StartGame => w == "start"@,
            AdminCommand::EndGame => w == "end"@,
            AdminCommand::Kick { player_name } => player_name@ == w,
        }),
        r matches Err(e) ==> spec_parse_admin(command@) matches Err(i)
            && command_errors_match(e, i),
{
    if str_eq(command, "shutdown") {
        return Ok(AdminCommand::Shutdown);
    }
    if str_eq(command, "silencechat") {
        return Ok(AdminCommand::SilenceChat);
    }
    if str_eq(command, "start") {
        return Ok(AdminCommand::StartGame);
    }
    if str_eq(command, "end") {
        return Ok(AdminCommand::EndGame);
    }
    let v = crate::text::chars_vec(command);
    let len = v.len();
    let mut j: usize = 0;
    while j < len && v[j] != ' '
        invariant
            len == v@.len(),
            v@ == command@,
            j <= len,
            forall|k: int| 0 <= k < j ==> v@[k] != ' ',
        decreases len - j,
    {
        j += 1;
    }
    proof {
        lemma_find_char(command@, ' ');
        if j < len {
            assert(find_char(command@, ' ') == j);
        } else {
            assert(find_char(command@, ' ') == len);
        }
    }
    if j == len {
        if str_eq(command, "kick") {
            Err(CommandParseErr::Expected("player name"))
        } else {
            Err(
                CommandParseErr::Expected(
                    "\"shutdown\", \"silencechat\", \"start\", \"end\", or \"kick\"",
                ),
            )
        }
    } else {
        let player_name = string_of_range(&v, j + 1, len);
        Ok(AdminCommand::Kick { player_name })
    }
}

} // verus!
