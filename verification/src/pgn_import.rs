use vstd::prelude::*;
use vstd::string::StringExecFns;

use crate::board::{Board, Color, Coord, Piece};
use crate::moves::Move;
use crate::pgn_decode::{move_tokens, movetext_of, result_token, string_views, tokenize_movetext, words_spec};
use crate::pgn_encode::{decimal, push_decimal};
use crate::san_move::{parse_san_spec, parse_san_token, resolve_move, resolves_to};
use crate::text::{chars_of, push_char};

verus! {

/// Why a PGN game could not be imported: the text holds no move; or the
/// move with the given number (counted from 1) cannot be read, fits no legal
/// move or several, or was refused by the engine. The token is the move as
/// it stands in the text.
#[derive(Debug, PartialEq)]
pub enum ImportError {
    NoMoves,
    Unreadable(usize, String),
    IllegalOrAmbiguous(usize, String),
    Rejected(usize, String),
}

/// `Move <number><what>: "<token>"`.
pub open spec fn quoted_move(number: nat, what: Seq<char>, token: Seq<char>) -> Seq<char> {
    "Move "@ + decimal(number) + what + ": \""@ + token + "\""@
}

impl ImportError {
    /// The message shown for the error.
    pub open spec fn message_spec(&self) -> Seq<char> {
        match self {
            ImportError::NoMoves => "No moves found in this PGN."@,
            ImportError::Unreadable(n, t) => quoted_move(*n as nat, " unreadable"@, t@),
            ImportError::IllegalOrAmbiguous(n, t) => quoted_move(*n as nat, " illegal or ambiguous"@, t@),
            ImportError::Rejected(n, t) => quoted_move(*n as nat, " rejected by the engine"@, t@),
        }
    }

    /// The message shown for the error (see [`Self::message_spec`]).
    pub fn message(&self) -> (m: String)
        ensures
            m@ == self.message_spec(),
    {
        match self {
            ImportError::NoMoves => {
                let mut m = String::new();
                m.append("No moves found in this PGN.");
                m
            },
            ImportError::Unreadable(n, t) => quote_move(*n, " unreadable", t),
            ImportError::IllegalOrAmbiguous(n, t) => quote_move(*n, " illegal or ambiguous", t),
            ImportError::Rejected(n, t) => quote_move(*n, " rejected by the engine", t),
        }
    }
}

fn quote_move(number: usize, what: &str, token: &String) -> (m: String)
    ensures
        m@ == quoted_move(number as nat, what@, token@),
{
    let mut m = String::new();
    m.append("Move ");
    push_decimal(&mut m, number as u64);
    m.append(what);
    m.append(": \"");
    m.append(token.as_str());
    m.append("\"");
    m
}

/// The start of an import: the move tokens and the result token of the PGN
/// text (as [`tokenize_movetext`] gives them), or [`ImportError::NoMoves`]
/// when there is no move token.
pub fn import_tokens(pgn: &str) -> (r: Result<(Vec<String>, Option<String>), ImportError>)
    ensures
        r is Err <==> move_tokens(words_spec(movetext_of(pgn@))).len() == 0,
        r matches Err(e) ==> e is NoMoves,
        r matches Ok((ts, res)) ==> {
            &&& string_views(ts@) == move_tokens(words_spec(movetext_of(pgn@)))
            &&& match res {
                Some(x) => result_token(words_spec(movetext_of(pgn@))) == Some(x@),
                None => result_token(words_spec(movetext_of(pgn@))).is_none(),
            }
        },
{
    let (tokens, result) = tokenize_movetext(pgn);
    if tokens.len() == 0 {
        return Err(ImportError::NoMoves);
    }
    Ok((tokens, result))
}

/// One move of an import: `token`, the move at `index` (from 0) of the game,
/// read as SAN and matched against the legal moves `legal_moves` of `board`.
/// It gives the origin, the destination and the promotion to play, or the
/// error naming the move by its number, `index + 1`: unreadable when the
/// token is no SAN move, illegal or ambiguous when no legal move or several
/// fit it.
pub fn import_move(index: usize, token: &String, board: &Board, legal_moves: &Vec<Move>) -> (r: Result<
    (Coord, Coord, Option<Piece>),
    ImportError,
>)
    requires
        index < usize::MAX,
        forall|i: int| 0 <= i < legal_moves@.len() ==> (#[trigger] legal_moves@[i]).origin.on_board(),
    ensures
        match parse_san_spec(token@) {
            None => r matches Err(ImportError::Unreadable(n, t)) && n == index + 1 && t@ == token@,
            Some(san) => match r {
                Ok((o, d, p)) => resolves_to(*board, legal_moves@, san, Some((o, d))) && p == san.promotion,
                Err(e) => resolves_to(*board, legal_moves@, san, None) && (e matches ImportError::IllegalOrAmbiguous(
                    n,
                    t,
                ) && n == index + 1 && t@ == token@),
            },
        },
{
    let number = index + 1;
    let san = match parse_san_token(token.as_str()) {
        Some(san) => san,
        None => return Err(ImportError::Unreadable(number, token.clone())),
    };
    match resolve_move(board, legal_moves, &san) {
        Some((o, d)) => Ok((o, d, san.promotion)),
        None => Err(ImportError::IllegalOrAmbiguous(number, token.clone())),
    }
}

/// The error for the move at `index` (from 0) that the engine refused.
pub fn import_rejected(index: usize, token: &String) -> (e: ImportError)
    requires
        index < usize::MAX,
    ensures
        e matches ImportError::Rejected(n, t) && n == index + 1 && t@ == token@,
{
    ImportError::Rejected(index + 1, token.clone())
}

/// `s` without its trailing `!` and `?` marks.
pub open spec fn trim_annotations(s: Seq<char>) -> Seq<char>
    decreases s.len(),
{
    if s.len() > 0 && (s.last() == '!' || s.last() == '?') {
        trim_annotations(s.drop_last())
    } else {
        s
    }
}

/// What an imported move adds to the move text: the move number and `". "`
/// before a White move, the token without its `!` and `?` marks, and a space.
pub open spec fn imported_entry(active_player: Color, turn: u32, token: Seq<char>) -> Seq<char> {
    (if active_player == Color::White {
        decimal(turn as nat) + seq!['.', ' ']
    } else {
        Seq::empty()
    }) + trim_annotations(token) + seq![' ']
}

/// Writes an imported move into the move text `history_san` (see
/// [`imported_entry`]); `active_player` and `turn` are those of the position
/// the move was played from.
pub fn import_record(history_san: &mut String, active_player: Color, turn: u32, token: &String)
    ensures
        final(history_san)@ == old(history_san)@ + imported_entry(active_player, turn, token@),
{
    if active_player == Color::White {
        push_decimal(history_san, turn as u64);
        push_char(history_san, '.');
        push_char(history_san, ' ');
    }
    let t = chars_of(token.as_str());
    let mut end: usize = t.len();
    assert(t@.take(t@.len() as int) =~= t@);
    while end > 0 && (t[end - 1] == '!' || t[end - 1] == '?')
        invariant
            end <= t@.len(),
            trim_annotations(t@) == trim_annotations(t@.take(end as int)),
        decreases end,
    {
        proof {
            assert(t@.take(end as int).drop_last() =~= t@.take(end - 1));
        }
        end = end - 1;
    }
    assert(trim_annotations(t@) == t@.take(end as int));
    let ghost start = history_san@;
    let mut i: usize = 0;
    while i < end
        invariant
            i <= end,
            end <= t@.len(),
            history_san@ == start + t@.take(i as int),
        decreases end - i,
    {
        push_char(history_san, t[i]);
        proof {
            assert(t@.take(i + 1) =~= t@.take(i as int).push(t@[i as int]));
        }
        i = i + 1;
    }
    push_char(history_san, ' ');
    proof {
        assert(history_san@ =~= old(history_san)@ + imported_entry(active_player, turn, token@));
    }
}

/// Ends the imported move text with the game's result token, when the text
/// had one.
pub fn import_finish(history_san: &mut String, result: &Option<String>)
    ensures
        final(history_san)@ == old(history_san)@ + match result {
            Some(r) => r@,
            None => Seq::empty(),
        },
{
    match result {
        Some(r) => history_san.append(r.as_str()),
        None => {},
    }
}

} // verus!
