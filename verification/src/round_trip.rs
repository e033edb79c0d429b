use vstd::prelude::*;

use crate::board::{Board, Cell, Coord};
use crate::pgn_decode::{
    after_number, is_nag, is_result_token, is_tag_line, lemma_strip_delimited_identity, lines_scan,
    lines_spec, move_tokens, movetext_lines, movetext_of, result_token, skip_digits, skip_dots,
    strip_tags_spec, words_scan, words_spec,
};
use crate::app_types::End;
use crate::board::Color;
use crate::pgn_encode::{
    ambiguity_text, decimal, file_char, moving_letter, piece_on, promotion_char, rank_char, result_text,
    square_text, SanRecorder,
};
use crate::san_move::{lemma_end_marks_ignored, parse_san_spec};
use crate::text::{is_ws, join_spaces, take_until, trim_start_spec};

verus! {

/// A character SAN move text is written with.
pub open spec fn is_san_char(c: char) -> bool {
    ||| 'a' <= c <= 'h'
    ||| '1' <= c <= '8'
    ||| c == 'x' || c == '=' || c == '+' || c == '#' || c == 'O' || c == '-'
    ||| c == 'R' || c == 'N' || c == 'B' || c == 'Q' || c == 'K' || c == '?' || c == '_'
}

/// A move token as the SAN writer produces it: not empty, made of SAN
/// characters, and not starting with a digit.
pub open spec fn token_ok(t: Seq<char>) -> bool {
    &&& t.len() > 0
    &&& forall|i: int| 0 <= i < t.len() ==> is_san_char(#[trigger] t[i])
    &&& !('0' <= t[0] <= '9')
}

/// One entry of written move text: the move number, when there is one; the
/// move token; and the game result, when the move ended the game.
pub type Entry = (Option<nat>, Seq<char>, Option<Seq<char>>);

/// The move number and `". "` when there is one, the move token, and a space.
pub open spec fn numbered_token(num: Option<nat>, token: Seq<char>) -> Seq<char> {
    (match num {
        Some(n) => decimal(n) + seq!['.', ' '],
        None => Seq::empty(),
    }) + token + seq![' ']
}

/// The text of one entry: the numbered token, then the result and a space
/// when there is one.
pub open spec fn entry_text(num: Option<nat>, token: Seq<char>, result: Option<Seq<char>>) -> Seq<char> {
    numbered_token(num, token) + match result {
        Some(r) => r + seq![' '],
        None => Seq::empty(),
    }
}

/// An entry can be read back: its token is one the SAN writer produces and
/// its result, if any, is a result token.
pub open spec fn entry_ok(e: Entry) -> bool {
    token_ok(e.1) && (e.2 matches Some(r) ==> is_result_token(r))
}

/// The entries written one after the other.
pub open spec fn entries_text(es: Seq<Entry>) -> Seq<char>
    decreases es.len(),
{
    if es.len() == 0 {
        Seq::empty()
    } else {
        entries_text(es.drop_last()) + entry_text(es.last().0, es.last().1, es.last().2)
    }
}

/// The move tokens of the entries.
pub open spec fn entries_tokens(es: Seq<Entry>) -> Seq<Seq<char>> {
    Seq::new(es.len(), |i: int| es[i].1)
}

/// The last result among the entries, if any.
pub open spec fn entries_result(es: Seq<Entry>) -> Option<Seq<char>>
    decreases es.len(),
{
    if es.len() == 0 {
        None
    } else if es.last().2.is_some() {
        es.last().2
    } else {
        entries_result(es.drop_last())
    }
}

/// A character that none of the PGN clean-up steps acts on.
pub open spec fn is_plain(c: char) -> bool {
    c != '\n' && c != ';' && c != '{' && c != '}' && c != '(' && c != ')'
}

proof fn lemma_decimal_digits(n: nat)
    ensures
        decimal(n).len() > 0,
        forall|i: int| 0 <= i < decimal(n).len() ==> '0' <= #[trigger] decimal(n)[i] <= '9',
    decreases n,
{
    if n >= 10 {
        lemma_decimal_digits(n / 10);
        let d = decimal(n / 10);
        assert forall|i: int| 0 <= i < decimal(n).len() implies '0' <= #[trigger] decimal(n)[i] <= '9' by {
            if i < d.len() {
                assert(decimal(n)[i] == d[i]);
            }
        }
    }
}

proof fn lemma_words_concat(a: Seq<char>, b: Seq<char>)
    requires
        a.len() == 0 || is_ws(a.last()),
    ensures
        words_scan(a + b) == (words_spec(a) + words_scan(b).0, words_scan(b).1),
    decreases b.len(),
{
    if b.len() == 0 {
        assert(a + b =~= a);
        if a.len() > 0 {
            assert(a.drop_last().push(a.last()) =~= a);
        }
        assert(words_scan(a).1.len() == 0);
        assert(words_spec(a) + Seq::<Seq<char>>::empty() =~= words_spec(a));
    } else {
        assert((a + b).drop_last() =~= a + b.drop_last());
        assert((a + b).last() == b.last());
        lemma_words_concat(a, b.drop_last());
        let (done, cur) = words_scan(b.drop_last());
        if is_ws(b.last()) && cur.len() > 0 {
            assert(words_spec(a) + done.push(cur) =~= (words_spec(a) + done).push(cur));
        }
    }
}

proof fn lemma_words_split(a: Seq<char>, b: Seq<char>)
    requires
        a.len() == 0 || is_ws(a.last()),
    ensures
        words_spec(a + b) == words_spec(a) + words_spec(b),
{
    lemma_words_concat(a, b);
    let (done, cur) = words_scan(b);
    if cur.len() != 0 {
        assert(words_spec(a) + done.push(cur) =~= (words_spec(a) + done).push(cur));
    }
}

proof fn lemma_words_of_word(w: Seq<char>)
    requires
        w.len() > 0,
        forall|i: int| 0 <= i < w.len() ==> !is_ws(#[trigger] w[i]),
    ensures
        words_scan(w) == (Seq::<Seq<char>>::empty(), w),
        words_spec(w + seq![' ']) == seq![w],
    decreases w.len(),
{
    if w.len() > 1 {
        assert forall|i: int| 0 <= i < w.drop_last().len() implies !is_ws(#[trigger] w.drop_last()[i]) by {
            assert(w.drop_last()[i] == w[i]);
        }
        lemma_words_of_word(w.drop_last());
        assert(!is_ws(w[w.len() - 1]));
        assert(w.drop_last().push(w.last()) =~= w);
    } else {
        assert(!is_ws(w[0]));
        assert(w.drop_last() =~= Seq::<char>::empty());
        assert(words_scan(Seq::<char>::empty()) == (Seq::<Seq<char>>::empty(), Seq::<char>::empty()));
        assert(Seq::<char>::empty().push(w.last()) =~= w);
    }
    let s = w + seq![' '];
    assert(s.drop_last() =~= w);
    assert(is_ws(s.last()));
    assert(words_scan(w) == (Seq::<Seq<char>>::empty(), w));
    assert(words_scan(s) == (Seq::<Seq<char>>::empty().push(w), Seq::<char>::empty()));
    assert(Seq::<Seq<char>>::empty().push(w) =~= seq![w]);
}

proof fn lemma_move_tokens_concat(a: Seq<Seq<char>>, b: Seq<Seq<char>>)
    ensures
        move_tokens(a + b) == move_tokens(a) + move_tokens(b),
    decreases b.len(),
{
    if b.len() == 0 {
        assert(a + b =~= a);
        assert(move_tokens(a) + move_tokens(b) =~= move_tokens(a));
    } else {
        assert((a + b).drop_last() =~= a + b.drop_last());
        lemma_move_tokens_concat(a, b.drop_last());
        let w = b.last();
        if !(is_nag(w) || is_result_token(w) || after_number(w).len() == 0) {
            assert(move_tokens(a) + move_tokens(b.drop_last()).push(after_number(w)) =~= (move_tokens(a)
                + move_tokens(b.drop_last())).push(after_number(w)));
        }
    }
}

proof fn lemma_result_token_concat(a: Seq<Seq<char>>, b: Seq<Seq<char>>)
    ensures
        result_token(a + b) == if result_token(b).is_some() {
            result_token(b)
        } else {
            result_token(a)
        },
    decreases b.len(),
{
    if b.len() == 0 {
        assert(a + b =~= a);
    } else {
        assert((a + b).drop_last() =~= a + b.drop_last());
        assert((a + b).last() == b.last());
        lemma_result_token_concat(a, b.drop_last());
    }
}

proof fn lemma_skip_digits_of_number(d: Seq<char>, rest: Seq<char>)
    requires
        forall|i: int| 0 <= i < d.len() ==> '0' <= #[trigger] d[i] <= '9',
        rest.len() == 0 || !('0' <= rest[0] <= '9'),
    ensures
        skip_digits(d + rest) == rest,
    decreases d.len(),
{
    if d.len() == 0 {
        assert(d + rest =~= rest);
    } else {
        assert((d + rest).drop_first() =~= d.drop_first() + rest);
        assert((d + rest)[0] == d[0]);
        lemma_skip_digits_of_number(d.drop_first(), rest);
    }
}

proof fn lemma_token_is_move(t: Seq<char>)
    requires
        token_ok(t),
    ensures
        !is_nag(t),
        !is_result_token(t),
        after_number(t) == t,
        t.len() > 0,
        forall|i: int| 0 <= i < t.len() ==> !is_ws(#[trigger] t[i]) && is_plain(t[i]),
{
    assert(is_san_char(t[0]));
    assert(skip_digits(t) == t);
    if t =~= seq!['*'] {
        assert(false);
    }
}

proof fn lemma_numbered_words(num: Option<nat>, t: Seq<char>)
    requires
        token_ok(t),
    ensures
        move_tokens(words_spec(numbered_token(num, t))) == seq![t],
        result_token(words_spec(numbered_token(num, t))).is_none(),
{
    lemma_token_is_move(t);
    lemma_words_of_word(t);
    let tw = t + seq![' '];
    let one = seq![t];
    assert(one.last() == t);
    assert(one.drop_last() =~= Seq::<Seq<char>>::empty());
    assert(move_tokens(Seq::<Seq<char>>::empty()) == Seq::<Seq<char>>::empty());
    assert(result_token(Seq::<Seq<char>>::empty()).is_none());
    assert(move_tokens(one) == seq![t]) by {
        assert(Seq::<Seq<char>>::empty().push(t) =~= seq![t]);
    }
    assert(result_token(one).is_none());
    match num {
        Some(n) => {
            lemma_decimal_digits(n);
            let d = decimal(n);
            let head = d + seq!['.'];
            let p = d + seq!['.', ' '];
            assert(p =~= head + seq![' ']);
            assert(numbered_token(num, t) =~= p + tw);
            assert forall|i: int| 0 <= i < head.len() implies !is_ws(#[trigger] head[i]) by {
                if i < d.len() {
                    assert(head[i] == d[i]);
                }
            }
            lemma_words_of_word(head);
            assert(is_ws(p.last()));
            lemma_words_split(p, tw);
            lemma_skip_digits_of_number(d, seq!['.']);
            assert(skip_dots(seq!['.']) =~= Seq::<char>::empty()) by {
                reveal_with_fuel(skip_dots, 2);
                assert(seq!['.'].drop_first() =~= Seq::<char>::empty());
            }
            assert(after_number(head).len() == 0);
            let hw = seq![head];
            assert(move_tokens(hw).len() == 0) by {
                assert(hw.drop_last() =~= Seq::<Seq<char>>::empty());
            }
            assert(!is_result_token(head)) by {
                assert(head.last() == '.');
                if head.len() == 1 {
                    assert(head[0] == d[0]);
                }
            }
            assert(result_token(hw).is_none()) by {
                assert(hw.drop_last() =~= Seq::<Seq<char>>::empty());
            }
            lemma_move_tokens_concat(hw, one);
            assert(hw + one =~= words_spec(numbered_token(num, t)));
            assert(Seq::<Seq<char>>::empty() + seq![t] =~= seq![t]);
            lemma_result_token_concat(hw, one);
        },
        None => {
            assert(numbered_token(num, t) =~= tw);
        },
    }
}

proof fn lemma_numbered_chars(num: Option<nat>, t: Seq<char>)
    requires
        token_ok(t),
    ensures
        forall|i: int| 0 <= i < numbered_token(num, t).len() ==> is_plain(#[trigger] numbered_token(num, t)[i]),
        numbered_token(num, t).len() > 0,
        !is_ws(numbered_token(num, t)[0]),
        numbered_token(num, t)[0] != '[',
        is_ws(numbered_token(num, t).last()),
{
    lemma_token_is_move(t);
    let e = numbered_token(num, t);
    match num {
        Some(n) => {
            lemma_decimal_digits(n);
            let d = decimal(n);
            assert(e =~= d + seq!['.', ' '] + t + seq![' ']);
            assert forall|i: int| 0 <= i < e.len() implies is_plain(#[trigger] e[i]) by {
                if i < d.len() {
                    assert(e[i] == d[i]);
                } else if i < d.len() + 2 {
                } else if i < d.len() + 2 + t.len() {
                    assert(e[i] == t[i - d.len() - 2]);
                }
            }
            assert(e[0] == d[0]);
        },
        None => {
            assert(e =~= t + seq![' ']);
            assert forall|i: int| 0 <= i < e.len() implies is_plain(#[trigger] e[i]) by {
                if i < t.len() {
                    assert(e[i] == t[i]);
                }
            }
            assert(e[0] == t[0]);
        },
    }
}

proof fn lemma_result_word(r: Seq<char>)
    requires
        is_result_token(r),
    ensures
        !is_nag(r),
        words_spec(r + seq![' ']) == seq![r],
        forall|i: int| 0 <= i < r.len() ==> !is_ws(#[trigger] r[i]) && is_plain(r[i]),
{
    assert forall|i: int| 0 <= i < r.len() implies !is_ws(#[trigger] r[i]) && is_plain(r[i]) by {
        if r == seq!['1', '/', '2', '-', '1', '/', '2'] {
            assert(r[i] == '1' || r[i] == '/' || r[i] == '2' || r[i] == '-');
        } else if r == seq!['*'] {
            assert(r[i] == '*');
        } else {
            assert(r[i] == '1' || r[i] == '0' || r[i] == '-');
        }
    }
    lemma_words_of_word(r);
}

proof fn lemma_entry_words(num: Option<nat>, t: Seq<char>, res: Option<Seq<char>>)
    requires
        entry_ok((num, t, res)),
    ensures
        move_tokens(words_spec(entry_text(num, t, res))) == seq![t],
        result_token(words_spec(entry_text(num, t, res))) == res,
{
    lemma_numbered_words(num, t);
    lemma_numbered_chars(num, t);
    let base = numbered_token(num, t);
    match res {
        Some(r) => {
            lemma_result_word(r);
            let rw = r + seq![' '];
            assert(entry_text(num, t, res) == base + rw);
            lemma_words_split(base, rw);
            lemma_move_tokens_concat(words_spec(base), seq![r]);
            assert(seq![r].drop_last() =~= Seq::<Seq<char>>::empty());
            assert(move_tokens(Seq::<Seq<char>>::empty()) == Seq::<Seq<char>>::empty());
            assert(move_tokens(seq![r]) =~= Seq::<Seq<char>>::empty());
            assert(seq![t] + Seq::<Seq<char>>::empty() =~= seq![t]);
            assert(result_token(seq![r]) == Some(r));
            lemma_result_token_concat(words_spec(base), seq![r]);
        },
        None => {
            assert(entry_text(num, t, res) =~= base);
        },
    }
}

proof fn lemma_entry_chars(num: Option<nat>, t: Seq<char>, res: Option<Seq<char>>)
    requires
        entry_ok((num, t, res)),
    ensures
        forall|i: int| 0 <= i < entry_text(num, t, res).len() ==> is_plain(#[trigger] entry_text(num, t, res)[i]),
        entry_text(num, t, res).len() > 0,
        !is_ws(entry_text(num, t, res)[0]),
        entry_text(num, t, res)[0] != '[',
        is_ws(entry_text(num, t, res).last()),
{
    lemma_numbered_chars(num, t);
    let base = numbered_token(num, t);
    let e = entry_text(num, t, res);
    match res {
        Some(r) => {
            lemma_result_word(r);
            let rw = r + seq![' '];
            assert(e == base + rw);
            assert forall|i: int| 0 <= i < e.len() implies is_plain(#[trigger] e[i]) by {
                if i < base.len() {
                    assert(e[i] == base[i]);
                } else if i < base.len() + r.len() {
                    assert(e[i] == r[i - base.len()]);
                }
            }
            assert(e[0] == base[0]);
        },
        None => {
            assert(e =~= base);
        },
    }
}

proof fn lemma_entries_shape(es: Seq<Entry>)
    requires
        forall|i: int| 0 <= i < es.len() ==> entry_ok(#[trigger] es[i]),
    ensures
        forall|i: int| 0 <= i < entries_text(es).len() ==> is_plain(#[trigger] entries_text(es)[i]),
        es.len() > 0 ==> entries_text(es).len() > 0 && !is_ws(entries_text(es)[0]) && entries_text(es)[0] != '[',
        es.len() > 0 ==> is_ws(entries_text(es).last()),
        move_tokens(words_spec(entries_text(es))) == entries_tokens(es),
        result_token(words_spec(entries_text(es))) == entries_result(es),
    decreases es.len(),
{
    if es.len() == 0 {
        assert(entries_tokens(es) =~= Seq::<Seq<char>>::empty());
        assert(words_spec(Seq::<char>::empty()) =~= Seq::<Seq<char>>::empty());
    } else {
        let init = es.drop_last();
        assert forall|i: int| 0 <= i < init.len() implies entry_ok(#[trigger] init[i]) by {
            assert(init[i] == es[i]);
        }
        lemma_entries_shape(init);
        let a = entries_text(init);
        let (num, t, res) = es.last();
        assert(entry_ok((num, t, res))) by {
            assert(es[es.len() - 1] == es.last());
        }
        let e = entry_text(num, t, res);
        lemma_entry_chars(num, t, res);
        lemma_entry_words(num, t, res);
        let s = entries_text(es);
        assert(s == a + e);
        assert forall|i: int| 0 <= i < s.len() implies is_plain(#[trigger] s[i]) by {
            if i < a.len() {
                assert(s[i] == a[i]);
            } else {
                assert(s[i] == e[i - a.len()]);
            }
        }
        if init.len() == 0 {
            assert(a =~= Seq::<char>::empty());
            assert(s =~= e);
        } else {
            assert(s[0] == a[0]);
        }
        assert(s.last() == e.last());
        lemma_words_split(a, e);
        lemma_move_tokens_concat(words_spec(a), words_spec(e));
        assert(entries_tokens(es) =~= entries_tokens(init) + seq![t]);
        lemma_result_token_concat(words_spec(a), words_spec(e));
    }
}

proof fn lemma_lines_of_line(s: Seq<char>)
    requires
        forall|i: int| 0 <= i < s.len() ==> #[trigger] s[i] != '\n',
    ensures
        lines_scan(s) == (Seq::<Seq<char>>::empty(), s),
    decreases s.len(),
{
    if s.len() > 0 {
        assert forall|i: int| 0 <= i < s.drop_last().len() implies #[trigger] s.drop_last()[i] != '\n' by {
            assert(s.drop_last()[i] == s[i]);
        }
        lemma_lines_of_line(s.drop_last());
        assert(s[s.len() - 1] != '\n');
        assert(s.drop_last().push(s.last()) =~= s);
    }
}

proof fn lemma_take_until_absent(s: Seq<char>, c: char)
    requires
        forall|i: int| 0 <= i < s.len() ==> #[trigger] s[i] != c,
    ensures
        take_until(s, c) == s,
    decreases s.len(),
{
    if s.len() > 0 {
        assert forall|i: int| 0 <= i < s.drop_first().len() implies #[trigger] s.drop_first()[i] != c by {
            assert(s.drop_first()[i] == s[i + 1]);
        }
        lemma_take_until_absent(s.drop_first(), c);
        assert(seq![s[0]] + s.drop_first() =~= s);
    }
}

proof fn lemma_plain_movetext(s: Seq<char>)
    requires
        forall|i: int| 0 <= i < s.len() ==> is_plain(#[trigger] s[i]),
        s.len() > 0,
        !is_ws(s[0]),
        s[0] != '[',
    ensures
        movetext_of(s) == s,
{
    lemma_lines_of_line(s);
    assert(lines_spec(s) =~= seq![s]);
    assert(trim_start_spec(s) == s);
    assert(!is_tag_line(s));
    lemma_take_until_absent(s, ';');
    let ls = seq![s];
    assert(ls.drop_last() =~= Seq::<Seq<char>>::empty());
    assert(ls.last() == s);
    assert(movetext_lines(Seq::<Seq<char>>::empty()) == Seq::<Seq<char>>::empty());
    assert(Seq::<Seq<char>>::empty().push(take_until(s, ';')) =~= seq![s]);
    assert(movetext_lines(ls) =~= seq![s]);
    assert(join_spaces(seq![s]) == s);
    assert(strip_tags_spec(s) == s);
    assert(!s.contains('{') && !s.contains('}') && !s.contains('(') && !s.contains(')'));
    lemma_strip_delimited_identity(s, '{', '}');
    lemma_strip_delimited_identity(s, '(', ')');
}

/// Move text written as entries (an optional move number with `". "`, a move
/// token, a space, and the game result with a space after a game-ending move)
/// reads back as exactly those move tokens, in order, and the last result
/// written as the result token.
pub proof fn lemma_entries_read_back(es: Seq<Entry>)
    requires
        forall|i: int| 0 <= i < es.len() ==> entry_ok(#[trigger] es[i]),
    ensures
        move_tokens(words_spec(movetext_of(entries_text(es)))) == entries_tokens(es),
        result_token(words_spec(movetext_of(entries_text(es)))) == entries_result(es),
{
    lemma_entries_shape(es);
    if es.len() > 0 {
        lemma_plain_movetext(entries_text(es));
    } else {
        assert(entries_text(es) =~= Seq::<char>::empty());
        assert(movetext_of(Seq::<char>::empty()) =~= Seq::<char>::empty()) by {
            assert(lines_spec(Seq::<char>::empty()) =~= Seq::<Seq<char>>::empty());
            assert(movetext_lines(Seq::<Seq<char>>::empty()) =~= Seq::<Seq<char>>::empty());
            lemma_strip_delimited_identity(Seq::<char>::empty(), '{', '}');
            lemma_strip_delimited_identity(Seq::<char>::empty(), '(', ')');
        }
    }
}

/// A move played, as the SAN writer sees it: the writer's state after the
/// move, the origin, the destination and the board before the move.
pub type PlayedMove = (SanRecorder, Coord, Coord, Board);

/// The token written for a move: its SAN, then `#` when it mated, or `+`
/// when it gave check without ending the game.
pub open spec fn written_token(m: PlayedMove) -> Seq<char> {
    m.0.move_text(m.1, m.2, m.3) + if m.0.end == Some(End::Checkmate) {
        seq!['#']
    } else if m.0.board.check.is_some() && m.0.end.is_none() {
        seq!['+']
    } else {
        Seq::empty()
    }
}

/// The move number written before a move: only before a White move, that
/// is when Black is to move after it.
pub open spec fn written_number(m: PlayedMove) -> Option<nat> {
    if m.0.active_player == Color::Black {
        Some(m.0.turn as nat)
    } else {
        None
    }
}

/// The result written after a move that ended the game.
pub open spec fn written_result(m: PlayedMove) -> Option<Seq<char>> {
    match m.0.end {
        Some(e) => Some(result_text(e, m.0.active_player)),
        None => None,
    }
}

/// The last result written for the moves of a game, if any.
pub open spec fn last_result(moves: Seq<PlayedMove>) -> Option<Seq<char>>
    decreases moves.len(),
{
    if moves.len() == 0 {
        None
    } else if written_result(moves.last()).is_some() {
        written_result(moves.last())
    } else {
        last_result(moves.drop_last())
    }
}

/// The text written for the moves of a game, one after the other, as
/// `SanRecorder::encode_move_to_san` appends it.
pub open spec fn written_text(moves: Seq<PlayedMove>) -> Seq<char>
    decreases moves.len(),
{
    if moves.len() == 0 {
        Seq::empty()
    } else {
        written_text(moves.drop_last()) + moves.last().0.san_text(moves.last().1, moves.last().2, moves.last().3)
    }
}

/// The move can be written: both squares are on the board.
pub open spec fn readable_move(m: PlayedMove) -> bool {
    m.1.on_board() && m.2.on_board()
}

proof fn lemma_square_san(c: Coord)
    requires
        c.on_board(),
    ensures
        is_san_char(file_char(c.col)),
        is_san_char(rank_char(c.row)),
        'a' <= file_char(c.col) <= 'h',
{
}

proof fn lemma_ambiguity_san(board: Board, moves: Seq<crate::moves::Move>, piece: crate::board::Piece, origin: Coord, dest: Coord)
    requires
        origin.on_board(),
    ensures
        forall|i: int| 0 <= i < ambiguity_text(board, moves, piece, origin, dest).len() ==> is_san_char(
            #[trigger] ambiguity_text(board, moves, piece, origin, dest)[i],
        ),
    decreases moves.len(),
{
    if moves.len() > 0 {
        lemma_ambiguity_san(board, moves.drop_last(), piece, origin, dest);
        let rest = ambiguity_text(board, moves.drop_last(), piece, origin, dest);
        let t = ambiguity_text(board, moves, piece, origin, dest);
        let m = moves.last();
        if m.dest == dest && piece_on(board.cell(m.origin)) == Some(piece) {
            let add = if origin.col != m.origin.col {
                seq![file_char(origin.col)]
            } else if origin.row != m.origin.row {
                seq![rank_char(origin.row)]
            } else {
                square_text(origin)
            };
            assert(t == rest + add);
            assert forall|i: int| 0 <= i < t.len() implies is_san_char(#[trigger] t[i]) by {
                if i < rest.len() {
                    assert(t[i] == rest[i]);
                } else {
                    assert(t[i] == add[i - rest.len()]);
                }
            }
        }
    }
}

proof fn lemma_pawn_text_ok(rec: SanRecorder, from: Coord, to: Coord, prev: Board)
    requires
        from.on_board(),
        to.on_board(),
    ensures
        token_ok(rec.pawn_text(from, to, prev)),
{
    lemma_square_san(from);
    lemma_square_san(to);
    let mt = rec.pawn_text(from, to, prev);
    let capture = prev.cell(to) != Cell::Free || rec.en_passant_spec(from, to, prev);
    let pre: Seq<char> = if capture { seq![file_char(from.col), 'x'] } else { Seq::empty() };
    let promo: Seq<char> = match rec.board.cell(to) {
        Cell::Occupied(p, _) => if p != crate::board::Piece::Pawn { seq!['=', promotion_char(p)] } else { Seq::empty() },
        Cell::Free => Seq::empty(),
    };
    let sq = square_text(to);
    assert(mt == pre + sq + promo);
    assert forall|i: int| 0 <= i < mt.len() implies is_san_char(#[trigger] mt[i]) by {
        if i < pre.len() {
            assert(mt[i] == pre[i]);
        } else if i < pre.len() + 2 {
            assert(mt[i] == sq[i - pre.len()]);
        } else {
            assert(mt[i] == promo[i - pre.len() - 2]);
        }
    }
    assert(mt[0] == pre[0] || mt[0] == sq[0]);
}

proof fn lemma_piece_text_ok(rec: SanRecorder, from: Coord, to: Coord, prev: Board)
    requires
        from.on_board(),
        to.on_board(),
        moving_letter(piece_on(prev.cell(from))) != 'p',
        !(moving_letter(piece_on(prev.cell(from))) == 'K' && (to.col - from.col > 1 || from.col - to.col > 1)),
    ensures
        token_ok(rec.move_text(from, to, prev)),
{
    lemma_square_san(to);
    let mt = rec.move_text(from, to, prev);
    let moved = piece_on(prev.cell(from));
    let letter = moving_letter(moved);
    let d: Seq<char> = match moved {
        Some(p) => if p != crate::board::Piece::Pawn && p != crate::board::Piece::King {
            rec.disambiguation_text(p, from, to)
        } else {
            Seq::empty()
        },
        None => Seq::empty(),
    };
    match moved {
        Some(p) => {
            if rec.history_len > 0 && rec.replay_index > 0 {
                lemma_ambiguity_san(rec.board, rec.prev_legal_moves@, p, from, to);
            }
        },
        None => {},
    }
    let x: Seq<char> = if prev.cell(to) != Cell::Free { seq!['x'] } else { Seq::empty() };
    let sq = square_text(to);
    assert(mt == seq![letter] + d + x + sq);
    assert forall|i: int| 0 <= i < mt.len() implies is_san_char(#[trigger] mt[i]) by {
        if i == 0 {
        } else if i < 1 + d.len() {
            assert(mt[i] == d[i - 1]);
        } else if i < 1 + d.len() + x.len() {
            assert(mt[i] == x[i - 1 - d.len()]);
        } else {
            assert(mt[i] == sq[i - 1 - d.len() - x.len()]);
        }
    }
}

proof fn lemma_move_text_ok(rec: SanRecorder, from: Coord, to: Coord, prev: Board)
    requires
        from.on_board(),
        to.on_board(),
    ensures
        token_ok(rec.move_text(from, to, prev)),
{
    let letter = moving_letter(piece_on(prev.cell(from)));
    if letter == 'p' {
        lemma_pawn_text_ok(rec, from, to, prev);
    } else if letter == 'K' && (to.col - from.col > 1 || from.col - to.col > 1) {
    } else {
        lemma_piece_text_ok(rec, from, to, prev);
    }
}

proof fn lemma_written_token_ok(m: PlayedMove)
    requires
        readable_move(m),
    ensures
        entry_ok((written_number(m), written_token(m), written_result(m))),
        m.0.san_text(m.1, m.2, m.3) == entry_text(written_number(m), written_token(m), written_result(m)),
{
    let (rec, from, to, prev) = m;
    lemma_move_text_ok(rec, from, to, prev);
    let mt = rec.move_text(from, to, prev);
    let t = written_token(m);
    let mark: Seq<char> = if rec.end == Some(End::Checkmate) {
        seq!['#']
    } else if rec.board.check.is_some() && rec.end.is_none() {
        seq!['+']
    } else {
        Seq::empty()
    };
    assert(t == mt + mark);
    assert forall|i: int| 0 <= i < t.len() implies is_san_char(#[trigger] t[i]) by {
        if i < mt.len() {
            assert(t[i] == mt[i]);
        }
    }
    assert(t[0] == mt[0]);
    match rec.end {
        Some(e) => {
            assert(is_result_token(result_text(e, rec.active_player)));
        },
        None => {},
    }
    assert(rec.san_text(from, to, prev) =~= entry_text(written_number(m), t, written_result(m)));
}

/// The entry written for a move.
pub open spec fn written_entry(m: PlayedMove) -> Entry {
    (written_number(m), written_token(m), written_result(m))
}

proof fn lemma_written_entries(moves: Seq<PlayedMove>)
    requires
        forall|i: int| 0 <= i < moves.len() ==> readable_move(#[trigger] moves[i]),
    ensures
        written_text(moves) == entries_text(moves.map_values(|m: PlayedMove| written_entry(m))),
        entries_result(moves.map_values(|m: PlayedMove| written_entry(m))) == last_result(moves),
        forall|i: int| 0 <= i < moves.len() ==> entry_ok(written_entry(#[trigger] moves[i])),
    decreases moves.len(),
{
    let es = moves.map_values(|m: PlayedMove| written_entry(m));
    if moves.len() > 0 {
        let init = moves.drop_last();
        assert forall|i: int| 0 <= i < init.len() implies readable_move(#[trigger] init[i]) by {
            assert(init[i] == moves[i]);
        }
        lemma_written_entries(init);
        assert(es.drop_last() =~= init.map_values(|m: PlayedMove| written_entry(m)));
        assert(readable_move(moves[moves.len() - 1]));
        lemma_written_token_ok(moves.last());
        assert(es.last() == written_entry(moves.last()));
        assert forall|i: int| 0 <= i < moves.len() implies entry_ok(written_entry(#[trigger] moves[i])) by {
            lemma_written_token_ok(moves[i]);
        }
    } else {
        assert(entries_text(es) =~= Seq::<char>::empty());
    }
}

/// The move text of a game, written move by move, reads back as PGN
/// movetext: exactly one token per move, in order (the move's SAN, with `#`
/// after a mate and `+` after a check), as result token the result written
/// after the last game-ending move, and each token reads as the move's SAN
/// does.
pub proof fn lemma_written_moves_read_back(moves: Seq<PlayedMove>)
    requires
        forall|i: int| 0 <= i < moves.len() ==> readable_move(#[trigger] moves[i]),
    ensures
        move_tokens(words_spec(movetext_of(written_text(moves)))) == moves.map_values(|m: PlayedMove| written_token(m)),
        result_token(words_spec(movetext_of(written_text(moves)))) == last_result(moves),
        forall|i: int| 0 <= i < moves.len() ==> parse_san_spec(written_token(#[trigger] moves[i])) == parse_san_spec(
            moves[i].0.move_text(moves[i].1, moves[i].2, moves[i].3),
        ),
{
    let es = moves.map_values(|m: PlayedMove| written_entry(m));
    lemma_written_entries(moves);
    assert forall|i: int| 0 <= i < es.len() implies entry_ok(#[trigger] es[i]) by {
        assert(es[i] == written_entry(moves[i]));
    }
    lemma_entries_read_back(es);
    assert(entries_tokens(es) =~= moves.map_values(|m: PlayedMove| written_token(m)));
    assert forall|i: int| 0 <= i < moves.len() implies parse_san_spec(written_token(#[trigger] moves[i]))
        == parse_san_spec(moves[i].0.move_text(moves[i].1, moves[i].2, moves[i].3)) by {
        let m = moves[i];
        let mt = m.0.move_text(m.1, m.2, m.3);
        if m.0.end == Some(End::Checkmate) {
            lemma_end_marks_ignored(mt, '#');
            assert(written_token(m) =~= mt.push('#'));
        } else if m.0.board.check.is_some() && m.0.end.is_none() {
            lemma_end_marks_ignored(mt, '+');
            assert(written_token(m) =~= mt.push('+'));
        } else {
            assert(written_token(m) =~= mt);
        }
    }
}

} // verus!
