use vstd::prelude::*;

use crate::san_move::{core_end, matches_word, trim_end_marks};
use crate::text::{chars_of, is_whitespace, is_ws, join_spaces, string_of, take_until, trim_start_spec};

verus! {

/// The character sequences held by a vector of character vectors.
pub open spec fn char_views(v: Seq<Vec<char>>) -> Seq<Seq<char>> {
    Seq::new(v.len(), |i: int| v[i]@)
}

/// A line without the `'\r'` that ended it, if any.
pub open spec fn strip_cr(line: Seq<char>) -> Seq<char> {
    if line.len() > 0 && line.last() == '\r' {
        line.drop_last()
    } else {
        line
    }
}

/// The left-to-right line split of `s`: the lines completed by a `'\n'`
/// (each without its `"\n"` or `"\r\n"` ending), and the text after the last
/// `'\n'`.
pub open spec fn lines_scan(s: Seq<char>) -> (Seq<Seq<char>>, Seq<char>)
    decreases s.len(),
{
    if s.len() == 0 {
        (Seq::empty(), Seq::empty())
    } else {
        let (done, cur) = lines_scan(s.drop_last());
        if s.last() == '\n' {
            (done.push(strip_cr(cur)), Seq::empty())
        } else {
            (done, cur.push(s.last()))
        }
    }
}

/// The lines of `s` as `str::lines` gives them: split at each `'\n'`, a
/// `'\r'` just before the `'\n'` dropped, and no empty line after a final
/// `'\n'`.
pub open spec fn lines_spec(s: Seq<char>) -> Seq<Seq<char>> {
    let (done, cur) = lines_scan(s);
    if cur.len() == 0 {
        done
    } else {
        done.push(cur)
    }
}

/// A tag-pair line: its first character after leading white space is `'['`.
pub open spec fn is_tag_line(line: Seq<char>) -> bool {
    trim_start_spec(line).len() > 0 && trim_start_spec(line)[0] == '['
}

/// The movetext lines among `lines`, in order: tag-pair lines dropped, and
/// each kept line cut at its first `';'` comment.
pub open spec fn movetext_lines(lines: Seq<Seq<char>>) -> Seq<Seq<char>>
    decreases lines.len(),
{
    if lines.len() == 0 {
        Seq::empty()
    } else {
        let rest = movetext_lines(lines.drop_last());
        if is_tag_line(lines.last()) {
            rest
        } else {
            rest.push(take_until(lines.last(), ';'))
        }
    }
}

/// The movetext of a PGN text on one line: its lines without tag pairs and
/// `;` comments, joined with spaces.
pub open spec fn strip_tags_spec(pgn: Seq<char>) -> Seq<char> {
    join_spaces(movetext_lines(lines_spec(pgn)))
}

fn split_lines(text: &Vec<char>) -> (lines: Vec<Vec<char>>)
    ensures
        char_views(lines@) == lines_spec(text@),
{
    let mut done: Vec<Vec<char>> = Vec::new();
    let mut cur: Vec<char> = Vec::new();
    let mut i: usize = 0;
    while i < text.len()
        invariant
            i <= text@.len(),
            (char_views(done@), cur@) == lines_scan(text@.take(i as int)),
        decreases text@.len() - i,
    {
        let c = text[i];
        proof {
            assert(text@.take(i + 1).drop_last() =~= text@.take(i as int));
        }
        if c == '\n' {
            let n = cur.len();
            if n > 0 && cur[n - 1] == '\r' {
                cur.pop();
            }
            let ghost before = done@;
            done.push(cur);
            cur = Vec::new();
            proof {
                assert(char_views(done@) =~= char_views(before).push(done@.last()@));
            }
        } else {
            cur.push(c);
        }
        i = i + 1;
    }
    proof {
        assert(text@.take(text@.len() as int) =~= text@);
    }
    if cur.len() > 0 {
        let ghost before = done@;
        done.push(cur);
        proof {
            assert(char_views(done@) =~= char_views(before).push(done@.last()@));
        }
    }
    done
}

fn is_tag_line_exec(line: &Vec<char>) -> (b: bool)
    ensures
        b == is_tag_line(line@),
{
    let mut i: usize = 0;
    assert(line@.skip(0) =~= line@);
    while i < line.len() && is_whitespace(line[i])
        invariant
            i <= line@.len(),
            trim_start_spec(line@) == trim_start_spec(line@.skip(i as int)),
        decreases line@.len() - i,
    {
        proof {
            assert(line@.skip(i as int).drop_first() =~= line@.skip(i + 1));
        }
        i = i + 1;
    }
    i < line.len() && line[i] == '['
}

fn take_until_exec(line: &Vec<char>, stop: char) -> (out: Vec<char>)
    ensures
        out@ == take_until(line@, stop),
{
    let mut out: Vec<char> = Vec::new();
    let mut i: usize = 0;
    assert(line@.skip(0) =~= line@);
    while i < line.len() && line[i] != stop
        invariant
            i <= line@.len(),
            out@ + take_until(line@.skip(i as int), stop) == take_until(line@, stop),
            out@.len() == i,
        decreases line@.len() - i,
    {
        proof {
            assert(line@.skip(i as int).drop_first() =~= line@.skip(i + 1));
            assert(out@.push(line@[i as int]) + take_until(line@.skip(i + 1), stop) =~= out@ + take_until(line@.skip(i as int), stop));
        }
        out.push(line[i]);
        i = i + 1;
    }
    proof {
        assert(out@ + take_until(line@.skip(i as int), stop) =~= out@);
    }
    out
}

fn join_with_spaces(parts: &Vec<Vec<char>>) -> (out: Vec<char>)
    ensures
        out@ == join_spaces(char_views(parts@)),
{
    let mut out: Vec<char> = Vec::new();
    let mut i: usize = 0;
    while i < parts.len()
        invariant
            i <= parts@.len(),
            out@ == join_spaces(char_views(parts@).take(i as int)),
        decreases parts@.len() - i,
    {
        proof {
            assert(char_views(parts@).take(i + 1).drop_last() =~= char_views(parts@).take(i as int));
        }
        if i > 0 {
            out.push(' ');
        }
        let part = &parts[i];
        let mut j: usize = 0;
        let ghost start = out@;
        while j < part.len()
            invariant
                j <= part@.len(),
                out@ == start + part@.take(j as int),
            decreases part@.len() - j,
        {
            out.push(part[j]);
            proof {
                assert(part@.take(j + 1) =~= part@.take(j as int).push(part@[j as int]));
            }
            j = j + 1;
        }
        proof {
            assert(part@.take(part@.len() as int) =~= part@);
            if i == 0 {
                assert(out@ =~= join_spaces(char_views(parts@).take(1)));
            } else {
                assert(out@ =~= join_spaces(char_views(parts@).take(i as int)) + seq![' '] + part@);
            }
        }
        i = i + 1;
    }
    proof {
        assert(char_views(parts@).take(parts@.len() as int) =~= char_views(parts@));
    }
    out
}

fn strip_tags_chars(pgn: &Vec<char>) -> (out: Vec<char>)
    ensures
        out@ == strip_tags_spec(pgn@),
{
    let lines = split_lines(pgn);
    let mut kept: Vec<Vec<char>> = Vec::new();
    let mut i: usize = 0;
    while i < lines.len()
        invariant
            i <= lines@.len(),
            char_views(kept@) == movetext_lines(char_views(lines@).take(i as int)),
        decreases lines@.len() - i,
    {
        proof {
            assert(char_views(lines@).take(i + 1).drop_last() =~= char_views(lines@).take(i as int));
            assert(char_views(lines@).take(i + 1).last() == lines@[i as int]@);
        }
        if !is_tag_line_exec(&lines[i]) {
            let cut = take_until_exec(&lines[i], ';');
            let ghost before = kept@;
            kept.push(cut);
            proof {
                assert(char_views(kept@) =~= char_views(before).push(cut@));
            }
        }
        i = i + 1;
    }
    proof {
        assert(char_views(lines@).take(lines@.len() as int) =~= char_views(lines@));
    }
    join_with_spaces(&kept)
}

/// Strips tag pairs (`[Event "..."]`) and end-of-line `;` comments, joining
/// the remaining movetext into a single string.
pub fn strip_tags_and_line_comments(pgn: &str) -> (out: String)
    ensures
        out@ == strip_tags_spec(pgn@),
{
    let chars = chars_of(pgn);
    let out = strip_tags_chars(&chars);
    string_of(out.as_slice())
}

/// The left-to-right scan that removes balanced `open`/`close` spans: the
/// characters kept so far and the current nesting depth. An `open` nests one
/// level deeper, a `close` one level out (never below zero), and any other
/// character is kept when outside every span.
pub open spec fn delimited_scan(s: Seq<char>, open: char, close: char) -> (Seq<char>, nat)
    decreases s.len(),
{
    if s.len() == 0 {
        (Seq::empty(), 0)
    } else {
        let (out, depth) = delimited_scan(s.drop_last(), open, close);
        let c = s.last();
        if c == open {
            (out, depth + 1)
        } else if c == close {
            (out, if depth > 0 { (depth - 1) as nat } else { 0 })
        } else if depth == 0 {
            (out.push(c), depth)
        } else {
            (out, depth)
        }
    }
}

/// `s` with every balanced `open`/`close` span removed, nesting-aware.
pub open spec fn strip_delimited_spec(s: Seq<char>, open: char, close: char) -> Seq<char> {
    delimited_scan(s, open, close).0
}

fn strip_delimited_chars(text: &Vec<char>, open: char, close: char) -> (out: Vec<char>)
    ensures
        out@ == strip_delimited_spec(text@, open, close),
{
    let mut out: Vec<char> = Vec::new();
    let mut depth: usize = 0;
    let mut i: usize = 0;
    while i < text.len()
        invariant
            i <= text@.len(),
            (out@, depth as nat) == delimited_scan(text@.take(i as int), open, close),
            depth <= i,
        decreases text@.len() - i,
    {
        let c = text[i];
        proof {
            assert(text@.take(i + 1).drop_last() =~= text@.take(i as int));
        }
        if c == open {
            depth = depth + 1;
        } else if c == close {
            depth = if depth > 0 {
                depth - 1
            } else {
                0
            };
        } else if depth == 0 {
            out.push(c);
        }
        i = i + 1;
    }
    proof {
        assert(text@.take(text@.len() as int) =~= text@);
    }
    out
}

/// Removes every balanced `open`/`close` span (nesting-aware), e.g. `{...}`
/// comments or `(...)` variations. An unmatched `close` is dropped.
pub fn strip_delimited(text: &str, open: char, close: char) -> (out: String)
    ensures
        out@ == strip_delimited_spec(text@, open, close),
{
    let chars = chars_of(text);
    let out = strip_delimited_chars(&chars, open, close);
    string_of(out.as_slice())
}

/// The text the moves are read from: the PGN without tag pairs and `;`
/// comments, then without `{...}` comments, then without `(...)` variations.
pub open spec fn movetext_of(pgn: Seq<char>) -> Seq<char> {
    strip_delimited_spec(strip_delimited_spec(strip_tags_spec(pgn), '{', '}'), '(', ')')
}

/// The left-to-right split of `s` at white space: the words completed so far
/// and the word being read.
pub open spec fn words_scan(s: Seq<char>) -> (Seq<Seq<char>>, Seq<char>)
    decreases s.len(),
{
    if s.len() == 0 {
        (Seq::empty(), Seq::empty())
    } else {
        let (done, cur) = words_scan(s.drop_last());
        if is_ws(s.last()) {
            if cur.len() > 0 {
                (done.push(cur), Seq::empty())
            } else {
                (done, cur)
            }
        } else {
            (done, cur.push(s.last()))
        }
    }
}

/// The non-empty runs of non-white-space characters of `s`, in order (what
/// `str::split_whitespace` gives).
pub open spec fn words_spec(s: Seq<char>) -> Seq<Seq<char>> {
    let (done, cur) = words_scan(s);
    if cur.len() == 0 {
        done
    } else {
        done.push(cur)
    }
}

/// A game-result token: `1-0`, `0-1`, `1/2-1/2` or `*`.
pub open spec fn is_result_token(w: Seq<char>) -> bool {
    ||| w == seq!['1', '-', '0']
    ||| w == seq!['0', '-', '1']
    ||| w == seq!['1', '/', '2', '-', '1', '/', '2']
    ||| w == seq!['*']
}

/// A numeric annotation glyph such as `$1`.
pub open spec fn is_nag(w: Seq<char>) -> bool {
    w.len() > 0 && w[0] == '$'
}

/// `s` without its leading ASCII digits.
pub open spec fn skip_digits(s: Seq<char>) -> Seq<char>
    decreases s.len(),
{
    if s.len() > 0 && '0' <= s[0] <= '9' {
        skip_digits(s.drop_first())
    } else {
        s
    }
}

/// `s` without its leading dots.
pub open spec fn skip_dots(s: Seq<char>) -> Seq<char>
    decreases s.len(),
{
    if s.len() > 0 && s[0] == '.' {
        skip_dots(s.drop_first())
    } else {
        s
    }
}

/// A castling move written with zeros, `0-0` or `0-0-0`, possibly followed
/// by check or annotation marks.
pub open spec fn is_zero_castle(w: Seq<char>) -> bool {
    trim_end_marks(w) == seq!['0', '-', '0'] || trim_end_marks(w) == seq!['0', '-', '0', '-', '0']
}

/// A word without its move-number prefix: leading digits, and then, only if
/// there were any, the dots after them (`12.` and `12...` vanish, `e4` stays).
/// A castling move written with zeros is a move, not a number, and stays whole.
pub open spec fn after_number(w: Seq<char>) -> Seq<char> {
    if is_zero_castle(w) {
        w
    } else if skip_digits(w).len() != w.len() {
        skip_dots(skip_digits(w))
    } else {
        w
    }
}

/// The move tokens among `words`, in order: annotation glyphs and result
/// tokens are skipped, move numbers are cut off, and what is then empty is
/// dropped.
pub open spec fn move_tokens(words: Seq<Seq<char>>) -> Seq<Seq<char>>
    decreases words.len(),
{
    if words.len() == 0 {
        Seq::empty()
    } else {
        let rest = move_tokens(words.drop_last());
        let w = words.last();
        if is_nag(w) || is_result_token(w) || after_number(w).len() == 0 {
            rest
        } else {
            rest.push(after_number(w))
        }
    }
}

/// The last result token among `words`, if any.
pub open spec fn result_token(words: Seq<Seq<char>>) -> Option<Seq<char>>
    decreases words.len(),
{
    if words.len() == 0 {
        None
    } else if !is_nag(words.last()) && is_result_token(words.last()) {
        Some(words.last())
    } else {
        result_token(words.drop_last())
    }
}

/// The character sequences held by a vector of strings.
pub open spec fn string_views(v: Seq<String>) -> Seq<Seq<char>> {
    Seq::new(v.len(), |i: int| v[i]@)
}

pub(crate) fn split_words(text: &Vec<char>) -> (words: Vec<Vec<char>>)
    ensures
        char_views(words@) == words_spec(text@),
        forall|i: int| 0 <= i < words@.len() ==> #[trigger] words@[i]@.len() > 0,
{
    let mut done: Vec<Vec<char>> = Vec::new();
    let mut cur: Vec<char> = Vec::new();
    let mut i: usize = 0;
    while i < text.len()
        invariant
            i <= text@.len(),
            (char_views(done@), cur@) == words_scan(text@.take(i as int)),
            forall|k: int| 0 <= k < done@.len() ==> #[trigger] done@[k]@.len() > 0,
        decreases text@.len() - i,
    {
        let c = text[i];
        proof {
            assert(text@.take(i + 1).drop_last() =~= text@.take(i as int));
        }
        if is_whitespace(c) {
            if cur.len() > 0 {
                let ghost before = done@;
                done.push(cur);
                cur = Vec::new();
                proof {
                    assert(char_views(done@) =~= char_views(before).push(done@.last()@));
                }
            }
        } else {
            cur.push(c);
        }
        i = i + 1;
    }
    proof {
        assert(text@.take(text@.len() as int) =~= text@);
    }
    if cur.len() > 0 {
        let ghost before = done@;
        done.push(cur);
        proof {
            assert(char_views(done@) =~= char_views(before).push(done@.last()@));
        }
    }
    done
}

fn is_result_token_exec(w: &Vec<char>) -> (b: bool)
    ensures
        b == is_result_token(w@),
{
    let n = w.len();
    let b = (n == 3 && w[0] == '1' && w[1] == '-' && w[2] == '0') || (n == 3 && w[0] == '0' && w[1]
        == '-' && w[2] == '1') || (n == 7 && w[0] == '1' && w[1] == '/' && w[2] == '2' && w[3] == '-'
        && w[4] == '1' && w[5] == '/' && w[6] == '2') || (n == 1 && w[0] == '*');
    proof {
        if n == 3 && w[0] == '1' && w[1] == '-' && w[2] == '0' {
            assert(w@ =~= seq!['1', '-', '0']);
        }
        if n == 3 && w[0] == '0' && w[1] == '-' && w[2] == '1' {
            assert(w@ =~= seq!['0', '-', '1']);
        }
        if n == 7 && w[0] == '1' && w[1] == '/' && w[2] == '2' && w[3] == '-' && w[4] == '1' && w[5]
            == '/' && w[6] == '2' {
            assert(w@ =~= seq!['1', '/', '2', '-', '1', '/', '2']);
        }
        if n == 1 && w[0] == '*' {
            assert(w@ =~= seq!['*']);
        }
    }
    b
}

fn after_number_exec(w: &Vec<char>) -> (out: Vec<char>)
    ensures
        out@ == after_number(w@),
{
    let end = core_end(w);
    if matches_word(w, end, &['0', '-', '0']) || matches_word(w, end, &['0', '-', '0', '-', '0']) {
        return w.clone();
    }
    let mut i: usize = 0;
    assert(w@.skip(0) =~= w@);
    while i < w.len() && '0' <= w[i] && w[i] <= '9'
        invariant
            i <= w@.len(),
            skip_digits(w@) == skip_digits(w@.skip(i as int)),
        decreases w@.len() - i,
    {
        proof {
            assert(w@.skip(i as int).drop_first() =~= w@.skip(i + 1));
        }
        i = i + 1;
    }
    assert(skip_digits(w@) == w@.skip(i as int));
    if i == 0 {
        return w.clone();
    }
    let ghost digits_end = i;
    while i < w.len() && w[i] == '.'
        invariant
            digits_end <= i <= w@.len(),
            skip_dots(skip_digits(w@)) == skip_dots(w@.skip(i as int)),
        decreases w@.len() - i,
    {
        proof {
            assert(w@.skip(i as int).drop_first() =~= w@.skip(i + 1));
        }
        i = i + 1;
    }
    let mut out: Vec<char> = Vec::new();
    let start = i;
    while i < w.len()
        invariant
            start <= i <= w@.len(),
            out@ == w@.subrange(start as int, i as int),
        decreases w@.len() - i,
    {
        out.push(w[i]);
        proof {
            assert(w@.subrange(start as int, i + 1) =~= w@.subrange(start as int, i as int).push(w@[i as int]));
        }
        i = i + 1;
    }
    proof {
        assert(out@ =~= w@.skip(start as int));
    }
    out
}

/// Splits cleaned movetext into SAN move tokens, separating out the trailing
/// result token (`1-0`/`0-1`/`1/2-1/2`/`*`) if present.
pub fn tokenize_movetext(pgn: &str) -> (res: (Vec<String>, Option<String>))
    ensures
        string_views(res.0@) == move_tokens(words_spec(movetext_of(pgn@))),
        match res.1 {
            Some(r) => result_token(words_spec(movetext_of(pgn@))) == Some(r@),
            None => result_token(words_spec(movetext_of(pgn@))).is_none(),
        },
{
    let chars = chars_of(pgn);
    let no_tags = strip_tags_chars(&chars);
    let no_comments = strip_delimited_chars(&no_tags, '{', '}');
    let no_variations = strip_delimited_chars(&no_comments, '(', ')');
    let words = split_words(&no_variations);
    let ghost ws = char_views(words@);

    let mut tokens: Vec<String> = Vec::new();
    let mut result_tok: Option<String> = None;
    let mut i: usize = 0;
    while i < words.len()
        invariant
            i <= words@.len(),
            ws == char_views(words@),
            forall|k: int| 0 <= k < words@.len() ==> #[trigger] words@[k]@.len() > 0,
            string_views(tokens@) == move_tokens(ws.take(i as int)),
            match result_tok {
                Some(r) => result_token(ws.take(i as int)) == Some(r@),
                None => result_token(ws.take(i as int)).is_none(),
            },
        decreases words@.len() - i,
    {
        proof {
            assert(ws.take(i + 1).drop_last() =~= ws.take(i as int));
            assert(ws.take(i + 1).last() == words@[i as int]@);
        }
        let raw = &words[i];
        let nag = raw[0] == '$';
        if !nag {
            if is_result_token_exec(raw) {
                result_tok = Some(string_of(raw.as_slice()));
            } else {
                let after = after_number_exec(raw);
                if after.len() > 0 {
                    let ghost before = tokens@;
                    tokens.push(string_of(after.as_slice()));
                    proof {
                        assert(string_views(tokens@) =~= string_views(before).push(after@));
                    }
                }
            }
        }
        i = i + 1;
    }
    proof {
        assert(ws.take(words@.len() as int) =~= ws);
    }
    (tokens, result_tok)
}

proof fn lemma_scan_free_of_delimiters(s: Seq<char>, open: char, close: char)
    ensures
        !delimited_scan(s, open, close).0.contains(open),
        !delimited_scan(s, open, close).0.contains(close),
        delimited_scan(s, open, close).0.len() <= s.len(),
    decreases s.len(),
{
    if s.len() > 0 {
        lemma_scan_free_of_delimiters(s.drop_last(), open, close);
        let (out, depth) = delimited_scan(s.drop_last(), open, close);
        let c = s.last();
        if c != open && c != close && depth == 0 {
            assert forall|k: int| 0 <= k < out.push(c).len() implies out.push(c)[k] != open
                && out.push(c)[k] != close by {
                if k < out.len() {
                    assert(out.contains(out[k]));
                }
            }
        }
    }
}

proof fn lemma_scan_identity(s: Seq<char>, open: char, close: char)
    requires
        !s.contains(open),
        !s.contains(close),
    ensures
        delimited_scan(s, open, close) == (s, 0nat),
    decreases s.len(),
{
    if s.len() > 0 {
        assert(!s.drop_last().contains(open)) by {
            if s.drop_last().contains(open) {
                let k = choose|k: int| 0 <= k < s.drop_last().len() && s.drop_last()[k] == open;
                assert(s[k] == open);
            }
        }
        assert(!s.drop_last().contains(close)) by {
            if s.drop_last().contains(close) {
                let k = choose|k: int| 0 <= k < s.drop_last().len() && s.drop_last()[k] == close;
                assert(s[k] == close);
            }
        }
        lemma_scan_identity(s.drop_last(), open, close);
        assert(s.last() != open && s.last() != close) by {
            assert(s[s.len() - 1] == s.last());
        }
        assert(s.drop_last().push(s.last()) =~= s);
    }
}

/// Stripping leaves neither delimiter in the text and never makes it longer.
pub proof fn lemma_strip_delimited_removes_delimiters(s: Seq<char>, open: char, close: char)
    ensures
        !strip_delimited_spec(s, open, close).contains(open),
        !strip_delimited_spec(s, open, close).contains(close),
        strip_delimited_spec(s, open, close).len() <= s.len(),
{
    lemma_scan_free_of_delimiters(s, open, close);
}

/// Text without either delimiter is left unchanged.
pub proof fn lemma_strip_delimited_identity(s: Seq<char>, open: char, close: char)
    requires
        !s.contains(open),
        !s.contains(close),
    ensures
        strip_delimited_spec(s, open, close) == s,
{
    lemma_scan_identity(s, open, close);
}

/// Stripping twice is the same as stripping once.
pub proof fn lemma_strip_delimited_idempotent(s: Seq<char>, open: char, close: char)
    ensures
        strip_delimited_spec(strip_delimited_spec(s, open, close), open, close)
            == strip_delimited_spec(s, open, close),
{
    lemma_scan_free_of_delimiters(s, open, close);
    lemma_scan_identity(strip_delimited_spec(s, open, close), open, close);
}

/// `idx` picks `sub` out of `s`: strictly increasing positions of `s`, one
/// for each character of `sub`, holding that character.
pub open spec fn picks(sub: Seq<char>, s: Seq<char>, idx: Seq<int>) -> bool {
    &&& idx.len() == sub.len()
    &&& forall|i: int, j: int| 0 <= i < j < idx.len() ==> idx[i] < idx[j]
    &&& forall|i: int| 0 <= i < idx.len() ==> 0 <= #[trigger] idx[i] < s.len() && sub[i] == s[idx[i]]
}

/// `sub` is `s` with some characters left out, the others kept in order.
pub open spec fn is_subsequence(sub: Seq<char>, s: Seq<char>) -> bool {
    exists|idx: Seq<int>| #[trigger] picks(sub, s, idx)
}

proof fn lemma_kept_positions(s: Seq<char>, open: char, close: char) -> (idx: Seq<int>)
    ensures
        picks(strip_delimited_spec(s, open, close), s, idx),
    decreases s.len(),
{
    if s.len() == 0 {
        Seq::empty()
    } else {
        let prev = lemma_kept_positions(s.drop_last(), open, close);
        let (out, depth) = delimited_scan(s.drop_last(), open, close);
        let c = s.last();
        if c != open && c != close && depth == 0 {
            let idx = prev.push(s.len() - 1);
            let sub = out.push(c);
            assert forall|i: int| 0 <= i < idx.len() implies 0 <= #[trigger] idx[i] < s.len() && sub[i] == s[idx[i]] by {
                if i < prev.len() {
                    assert(idx[i] == prev[i]);
                    assert(s.drop_last()[prev[i]] == s[prev[i]]);
                }
            }
            idx
        } else {
            assert forall|i: int| 0 <= i < prev.len() implies 0 <= #[trigger] prev[i] < s.len() && out[i] == s[prev[i]] by {
                assert(s.drop_last()[prev[i]] == s[prev[i]]);
            }
            prev
        }
    }
}

/// Stripping only leaves characters out: what remains is a subsequence of
/// the text.
pub proof fn lemma_strip_delimited_subsequence(s: Seq<char>, open: char, close: char)
    ensures
        is_subsequence(strip_delimited_spec(s, open, close), s),
{
    let idx = lemma_kept_positions(s, open, close);
    assert(picks(strip_delimited_spec(s, open, close), s, idx));
}

proof fn lemma_lines_scan_no_newline(s: Seq<char>)
    ensures
        !lines_scan(s).1.contains('\n'),
        forall|i: int| 0 <= i < lines_scan(s).0.len() ==> !(#[trigger] lines_scan(s).0[i]).contains('\n'),
    decreases s.len(),
{
    if s.len() > 0 {
        lemma_lines_scan_no_newline(s.drop_last());
        let (done, cur) = lines_scan(s.drop_last());
        if s.last() == '\n' {
            assert(!strip_cr(cur).contains('\n')) by {
                if strip_cr(cur).contains('\n') {
                    let k = choose|k: int| 0 <= k < strip_cr(cur).len() && strip_cr(cur)[k] == '\n';
                    assert(cur[k] == '\n');
                }
            }
            assert forall|i: int| 0 <= i < done.push(strip_cr(cur)).len() implies !(#[trigger] done.push(
                strip_cr(cur),
            )[i]).contains('\n') by {
                if i < done.len() {
                    assert(done.push(strip_cr(cur))[i] == done[i]);
                }
            }
        } else {
            assert(!cur.push(s.last()).contains('\n')) by {
                if cur.push(s.last()).contains('\n') {
                    let k = choose|k: int| 0 <= k < cur.push(s.last()).len() && cur.push(s.last())[k] == '\n';
                    if k < cur.len() {
                        assert(cur[k] == '\n');
                    }
                }
            }
        }
    }
}

proof fn lemma_take_until_avoids(s: Seq<char>, stop: char, c: char)
    requires
        !s.contains(c) || c == stop,
    ensures
        !take_until(s, stop).contains(c),
        !take_until(s, stop).contains(stop),
    decreases s.len(),
{
    if s.len() > 0 && s[0] != stop {
        assert(!s.drop_first().contains(c) || c == stop) by {
            if s.drop_first().contains(c) && c != stop {
                let k = choose|k: int| 0 <= k < s.drop_first().len() && s.drop_first()[k] == c;
                assert(s[k + 1] == c);
            }
        }
        lemma_take_until_avoids(s.drop_first(), stop, c);
        let t = seq![s[0]] + take_until(s.drop_first(), stop);
        assert forall|k: int| 0 <= k < t.len() implies t[k] != c && t[k] != stop by {
            if k > 0 {
                assert(t[k] == take_until(s.drop_first(), stop)[k - 1]);
                assert(take_until(s.drop_first(), stop).contains(t[k]));
            } else {
                assert(s.contains(s[0]));
            }
        }
    }
}

proof fn lemma_movetext_lines_avoid(lines: Seq<Seq<char>>)
    requires
        forall|i: int| 0 <= i < lines.len() ==> !(#[trigger] lines[i]).contains('\n'),
    ensures
        forall|i: int| 0 <= i < movetext_lines(lines).len() ==> !(#[trigger] movetext_lines(lines)[i]).contains('\n')
            && !movetext_lines(lines)[i].contains(';'),
    decreases lines.len(),
{
    if lines.len() > 0 {
        lemma_movetext_lines_avoid(lines.drop_last());
        let rest = movetext_lines(lines.drop_last());
        if !is_tag_line(lines.last()) {
            let l = lines.last();
            assert(!l.contains('\n'));
            lemma_take_until_avoids(l, ';', '\n');
            assert forall|i: int| 0 <= i < rest.push(take_until(l, ';')).len() implies !(#[trigger] rest.push(
                take_until(l, ';'),
            )[i]).contains('\n') && !rest.push(take_until(l, ';'))[i].contains(';') by {
                if i < rest.len() {
                    assert(rest.push(take_until(l, ';'))[i] == rest[i]);
                }
            }
        }
    }
}

proof fn lemma_join_avoids(parts: Seq<Seq<char>>, c: char)
    requires
        c != ' ',
        forall|i: int| 0 <= i < parts.len() ==> !(#[trigger] parts[i]).contains(c),
    ensures
        !join_spaces(parts).contains(c),
    decreases parts.len(),
{
    if parts.len() == 1 {
        assert(!parts[0].contains(c));
    } else if parts.len() > 1 {
        assert forall|i: int| 0 <= i < parts.drop_last().len() implies !(#[trigger] parts.drop_last()[i]).contains(c) by {
            assert(parts.drop_last()[i] == parts[i]);
        }
        lemma_join_avoids(parts.drop_last(), c);
        let a = join_spaces(parts.drop_last());
        let l = parts.last();
        assert(!l.contains(c)) by {
            assert(parts[parts.len() - 1] == l);
        }
        let j = a + seq![' '] + l;
        assert forall|k: int| 0 <= k < j.len() implies j[k] != c by {
            if k < a.len() {
                assert(j[k] == a[k]);
                assert(a.contains(a[k]));
            } else if k == a.len() {
            } else {
                assert(j[k] == l[k - a.len() - 1]);
                assert(l.contains(l[k - a.len() - 1]));
            }
        }
    }
}

/// The movetext read from a PGN text is on one line and holds no `;`
/// comment: it contains neither `'\n'` nor `';'`.
pub proof fn lemma_strip_tags_one_line(pgn: Seq<char>)
    ensures
        !strip_tags_spec(pgn).contains('\n'),
        !strip_tags_spec(pgn).contains(';'),
{
    let (done, cur) = lines_scan(pgn);
    lemma_lines_scan_no_newline(pgn);
    let ls = lines_spec(pgn);
    assert forall|i: int| 0 <= i < ls.len() implies !(#[trigger] ls[i]).contains('\n') by {
        if cur.len() != 0 && i == done.len() {
            assert(ls[i] == cur);
        } else {
            assert(ls[i] == done[i]);
        }
    }
    lemma_movetext_lines_avoid(ls);
    let ms = movetext_lines(ls);
    assert forall|i: int| 0 <= i < ms.len() implies !(#[trigger] ms[i]).contains(';') by {}
    lemma_join_avoids(ms, '\n');
    lemma_join_avoids(ms, ';');
}

/// `s` holds no white space.
pub open spec fn no_ws(s: Seq<char>) -> bool {
    forall|i: int| 0 <= i < s.len() ==> !is_ws(#[trigger] s[i])
}

proof fn lemma_words_scan_shape(s: Seq<char>)
    ensures
        no_ws(words_scan(s).1),
        forall|i: int| 0 <= i < words_scan(s).0.len() ==> no_ws(#[trigger] words_scan(s).0[i])
            && words_scan(s).0[i].len() > 0,
    decreases s.len(),
{
    if s.len() > 0 {
        lemma_words_scan_shape(s.drop_last());
        let (done, cur) = words_scan(s.drop_last());
        if is_ws(s.last()) {
            if cur.len() > 0 {
                assert forall|i: int| 0 <= i < done.push(cur).len() implies no_ws(#[trigger] done.push(cur)[i])
                    && done.push(cur)[i].len() > 0 by {
                    if i < done.len() {
                        assert(done.push(cur)[i] == done[i]);
                    }
                }
            }
        } else {
            assert forall|i: int| 0 <= i < cur.push(s.last()).len() implies !is_ws(#[trigger] cur.push(s.last())[i]) by {
                if i < cur.len() {
                    assert(cur.push(s.last())[i] == cur[i]);
                }
            }
        }
    }
}

proof fn lemma_skip_digits_suffix(s: Seq<char>)
    ensures
        exists|k: int| 0 <= k <= s.len() && skip_digits(s) == #[trigger] s.skip(k),
    decreases s.len(),
{
    if s.len() > 0 && '0' <= s[0] <= '9' {
        lemma_skip_digits_suffix(s.drop_first());
        let k = choose|k: int| 0 <= k <= s.drop_first().len() && skip_digits(s.drop_first()) == #[trigger] s.drop_first().skip(k);
        assert(s.drop_first().skip(k) =~= s.skip(k + 1));
    } else {
        assert(s.skip(0) =~= s);
    }
}

proof fn lemma_skip_dots_suffix(s: Seq<char>)
    ensures
        exists|k: int| 0 <= k <= s.len() && skip_dots(s) == #[trigger] s.skip(k),
    decreases s.len(),
{
    if s.len() > 0 && s[0] == '.' {
        lemma_skip_dots_suffix(s.drop_first());
        let k = choose|k: int| 0 <= k <= s.drop_first().len() && skip_dots(s.drop_first()) == #[trigger] s.drop_first().skip(k);
        assert(s.drop_first().skip(k) =~= s.skip(k + 1));
    } else {
        assert(s.skip(0) =~= s);
    }
}

proof fn lemma_after_number_no_ws(w: Seq<char>)
    requires
        no_ws(w),
    ensures
        no_ws(after_number(w)),
{
    lemma_skip_digits_suffix(w);
    let k = choose|k: int| 0 <= k <= w.len() && skip_digits(w) == #[trigger] w.skip(k);
    let d = skip_digits(w);
    assert(no_ws(d)) by {
        assert forall|i: int| 0 <= i < d.len() implies !is_ws(#[trigger] d[i]) by {
            assert(d[i] == w[i + k]);
        }
    }
    lemma_skip_dots_suffix(d);
    let j = choose|j: int| 0 <= j <= d.len() && skip_dots(d) == #[trigger] d.skip(j);
    let e = skip_dots(d);
    assert forall|i: int| 0 <= i < e.len() implies !is_ws(#[trigger] e[i]) by {
        assert(e[i] == d[i + j]);
    }
}

proof fn lemma_move_tokens_shape(words: Seq<Seq<char>>)
    requires
        forall|i: int| 0 <= i < words.len() ==> no_ws(#[trigger] words[i]),
    ensures
        forall|i: int| 0 <= i < move_tokens(words).len() ==> no_ws(#[trigger] move_tokens(words)[i])
            && move_tokens(words)[i].len() > 0,
    decreases words.len(),
{
    if words.len() > 0 {
        assert forall|i: int| 0 <= i < words.drop_last().len() implies no_ws(#[trigger] words.drop_last()[i]) by {
            assert(words.drop_last()[i] == words[i]);
        }
        lemma_move_tokens_shape(words.drop_last());
        let w = words.last();
        assert(no_ws(w)) by {
            assert(words[words.len() - 1] == w);
        }
        lemma_after_number_no_ws(w);
        let rest = move_tokens(words.drop_last());
        if !(is_nag(w) || is_result_token(w) || after_number(w).len() == 0) {
            assert forall|i: int| 0 <= i < rest.push(after_number(w)).len() implies no_ws(
                #[trigger] rest.push(after_number(w))[i],
            ) && rest.push(after_number(w))[i].len() > 0 by {
                if i < rest.len() {
                    assert(rest.push(after_number(w))[i] == rest[i]);
                }
            }
        }
    }
}

/// Every move token read from a PGN text is non-empty and holds no white
/// space.
pub proof fn lemma_move_tokens_are_words(pgn: Seq<char>)
    ensures
        forall|i: int| 0 <= i < move_tokens(words_spec(movetext_of(pgn))).len() ==> no_ws(
            #[trigger] move_tokens(words_spec(movetext_of(pgn)))[i],
        ) && move_tokens(words_spec(movetext_of(pgn)))[i].len() > 0,
{
    let s = movetext_of(pgn);
    lemma_words_scan_shape(s);
    let (done, cur) = words_scan(s);
    let ws = words_spec(s);
    assert forall|i: int| 0 <= i < ws.len() implies no_ws(#[trigger] ws[i]) by {
        if cur.len() != 0 && i == done.len() {
            assert(ws[i] == cur);
        } else {
            assert(ws[i] == done[i]);
        }
    }
    lemma_move_tokens_shape(ws);
}

} // verus!
