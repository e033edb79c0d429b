use vstd::prelude::*;
use vstd::string::StringExecFns;

use crate::pgn_decode::{split_words, words_spec};
use crate::text::{chars_of, push_char};
use std::time::{Duration, UNIX_EPOCH};

verus! {

/// The game results the header reports as they are; any other last word of
/// the move text is reported as `*`.
pub open spec fn is_reported_result(w: Seq<char>) -> bool {
    ||| w == seq!['0', '-', '1']
    ||| w == seq!['1', '-', '0']
    ||| w == seq!['1', '/', '2', '-', '1', '/', '2']
}

/// The PGN file text for the move text `san` dated `date`: the tag pairs
/// (event, site, date, players, and a result taken from the last word of the
/// move text), a blank line, the move text and a newline. There is none when
/// the move text has no word.
pub open spec fn pgn_text_spec(san: Seq<char>, date: Seq<char>) -> Option<Seq<char>> {
    let words = words_spec(san);
    if words.len() == 0 {
        None
    } else {
        let result = if is_reported_result(words.last()) {
            words.last()
        } else {
            seq!['*']
        };
        Some(
            "[Event \"ChessGame\"]\n[Site \"ChessGame\"]\n[Date \""@ + date
                + "\"]\n[White \"White_player\"]\n[Black \"Black_player\"]\n"@ + "[Result : \""@
                + result + "\"]\n\n"@ + san + seq!['\n'],
        )
    }
}

/// The date chrono writes for the instant `secs` seconds and `nanos`
/// nanoseconds after 1970-01-01 00:00:00 UTC (`DateTime::from_timestamp`,
/// then its `Display`, such as `2015-05-15 00:00:00 UTC`), or `None` when
/// chrono has no date for it.
pub uninterp spec fn utc_date_of(secs: i64, nanos: u32) -> Option<Seq<char>>;

/// `chrono::DateTime::from_timestamp(secs, nanos)`, written as text. The
/// contract claims only that the result is the chrono date of its two
/// arguments (see [`utc_date_of`]).
#[verifier::external_body]
fn utc_date_text(secs: i64, nanos: u32) -> (r: Option<String>)
    ensures
        match r {
            Some(s) => utc_date_of(secs, nanos) == Some(s@),
            None => utc_date_of(secs, nanos).is_none(),
        },
{
    match chrono::DateTime::from_timestamp(secs, nanos) {
        Some(d) => Some(d.to_string()),
        None => None,
    }
}

/// The time elapsed since 1970-01-01 00:00:00 UTC by the system clock
/// (`UNIX_EPOCH.elapsed()`), or `None` when the clock reads an earlier time.
/// Nothing is stated of the reading: it depends on the clock.
#[verifier::external_body]
fn elapsed_since_epoch() -> Option<Duration> {
    match UNIX_EPOCH.elapsed() {
        Ok(d) => Some(d),
        Err(_) => None,
    }
}

/// `Duration::as_secs`: the whole seconds of `d`. A `Duration` is opaque to
/// the library, so nothing is stated of them.
#[verifier::external_body]
fn whole_seconds(d: &Duration) -> u64 {
    d.as_secs()
}

/// `Duration::subsec_nanos`: the nanoseconds of `d` past its whole seconds,
/// which the documentation says are fewer than one billion; nothing more is
/// stated of them.
#[verifier::external_body]
fn subsec_nanos(d: &Duration) -> (n: u32)
    ensures
        n < 1_000_000_000,
{
    d.subsec_nanos()
}

fn is_reported_result_exec(w: &Vec<char>) -> (b: bool)
    ensures
        b == is_reported_result(w@),
{
    let n = w.len();
    let a = n == 3 && w[0] == '0' && w[1] == '-' && w[2] == '1';
    let b = n == 3 && w[0] == '1' && w[1] == '-' && w[2] == '0';
    let c = n == 7 && w[0] == '1' && w[1] == '/' && w[2] == '2' && w[3] == '-' && w[4] == '1' && w[5]
        == '/' && w[6] == '2';
    proof {
        if a {
            assert(w@ =~= seq!['0', '-', '1']);
        }
        if b {
            assert(w@ =~= seq!['1', '-', '0']);
        }
        if c {
            assert(w@ =~= seq!['1', '/', '2', '-', '1', '/', '2']);
        }
    }
    a || b || c
}

/// The PGN file text for the move text `san` dated `date` (see
/// [`pgn_text_spec`]).
pub fn pgn_text(san: &str, date: &str) -> (r: Option<String>)
    ensures
        match r {
            Some(t) => pgn_text_spec(san@, date@) == Some(t@),
            None => pgn_text_spec(san@, date@).is_none(),
        },
{
    let chars = chars_of(san);
    let words = split_words(&chars);
    let n = words.len();
    if n == 0 {
        return None;
    }
    let mut pgn = String::new();
    pgn.append("[Event \"ChessGame\"]\n[Site \"ChessGame\"]\n[Date \"");
    pgn.append(date);
    pgn.append("\"]\n[White \"White_player\"]\n[Black \"Black_player\"]\n");
    pgn.append("[Result : \"");
    let last = &words[n - 1];
    proof {
        assert(words@[n - 1]@ == words_spec(san@).last());
    }
    if is_reported_result_exec(last) {
        let mut i: usize = 0;
        let ghost start = pgn@;
        while i < last.len()
            invariant
                i <= last@.len(),
                pgn@ == start + last@.take(i as int),
            decreases last@.len() - i,
        {
            push_char(&mut pgn, last[i]);
            proof {
                assert(last@.take(i + 1) =~= last@.take(i as int).push(last@[i as int]));
            }
            i = i + 1;
        }
        proof {
            assert(last@.take(last@.len() as int) =~= last@);
        }
    } else {
        push_char(&mut pgn, '*');
        proof {
            assert(seq!['*'] =~= Seq::<char>::empty().push('*'));
        }
    }
    pgn.append("\"]\n\n");
    pgn.append(san);
    push_char(&mut pgn, '\n');
    Some(pgn)
}

/// The PGN file text for the move text `san` dated by the clock reading
/// `clock` (seconds and nanoseconds since 1970, taken as `i64` seconds the
/// way `as` converts them): none without a reading, without a chrono date
/// for it, or without a word in the move text.
pub open spec fn exported_pgn(san: Seq<char>, clock: Option<(u64, u32)>) -> Option<Seq<char>> {
    match clock {
        None => None,
        Some(c) => match utc_date_of(c.0 as i64, c.1) {
            None => None,
            Some(date) => pgn_text_spec(san, date),
        },
    }
}

/// The PGN file text for the move text `san`, dated by the clock reading
/// `clock` (see [`exported_pgn`]).
pub fn export_pgn_with_clock(san: &str, clock: Option<(u64, u32)>) -> (r: Option<String>)
    ensures
        match r {
            Some(t) => exported_pgn(san@, clock) == Some(t@),
            None => exported_pgn(san@, clock).is_none(),
        },
{
    match clock {
        None => None,
        Some(c) => {
            let secs = c.0 as i64;
            match utc_date_text(secs, c.1) {
                None => None,
                Some(date) => pgn_text(san, date.as_str()),
            }
        },
    }
}

/// The PGN file text for the move text `san`, dated now: none when the
/// move text has no word, and else the text of [`pgn_text_spec`] for the
/// date chrono writes for the clock reading, if the clock gave one that
/// chrono can write.
pub fn export_pgn_text(san: &str) -> (r: Option<String>)
    ensures
        words_spec(san@).len() == 0 ==> r.is_none(),
        r matches Some(t) ==> exists|secs: i64, nanos: u32, date: Seq<char>|
            #![trigger utc_date_of(secs, nanos), pgn_text_spec(san@, date)]
            utc_date_of(secs, nanos) == Some(date) && pgn_text_spec(san@, date) == Some(t@),
{
    let clock = match elapsed_since_epoch() {
        Some(d) => Some((whole_seconds(&d), subsec_nanos(&d))),
        None => None,
    };
    export_pgn_with_clock(san, clock)
}

} // verus!
