//! The engine-facing side of the line protocol that drives a game: parsing
//! of the lines an external referee sends ("player", "hand", "bid" and
//! "card" payloads), and the bid-phase bookkeeping that decides when
//! bidding is over.  Reading and writing the lines themselves is the
//! caller's business.

use vstd::prelude::*;
use vstd::string::StrSliceExecFns;
use vstd::string::StringExecFns;
use crate::cards::{spec_decode, Card, PlayerId, NB_PLAYERS};
use crate::hand::Hand;

verus! {

/// Why a protocol token was rejected.
#[derive(Clone, Copy, Debug, PartialEq, Eq, Structural)]
pub enum GameError {
    /// A suit, rank or card code was malformed, or a numeric field did not
    /// parse as a number of the expected width.
    InvalidFormat,
    /// A line did not carry the prefix, the field count or the player
    /// number the protocol requires at this point.
    ProtocolViolation,
}

/// The whitespace that separates protocol tokens.
pub open spec fn spec_is_ws(c: char) -> bool {
    c == ' ' || c == '\t' || c == '\r' || c == '\n'
}

/// Computes [`spec_is_ws`].
pub fn is_ws(c: char) -> (r: bool)
    ensures
        r == spec_is_ws(c),
{
    c == ' ' || c == '\t' || c == '\r' || c == '\n'
}

/// Length of the whitespace-free token at the head of `s` (zero at
/// whitespace or at the end).
pub open spec fn spec_token_len(s: Seq<char>) -> nat
    decreases s.len(),
{
    if s.len() == 0 || spec_is_ws(s[0]) {
        0
    } else {
        1 + spec_token_len(s.drop_first())
    }
}

/// The head token is never longer than the text.
pub proof fn lemma_token_len_bound(s: Seq<char>)
    ensures
        spec_token_len(s) <= s.len(),
    decreases s.len(),
{
    if s.len() > 0 && !spec_is_ws(s[0]) {
        lemma_token_len_bound(s.drop_first());
    }
}

/// The whitespace-separated tokens of `s`, in order.
pub open spec fn spec_tokenize(s: Seq<char>) -> Seq<Seq<char>>
    decreases s.len(),
    via spec_tokenize_decreases
{
    if s.len() == 0 {
        Seq::empty()
    } else if spec_is_ws(s[0]) {
        spec_tokenize(s.drop_first())
    } else {
        seq![s.take(spec_token_len(s) as int)] + spec_tokenize(s.skip(spec_token_len(s) as int))
    }
}

#[via_fn]
proof fn spec_tokenize_decreases(s: Seq<char>) {
    lemma_token_len_bound(s);
}

/// Skipping one whitespace character does not change the tokens.
proof fn lemma_tokenize_ws_step(s: Seq<char>, i: int)
    requires
        0 <= i < s.len(),
        spec_is_ws(s[i]),
    ensures
        spec_tokenize(s.skip(i)) == spec_tokenize(s.skip(i + 1)),
{
    let t = s.skip(i);
    assert(t[0] == s[i]);
    assert(t.drop_first() =~= s.skip(i + 1));
}

/// At a non-whitespace character the head token grows by one.
proof fn lemma_token_len_step(s: Seq<char>, i: int)
    requires
        0 <= i < s.len(),
        !spec_is_ws(s[i]),
    ensures
        spec_token_len(s.skip(i)) == 1 + spec_token_len(s.skip(i + 1)),
{
    let t = s.skip(i);
    assert(t[0] == s[i]);
    assert(t.drop_first() =~= s.skip(i + 1));
}

/// At a non-whitespace character the tokens are the head token followed by
/// the tokens after it.
proof fn lemma_tokenize_token_step(s: Seq<char>, i: int)
    requires
        0 <= i < s.len(),
        !spec_is_ws(s[i]),
    ensures
        spec_token_len(s.skip(i)) <= s.len() - i,
        spec_tokenize(s.skip(i)) == seq![
            s.subrange(i, i + spec_token_len(s.skip(i))),
        ] + spec_tokenize(s.skip(i + spec_token_len(s.skip(i)))),
{
    let t = s.skip(i);
    lemma_token_len_bound(t);
    let n = spec_token_len(t) as int;
    assert(t[0] == s[i]);
    assert(t.take(n) =~= s.subrange(i, i + n));
    assert(t.skip(n) =~= s.skip(i + n));
}

/// Splits `s` into its whitespace-separated tokens.
pub fn tokenize(s: &str) -> (r: Vec<String>)
    ensures
        r.deep_view() == spec_tokenize(s@),
{
    let n = s.unicode_len();
    let mut r: Vec<String> = Vec::new();
    let mut i: usize = 0;
    proof {
        assert(s@.skip(0) =~= s@);
        assert(r.deep_view() + spec_tokenize(s@.skip(0)) =~= spec_tokenize(s@));
    }
    while i < n
        invariant
            n == s@.len(),
            i <= n,
            r.deep_view() + spec_tokenize(s@.skip(i as int)) =~= spec_tokenize(s@),
        decreases n - i,
    {
        let c = s.get_char(i);
        if is_ws(c) {
            proof {
                lemma_tokenize_ws_step(s@, i as int);
            }
            i += 1;
        } else {
            let ghost tlen = spec_token_len(s@.skip(i as int));
            proof {
                lemma_tokenize_token_step(s@, i as int);
                assert(s@.skip(i as int)[0] == s@[i as int]);
                assert(tlen >= 1);
            }
            let start = i;
            while i < n && !is_ws(s.get_char(i))
                invariant
                    n == s@.len(),
                    start <= i <= n,
                    tlen == spec_token_len(s@.skip(start as int)),
                    tlen == (i - start) + spec_token_len(s@.skip(i as int)),
                decreases n - i,
            {
                proof {
                    lemma_token_len_step(s@, i as int);
                }
                i += 1;
            }
            proof {
                if i < n {
                    assert(s@.skip(i as int)[0] == s@[i as int]);
                    assert(spec_token_len(s@.skip(i as int)) == 0);
                } else {
                    assert(s@.skip(i as int).len() == 0);
                    assert(spec_token_len(s@.skip(i as int)) == 0);
                }
                assert(tlen == i - start);
            }
            let token = String::from_str(s.substring_char(start, i));
            let ghost old_tokens = r.deep_view();
            r.push(token);
            proof {
                assert(r.deep_view() =~= old_tokens.push(token@));
                assert(token@ == s@.subrange(start as int, start + tlen));
                assert(r.deep_view() + spec_tokenize(s@.skip(i as int)) =~= spec_tokenize(s@));
            }
        }
    }
    proof {
        assert(s@.skip(n as int).len() == 0);
        assert(r.deep_view() + spec_tokenize(s@.skip(n as int)) =~= r.deep_view());
    }
    r
}

/// Whether `c` is a decimal digit.
pub open spec fn spec_is_digit(c: char) -> bool {
    48 <= c as u32 <= 57
}

/// The value of a decimal digit.
pub open spec fn spec_digit_val(c: char) -> int {
    c as u32 - 48
}

/// The number a string of decimal digits denotes.
pub open spec fn spec_dec_value(s: Seq<char>) -> int
    decreases s.len(),
{
    if s.len() == 0 {
        0
    } else {
        spec_dec_value(s.drop_last()) * 10 + spec_digit_val(s.last())
    }
}

/// Whether `s` is one or more decimal digits.
pub open spec fn spec_all_digits(s: Seq<char>) -> bool {
    forall|i: int| 0 <= i < s.len() ==> spec_is_digit(#[trigger] s[i])
}

/// What a numeric protocol field denotes: the value of a non-empty run of
/// digits, if it fits the machine word.
pub open spec fn spec_parse_usize(s: Seq<char>) -> Option<int> {
    if s.len() > 0 && spec_all_digits(s) && spec_dec_value(s) <= usize::MAX {
        Some(spec_dec_value(s))
    } else {
        None
    }
}

/// A digit string's value is not negative.
proof fn lemma_dec_value_nonneg(s: Seq<char>)
    requires
        spec_all_digits(s),
    ensures
        spec_dec_value(s) >= 0,
    decreases s.len(),
{
    if s.len() > 0 {
        assert(spec_all_digits(s.drop_last())) by {
            assert(forall|i: int| 0 <= i < s.len() - 1 ==> s.drop_last()[i] == s[i]);
        }
        lemma_dec_value_nonneg(s.drop_last());
    }
}

/// A digit string's value only grows as digits are appended.
proof fn lemma_dec_value_monotone(s: Seq<char>, j: int)
    requires
        spec_all_digits(s),
        0 <= j <= s.len(),
    ensures
        spec_dec_value(s.subrange(0, j)) <= spec_dec_value(s),
    decreases s.len() - j,
{
    if j < s.len() {
        lemma_dec_value_monotone(s, j + 1);
        let pre = s.subrange(0, j);
        let cur = s.subrange(0, j + 1);
        assert(cur.drop_last() =~= pre);
        assert(spec_all_digits(pre)) by {
            assert(forall|i: int| 0 <= i < j ==> pre[i] == s[i]);
        }
        lemma_dec_value_nonneg(pre);
        assert(spec_is_digit(cur.last()));
    } else {
        assert(s.subrange(0, j) =~= s);
    }
}

/// Parses a non-empty, all-digit decimal number.  Fails exactly when the
/// field is empty, holds a non-digit, or does not fit the machine word.
pub fn parse_usize(s: &str) -> (r: Result<usize, GameError>)
    ensures
        r is Ok <==> spec_parse_usize(s@) is Some,
        (r matches Ok(v) ==> Some(v as int) == spec_parse_usize(s@)),
        (r matches Err(e) ==> e == GameError::InvalidFormat),
{
    let n = s.unicode_len();
    if n == 0 {
        return Err(GameError::InvalidFormat);
    }
    let mut acc: usize = 0;
    let mut i: usize = 0;
    proof {
        assert(s@.subrange(0, 0).len() == 0);
    }
    while i < n
        invariant
            n == s@.len(),
            i <= n,
            acc == spec_dec_value(s@.subrange(0, i as int)),
            spec_all_digits(s@.subrange(0, i as int)),
        decreases n - i,
    {
        let c = s.get_char(i);
        let u = c as u32;
        proof {
            let pre = s@.subrange(0, i as int);
            let cur = s@.subrange(0, i + 1 as int);
            assert(cur.drop_last() =~= pre);
            assert(cur.last() == s@[i as int]);
            assert(forall|j: int| 0 <= j < i ==> cur[j] == pre[j]);
        }
        if u < 48 || u > 57 {
            proof {
                assert(!spec_is_digit(s@[i as int]));
                assert(!spec_all_digits(s@));
            }
            return Err(GameError::InvalidFormat);
        }
        let d = (u - 48) as usize;
        if acc > (usize::MAX - d) / 10 {
            proof {
                let cur = s@.subrange(0, i + 1 as int);
                let m = (usize::MAX - d) as int;
                vstd::arithmetic::div_mod::lemma_fundamental_div_mod(m, 10);
                assert(m == 10 * (m / 10) + m % 10);
                assert(acc as int * 10 + d > usize::MAX);
                assert(spec_dec_value(cur) > usize::MAX);
                if spec_all_digits(s@) {
                    lemma_dec_value_monotone(s@, i + 1 as int);
                    assert(cur =~= s@.subrange(0, i + 1 as int));
                    assert(spec_dec_value(s@) > usize::MAX);
                }
            }
            return Err(GameError::InvalidFormat);
        }
        acc = acc * 10 + d;
        i += 1;
    }
    proof {
        assert(s@.subrange(0, n as int) =~= s@);
    }
    Ok(acc)
}

/// The rest of `s` after `prefix`, when `s` starts with it.
pub fn after_prefix<'a>(s: &'a str, prefix: &str) -> (r: Option<&'a str>)
    ensures
        r is Some <==> prefix@.is_prefix_of(s@),
        (r matches Some(rest) ==> rest@ == s@.skip(prefix@.len() as int)),
{
    let pn = prefix.unicode_len();
    let sn = s.unicode_len();
    if sn < pn {
        return None;
    }
    let mut j: usize = 0;
    while j < pn
        invariant
            pn == prefix@.len(),
            sn == s@.len(),
            pn <= sn,
            j <= pn,
            forall|k: int| 0 <= k < j ==> prefix@[k] == s@[k],
        decreases pn - j,
    {
        if s.get_char(j) != prefix.get_char(j) {
            proof {
                assert(!prefix@.is_prefix_of(s@)) by {
                    if prefix@.is_prefix_of(s@) {
                        assert(prefix@[j as int] == s@.subrange(0, pn as int)[j as int]);
                    }
                }
            }
            return None;
        }
        j += 1;
    }
    proof {
        assert(prefix@ =~= s@.subrange(0, pn as int));
        assert(s@.subrange(pn as int, sn as int) =~= s@.skip(pn as int));
    }
    Some(s.substring_char(pn, sn))
}

/// The prefix the referee puts before the observer's player number.
pub open spec fn spec_player_prefix() -> Seq<char> {
    seq!['p', 'l', 'a', 'y', 'e', 'r', ' ']
}

/// What a "player" line names: the observer's number, when the line carries
/// the prefix and a well-formed number.
pub open spec fn spec_get_me(line: Seq<char>) -> Option<int> {
    if spec_player_prefix().is_prefix_of(line) {
        spec_parse_usize(line.skip(spec_player_prefix().len() as int))
    } else {
        None
    }
}

/// Parses the "player <id>" line that opens a game.  A missing prefix is a
/// protocol violation; a malformed number is a format error.
pub fn get_me(line: &str) -> (r: Result<PlayerId, GameError>)
    ensures
        r is Ok <==> spec_get_me(line@) is Some,
        (r matches Ok(p) ==> Some(p as int) == spec_get_me(line@)),
        (r matches Err(e) ==> e == (if spec_player_prefix().is_prefix_of(line@) {
            GameError::InvalidFormat
        } else {
            GameError::ProtocolViolation
        })),
{
    proof {
        reveal_strlit("player ");
        assert("player "@ =~= spec_player_prefix());
    }
    match after_prefix(line, "player ") {
        Some(rest) => parse_usize(rest),
        None => Err(GameError::ProtocolViolation),
    }
}

/// The cards named by a sequence of card-code tokens, when every token is
/// well-formed.
pub open spec fn spec_decode_all(toks: Seq<Seq<char>>) -> Option<Seq<Card>>
    decreases toks.len(),
{
    if toks.len() == 0 {
        Some(Seq::empty())
    } else {
        if spec_decode(toks[0]) is Some && spec_decode_all(toks.drop_first()) is Some {
            Some(seq![spec_decode(toks[0])->0] + spec_decode_all(toks.drop_first())->0)
        } else {
            None
        }
    }
}

/// The card-code tokens of a "hand" line: everything after the first token,
/// which is the line's keyword and is not examined.
pub open spec fn spec_hand_tokens(line: Seq<char>) -> Seq<Seq<char>> {
    let toks = spec_tokenize(line);
    if toks.len() == 0 {
        toks
    } else {
        toks.drop_first()
    }
}

/// Parses the dealt hand from a "hand <card>..." line: every token after
/// the keyword must be a card code.
pub fn get_hand(line: &str) -> (r: Result<Hand, GameError>)
    ensures
        r is Ok <==> spec_decode_all(spec_hand_tokens(line@)) is Some,
        (r matches Ok(h) ==> Some(h@) == spec_decode_all(spec_hand_tokens(line@))),
        (r matches Err(e) ==> e == GameError::InvalidFormat),
{
    let toks = tokenize(line);
    let ghost tail = spec_hand_tokens(line@);
    let mut cards: Vec<Card> = Vec::new();
    if toks.len() == 0 {
        return Ok(Hand::new(cards));
    }
    let mut k: usize = 1;
    proof {
        assert(tail =~= toks.deep_view().drop_first());
        assert(tail.skip(0) =~= tail);
        assert(cards@ + spec_decode_all(tail)->0 =~= spec_decode_all(tail)->0);
    }
    while k < toks.len()
        invariant
            1 <= k <= toks.deep_view().len(),
            tail == spec_hand_tokens(line@),
            tail == toks.deep_view().drop_first(),
            spec_decode_all(tail) == (match spec_decode_all(tail.skip(k - 1)) {
                None => None::<Seq<Card>>,
                Some(rest) => Some(cards@ + rest),
            }),
        decreases toks.deep_view().len() - k,
    {
        let ghost remaining = tail.skip(k - 1);
        proof {
            assert(remaining[0] == tail[k - 1]);
            assert(tail[k - 1] == toks.deep_view()[k as int]);
            assert(remaining.drop_first() =~= tail.skip(k as int));
        }
        match Card::decode(toks[k].as_str()) {
            Ok(c) => {
                let ghost cards0 = cards@;
                cards.push(c);
                proof {
                    if spec_decode_all(tail.skip(k as int)) is Some {
                        assert(cards0 + (seq![c] + spec_decode_all(tail.skip(k as int))->0)
                            =~= cards@ + spec_decode_all(tail.skip(k as int))->0);
                    }
                }
            },
            Err(_) => {
                proof {
                    assert(spec_decode_all(remaining) is None);
                }
                return Err(GameError::InvalidFormat);
            },
        }
        k += 1;
    }
    proof {
        assert(tail.skip(k - 1).len() == 0);
        assert(cards@ + Seq::<Card>::empty() =~= cards@);
    }
    Ok(Hand::new(cards))
}

/// Position of the first space in `s`, or its length if there is none.
pub open spec fn spec_first_space(s: Seq<char>) -> nat
    decreases s.len(),
{
    if s.len() == 0 || s[0] == ' ' {
        0
    } else {
        1 + spec_first_space(s.drop_first())
    }
}

/// The first space is never past the end.
proof fn lemma_first_space_bound(s: Seq<char>)
    ensures
        spec_first_space(s) <= s.len(),
    decreases s.len(),
{
    if s.len() > 0 && s[0] != ' ' {
        lemma_first_space_bound(s.drop_first());
    }
}

/// Before a non-space character the first space moves one further out.
proof fn lemma_first_space_step(s: Seq<char>, i: int)
    requires
        0 <= i < s.len(),
        s[i] != ' ',
    ensures
        spec_first_space(s.skip(i)) == 1 + spec_first_space(s.skip(i + 1)),
{
    let t = s.skip(i);
    assert(t[0] == s[i]);
    assert(t.drop_first() =~= s.skip(i + 1));
}

/// The two fields around the first space of `s`, when it has one.
pub open spec fn spec_split_space(s: Seq<char>) -> Option<(Seq<char>, Seq<char>)> {
    let j = spec_first_space(s) as int;
    if j < s.len() {
        Some((s.take(j), s.skip(j + 1)))
    } else {
        None
    }
}

/// Splits `s` at its first space.
pub fn split_at_space<'a>(s: &'a str) -> (r: Option<(&'a str, &'a str)>)
    ensures
        r is Some <==> spec_split_space(s@) is Some,
        (r matches Some((a, b)) ==> Some((a@, b@)) == spec_split_space(s@)),
{
    let n = s.unicode_len();
    let mut j: usize = 0;
    proof {
        assert(s@.skip(0) =~= s@);
    }
    while j < n && s.get_char(j) != ' '
        invariant
            n == s@.len(),
            j <= n,
            spec_first_space(s@) == j + spec_first_space(s@.skip(j as int)),
        decreases n - j,
    {
        proof {
            lemma_first_space_step(s@, j as int);
        }
        j += 1;
    }
    proof {
        if j < n {
            assert(s@.skip(j as int)[0] == s@[j as int]);
            assert(spec_first_space(s@.skip(j as int)) == 0);
        } else {
            assert(s@.skip(j as int).len() == 0);
            assert(spec_first_space(s@.skip(j as int)) == 0);
        }
        assert(spec_first_space(s@) == j);
    }
    if j == n {
        return None;
    }
    let a = s.substring_char(0, j);
    let b = s.substring_char(j + 1, n);
    proof {
        assert(a@ =~= s@.take(j as int));
        assert(b@ =~= s@.skip(j + 1));
    }
    Some((a, b))
}

/// What a bid event line ("<player> <amount>") names.  A missing space or a
/// player not at the table is a protocol violation; a malformed or too-large
/// number is a format error.
pub open spec fn spec_parse_bid_line(s: Seq<char>) -> Result<(int, int), GameError> {
    match spec_split_space(s) {
        None => Err(GameError::ProtocolViolation),
        Some((a, b)) => match (spec_parse_usize(a), spec_parse_usize(b)) {
            (Some(p), Some(v)) => if p >= NB_PLAYERS {
                Err(GameError::ProtocolViolation)
            } else if v > 255 {
                Err(GameError::InvalidFormat)
            } else {
                Ok((p, v))
            },
            _ => Err(GameError::InvalidFormat),
        },
    }
}

/// Parses a bid event: the bidding player and the amount, zero meaning a
/// pass.
pub fn parse_bid_line(s: &str) -> (r: Result<(PlayerId, u8), GameError>)
    ensures
        (match r {
            Ok((p, v)) => spec_parse_bid_line(s@) == Ok::<(int, int), GameError>(
                (p as int, v as int),
            ) && p < NB_PLAYERS,
            Err(e) => spec_parse_bid_line(s@) == Err::<(int, int), GameError>(e),
        }),
{
    let (a, b) = match split_at_space(s) {
        Some(parts) => parts,
        None => {
            return Err(GameError::ProtocolViolation);
        },
    };
    let p = match parse_usize(a) {
        Ok(p) => p,
        Err(e) => {
            return Err(e);
        },
    };
    let v = match parse_usize(b) {
        Ok(v) => v,
        Err(e) => {
            return Err(e);
        },
    };
    if p >= NB_PLAYERS {
        return Err(GameError::ProtocolViolation);
    }
    if v > 255 {
        return Err(GameError::InvalidFormat);
    }
    Ok((p, v as u8))
}

/// What a card event line ("<player> <code>") names.  A missing space or a
/// player not at the table is a protocol violation; a malformed field is a
/// format error.
pub open spec fn spec_parse_card_line(s: Seq<char>) -> Result<(int, Card), GameError> {
    match spec_split_space(s) {
        None => Err(GameError::ProtocolViolation),
        Some((a, b)) => match (spec_parse_usize(a), spec_decode(b)) {
            (Some(p), Some(c)) => if p >= NB_PLAYERS {
                Err(GameError::ProtocolViolation)
            } else {
                Ok((p, c))
            },
            _ => Err(GameError::InvalidFormat),
        },
    }
}

/// Parses a card event: the playing player and the card shown.
pub fn parse_card_line(s: &str) -> (r: Result<(PlayerId, Card), GameError>)
    ensures
        (match r {
            Ok((p, c)) => spec_parse_card_line(s@) == Ok::<(int, Card), GameError>((p as int, c))
                && p < NB_PLAYERS,
            Err(e) => spec_parse_card_line(s@) == Err::<(int, Card), GameError>(e),
        }),
{
    let (a, b) = match split_at_space(s) {
        Some(parts) => parts,
        None => {
            return Err(GameError::ProtocolViolation);
        },
    };
    let p = match parse_usize(a) {
        Ok(p) => p,
        Err(e) => {
            return Err(e);
        },
    };
    let c = match Card::decode(b) {
        Ok(c) => c,
        Err(e) => {
            return Err(e);
        },
    };
    if p >= NB_PLAYERS {
        return Err(GameError::ProtocolViolation);
    }
    Ok((p, c))
}

/// Mathematical image of a [`BidPhase`].
pub ghost struct BidPhaseView {
    pub passes: int,
    pub did_bid: Seq<bool>,
}

impl BidPhaseView {
    /// The pass count stays within the table size, and there is one acted
    /// flag per player.
    pub open spec fn wf(self) -> bool {
        &&& 0 <= self.passes <= NB_PLAYERS
        &&& self.did_bid.len() == NB_PLAYERS
    }

    /// The phase after one bid event is heard.
    pub open spec fn spec_record(self, player: PlayerId, bid: u8) -> BidPhaseView {
        BidPhaseView {
            passes: if bid == 0 && self.passes < NB_PLAYERS {
                self.passes + 1
            } else {
                self.passes
            },
            did_bid: self.did_bid.update(player as int, true),
        }
    }

    /// Bidding is over once all but one player have passed and every player
    /// has acted.
    pub open spec fn spec_done(self) -> bool {
        &&& self.passes >= NB_PLAYERS - 1
        &&& forall|i: int| 0 <= i < self.did_bid.len() ==> self.did_bid[i]
    }
}

/// Bookkeeping for the bidding phase: how many passes have been heard
/// (counted up to the table size, past which more passes change nothing)
/// and which players have acted.
pub struct BidPhase {
    pub passes: usize,
    pub did_bid: Vec<bool>,
}

impl View for BidPhase {
    type V = BidPhaseView;

    open spec fn view(&self) -> BidPhaseView {
        BidPhaseView { passes: self.passes as int, did_bid: self.did_bid@ }
    }
}

impl BidPhase {
    /// A bid phase in which nobody has acted.
    pub fn new() -> (r: BidPhase)
        ensures
            r@.passes == 0,
            r@.did_bid =~= seq![false, false, false, false],
            r@.wf(),
    {
        let mut did_bid: Vec<bool> = Vec::new();
        did_bid.push(false);
        did_bid.push(false);
        did_bid.push(false);
        did_bid.push(false);
        proof {
            assert(did_bid@ =~= seq![false, false, false, false]);
        }
        BidPhase { passes: 0, did_bid }
    }

    /// Notes one bid event: the player has acted, and a zero bid counts as
    /// a pass.
    pub fn record(&mut self, player: PlayerId, bid: u8)
        requires
            old(self)@.wf(),
            player < NB_PLAYERS,
        ensures
            final(self)@ == old(self)@.spec_record(player, bid),
            final(self)@.wf(),
    {
        if bid == 0 && self.passes < NB_PLAYERS {
            self.passes = self.passes + 1;
        }
        self.did_bid[player] = true;
        proof {
            assert(self@.did_bid =~= old(self)@.did_bid.update(player as int, true));
        }
    }

    /// Whether the bidding phase is over.
    pub fn done(&self) -> (r: bool)
        requires
            self@.wf(),
        ensures
            r == self@.spec_done(),
    {
        let all = self.did_bid[0] && self.did_bid[1] && self.did_bid[2] && self.did_bid[3];
        let r = self.passes >= NB_PLAYERS - 1 && all;
        proof {
            if all {
                assert(forall|i: int| 0 <= i < self@.did_bid.len() ==> self@.did_bid[i]) by {
                    assert(self@.did_bid[0] && self@.did_bid[1] && self@.did_bid[2]
                        && self@.did_bid[3]);
                }
            }
        }
        r
    }
}

} // verus!
