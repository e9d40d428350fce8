//! The inbound wire protocol: colon-delimited text frames.
//!
//! A frame is a sequence of `:`-separated tokens.  The first token selects
//! the command: `PLAY:<label>:<index>` applies a move, `RESET` clears the
//! board, `LEAVE` vacates the sender's seat, and any other first token is
//! ignored.  A `PLAY` frame with fewer than three tokens, a label other than
//! `X` or `O`, or an index that is not a digit string with value below 9 is
//! malformed, which is fatal to the sending connection alone.

use vstd::prelude::*;
use crate::game::{GameError, Label};

verus! {

/// The token separator, `:`.
pub const SEP: u8 = 58;

/// A parsed inbound frame.
#[derive(Clone, Copy, PartialEq, Eq, Structural, Debug)]
pub enum Frame {
    /// `PLAY:<label>:<index>`: write the label into the cell.
    Play { label: Label, index: usize },
    /// `RESET`: clear the board.
    Reset,
    /// `LEAVE`: vacate the sender's seat.
    Leave,
    /// Any other command token: ignored by the handler.
    Unknown,
}

/// Position of the first separator, or the length if there is none.
pub open spec fn spec_first_sep(s: Seq<u8>) -> int
    decreases s.len(),
{
    if s.len() == 0 {
        0
    } else if s[0] == SEP {
        0
    } else {
        1 + spec_first_sep(s.drop_first())
    }
}

/// The bytes of the `PLAY` command token.
pub open spec fn tok_play() -> Seq<u8> {
    seq![80u8, 76u8, 65u8, 89u8]
}

/// The bytes of the `RESET` command token.
pub open spec fn tok_reset() -> Seq<u8> {
    seq![82u8, 69u8, 83u8, 69u8, 84u8]
}

/// The bytes of the `LEAVE` command token.
pub open spec fn tok_leave() -> Seq<u8> {
    seq![76u8, 69u8, 65u8, 86u8, 69u8]
}

/// The label a one-byte token names, if any.
pub open spec fn spec_label(t: Seq<u8>) -> Option<Label> {
    if t == seq![88u8] {
        Some(Label::X)
    } else if t == seq![79u8] {
        Some(Label::O)
    } else {
        None
    }
}

/// Whether the token is one or more decimal digits.
pub open spec fn is_digits(t: Seq<u8>) -> bool {
    t.len() > 0 && forall|i: int| 0 <= i < t.len() ==> 48 <= #[trigger] t[i] <= 57
}

/// The number a digit token denotes.
pub open spec fn digits_value(t: Seq<u8>) -> int
    decreases t.len(),
{
    if t.len() == 0 {
        0
    } else {
        digits_value(t.drop_last()) * 10 + (t.last() - 48)
    }
}

/// What parsing an inbound frame yields: the command named by the tokens, or
/// `MalformedFrame` for a `PLAY` that does not carry a label in {X, O} and a
/// digit index below 9.
pub open spec fn parse_model(s: Seq<u8>) -> Result<Frame, GameError> {
    let c1 = spec_first_sep(s);
    let t0 = s.take(c1);
    if t0 == tok_play() {
        if c1 >= s.len() {
            Err(GameError::MalformedFrame)
        } else {
            let rest1 = s.skip(c1 + 1);
            let c2 = spec_first_sep(rest1);
            if c2 >= rest1.len() {
                Err(GameError::MalformedFrame)
            } else {
                let t1 = rest1.take(c2);
                let rest2 = rest1.skip(c2 + 1);
                let t2 = rest2.take(spec_first_sep(rest2));
                match spec_label(t1) {
                    Some(label) => if is_digits(t2) && digits_value(t2) < 9 {
                        Ok(Frame::Play { label, index: digits_value(t2) as usize })
                    } else {
                        Err(GameError::MalformedFrame)
                    },
                    None => Err(GameError::MalformedFrame),
                }
            }
        }
    } else if t0 == tok_reset() {
        Ok(Frame::Reset)
    } else if t0 == tok_leave() {
        Ok(Frame::Leave)
    } else {
        Ok(Frame::Unknown)
    }
}

/// A digit token denotes a nonnegative number.
proof fn lemma_digits_nonneg(t: Seq<u8>)
    ensures
        (forall|i: int| 0 <= i < t.len() ==> 48 <= #[trigger] t[i] <= 57) ==> digits_value(t) >= 0,
    decreases t.len(),
{
    if t.len() > 0 {
        lemma_digits_nonneg(t.drop_last());
    }
}

/// The cell index of a well-parsed `PLAY` frame is always in range.
pub proof fn lemma_parse_index_bound(s: Seq<u8>)
    ensures
        match parse_model(s) {
            Ok(f) => match f {
                Frame::Play { label: _, index } => index < 9,
                _ => true,
            },
            Err(_) => true,
        },
{
    let c1 = spec_first_sep(s);
    let t0 = s.take(c1);
    if t0 == tok_play() && c1 < s.len() {
        let rest1 = s.skip(c1 + 1);
        let c2 = spec_first_sep(rest1);
        if c2 < rest1.len() {
            let rest2 = rest1.skip(c2 + 1);
            let t2 = rest2.take(spec_first_sep(rest2));
            lemma_digits_nonneg(t2);
        }
    }
}

/// A scan that stops at the first separator at or after `k` finds
/// `spec_first_sep` of the suffix.
proof fn lemma_first_sep(s: Seq<u8>, k: int)
    requires
        0 <= k <= s.len(),
        forall|i: int| 0 <= i < k ==> s[i] != SEP,
        k == s.len() || s[k] == SEP,
    ensures
        spec_first_sep(s) == k,
    decreases k,
{
    if k > 0 {
        lemma_first_sep(s.drop_first(), k - 1);
    }
}

/// The first separator position at or after `from`, or the length if the
/// rest of the frame has none.
fn first_sep_from(s: &[u8], from: usize) -> (r: usize)
    requires
        from <= s@.len(),
    ensures
        from <= r <= s@.len(),
        r - from == spec_first_sep(s@.skip(from as int)),
        forall|i: int| from <= i < r ==> s@[i] != SEP,
        r < s@.len() ==> s@[r as int] == SEP,
{
    let n = s.len();
    let mut i: usize = from;
    while i < n && s[i] != SEP
        invariant
            from <= i <= n,
            n == s@.len(),
            forall|j: int| from <= j < i ==> s@[j] != SEP,
        decreases n - i,
    {
        i += 1;
    }
    proof {
        let suffix = s@.skip(from as int);
        assert forall|j: int| 0 <= j < i - from implies suffix[j] != SEP by {
            assert(suffix[j] == s@[from + j]);
        }
        if i < n {
            assert(suffix[i - from] == s@[i as int]);
        }
        lemma_first_sep(suffix, i - from);
    }
    i
}

/// Whether the bytes in `[start, end)` are exactly `pat`.
fn token_matches(s: &[u8], start: usize, end: usize, pat: &Vec<u8>) -> (r: bool)
    requires
        start <= end <= s@.len(),
    ensures
        r == (s@.subrange(start as int, end as int) == pat@),
{
    let ghost t = s@.subrange(start as int, end as int);
    if end - start != pat.len() {
        proof {
            assert(t.len() != pat@.len());
        }
        return false;
    }
    let mut i: usize = 0;
    while i < pat.len()
        invariant
            i <= pat@.len(),
            pat@.len() == end - start,
            start <= end <= s@.len(),
            t == s@.subrange(start as int, end as int),
            forall|j: int| 0 <= j < i ==> t[j] == pat@[j],
        decreases pat@.len() - i,
    {
        if s[start + i] != pat[i] {
            proof {
                assert(t[i as int] == s@[start + i]);
                assert(t[i as int] != pat@[i as int]);
            }
            return false;
        }
        proof {
            assert(t[i as int] == s@[start + i]);
        }
        i += 1;
    }
    proof {
        assert(t =~= pat@);
    }
    true
}

/// The digit token in `[start, end)` as a cell index, if it is one or more
/// digits with value below 9.
fn parse_index(s: &[u8], start: usize, end: usize) -> (r: Option<usize>)
    requires
        start <= end <= s@.len(),
    ensures
        ({
            let t = s@.subrange(start as int, end as int);
            match r {
                Some(v) => is_digits(t) && digits_value(t) == v && v < 9,
                None => !(is_digits(t) && digits_value(t) < 9),
            }
        }),
{
    let ghost t = s@.subrange(start as int, end as int);
    if start == end {
        proof {
            assert(!is_digits(t));
        }
        return None;
    }
    let mut value: usize = 0;
    let mut big = false;
    let mut i: usize = start;
    while i < end
        invariant
            start <= i <= end <= s@.len(),
            t == s@.subrange(start as int, end as int),
            forall|j: int| 0 <= j < i - start ==> 48 <= #[trigger] t[j] <= 57,
            !big ==> value == digits_value(t.take(i - start)) && value <= 89,
            big ==> digits_value(t.take(i - start)) >= 9,
        decreases end - i,
    {
        let b = s[i];
        proof {
            assert(t[i - start] == s@[i as int]);
        }
        if b < 48 || b > 57 {
            proof {
                assert(!is_digits(t));
            }
            return None;
        }
        let ghost pre = t.take(i - start);
        proof {
            assert(t.take(i - start + 1).drop_last() =~= pre);
            assert(t.take(i - start + 1).last() == t[i - start]);
            assert(digits_value(t.take(i - start + 1)) == digits_value(pre) * 10 + (t[i - start]
                - 48));
        }
        if big || value >= 9 {
            big = true;
        } else {
            value = value * 10 + ((b - 48) as usize);
        }
        i += 1;
    }
    proof {
        assert(t.take(end - start) =~= t);
        assert(is_digits(t));
    }
    if !big && value < 9 {
        Some(value)
    } else {
        None
    }
}

/// The `PLAY` token as bytes.
fn play_pat() -> (r: Vec<u8>)
    ensures
        r@ == tok_play(),
{
    let mut v: Vec<u8> = Vec::new();
    v.push(80);
    v.push(76);
    v.push(65);
    v.push(89);
    proof {
        assert(v@ =~= tok_play());
    }
    v
}

/// The `RESET` token as bytes.
fn reset_pat() -> (r: Vec<u8>)
    ensures
        r@ == tok_reset(),
{
    let mut v: Vec<u8> = Vec::new();
    v.push(82);
    v.push(69);
    v.push(83);
    v.push(69);
    v.push(84);
    proof {
        assert(v@ =~= tok_reset());
    }
    v
}

/// The `LEAVE` token as bytes.
fn leave_pat() -> (r: Vec<u8>)
    ensures
        r@ == tok_leave(),
{
    let mut v: Vec<u8> = Vec::new();
    v.push(76);
    v.push(69);
    v.push(65);
    v.push(86);
    v.push(69);
    proof {
        assert(v@ =~= tok_leave());
    }
    v
}

/// Parses one inbound text frame, given as its bytes.
pub fn parse_frame(frame: &[u8]) -> (r: Result<Frame, GameError>)
    ensures
        r == parse_model(frame@),
{
    let ghost s = frame@;
    let n = frame.len();
    let c1 = first_sep_from(frame, 0);
    proof {
        assert(s.skip(0) =~= s);
        assert(s.take(spec_first_sep(s)) =~= s.subrange(0, c1 as int));
    }
    if token_matches(frame, 0, c1, &play_pat()) {
        if c1 >= n {
            return Err(GameError::MalformedFrame);
        }
        let c2 = first_sep_from(frame, c1 + 1);
        let ghost rest1 = s.skip(c1 + 1);
        proof {
            assert(rest1.take(spec_first_sep(rest1)) =~= s.subrange(c1 + 1, c2 as int));
        }
        if c2 >= n {
            proof {
                assert(spec_first_sep(rest1) >= rest1.len());
            }
            return Err(GameError::MalformedFrame);
        }
        proof {
            assert(spec_first_sep(rest1) < rest1.len());
        }
        let c3 = first_sep_from(frame, c2 + 1);
        let ghost rest2 = rest1.skip(spec_first_sep(rest1) + 1);
        proof {
            assert(rest2 =~= s.skip(c2 + 1));
            assert(rest2.take(spec_first_sep(rest2)) =~= s.subrange(c2 + 1, c3 as int));
        }
        let label: Label;
        if c2 - (c1 + 1) == 1 && frame[c1 + 1] == 88 {
            proof {
                assert(s.subrange(c1 + 1, c2 as int) =~= seq![88u8]);
            }
            label = Label::X;
        } else if c2 - (c1 + 1) == 1 && frame[c1 + 1] == 79 {
            proof {
                assert(s.subrange(c1 + 1, c2 as int) =~= seq![79u8]);
                assert(s.subrange(c1 + 1, c2 as int) != seq![88u8]);
            }
            label = Label::O;
        } else {
            proof {
                let t1 = s.subrange(c1 + 1, c2 as int);
                if t1 == seq![88u8] {
                    assert(t1.len() == 1 && t1[0] == 88u8);
                    assert(false);
                }
                if t1 == seq![79u8] {
                    assert(t1.len() == 1 && t1[0] == 79u8);
                    assert(false);
                }
            }
            return Err(GameError::MalformedFrame);
        }
        match parse_index(frame, c2 + 1, c3) {
            Some(index) => Ok(Frame::Play { label, index }),
            None => Err(GameError::MalformedFrame),
        }
    } else if token_matches(frame, 0, c1, &reset_pat()) {
        Ok(Frame::Reset)
    } else if token_matches(frame, 0, c1, &leave_pat()) {
        Ok(Frame::Leave)
    } else {
        Ok(Frame::Unknown)
    }
}

} // verus!
