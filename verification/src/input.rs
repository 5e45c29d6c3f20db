//! Parsing of the answer that the user types at the repair prompt.

use vstd::prelude::*;
use crate::text::{
    ascii_lowercase, all_digits, digit_value, lemma_decimal_plain, lemma_decimal_value, lemma_trim_idempotent, chars_eq, chars_of, decimal, digits_value, is_ascii_digit,
    lemma_digits_value_prefix, push_decimal, string_of, sub_chars, to_ascii_lowercase, trim,
    trim_bounds,
};

verus! {

/// What an accepted answer asks for.
#[derive(Debug, Clone, Copy, PartialEq, Eq, Structural)]
pub enum ParsedInput {
    /// Relink to the candidate at this index (zero-based).
    SelectCandidate(usize),
    CustomPath,
    Skip,
    Remove,
}

/// Why an answer was refused.
#[derive(Debug, PartialEq, Eq)]
pub enum ParseError {
    Empty,
    InvalidSelection { given: usize, max: usize },
    Unrecognized(String),
}

/// The outcome of reading an answer, as a mathematical value.
pub enum ChoiceVerdict {
    Parsed(ParsedInput),
    Empty,
    OutOfRange(usize, usize),
    Unrecognized(Seq<char>),
}

pub open spec fn is_skip_word(s: Seq<char>) -> bool {
    s == seq!['s'] || s == seq!['s', 'k', 'i', 'p']
}

pub open spec fn is_remove_word(s: Seq<char>) -> bool {
    s == seq!['r'] || s == seq!['r', 'e', 'm', 'o', 'v', 'e']
}

pub open spec fn is_custom_word(s: Seq<char>) -> bool {
    s == seq!['c'] || s == seq!['c', 'u', 's', 't', 'o', 'm']
}

/// The digits that `usize::from_str` reads: one leading `+` is allowed.
pub open spec fn unsigned_digits(t: Seq<char>) -> Seq<char> {
    if t.len() > 0 && t[0] == '+' {
        t.drop_first()
    } else {
        t
    }
}

/// `usize::from_str`: an optional `+` and one or more ASCII digits whose
/// value fits in a `usize`.
pub open spec fn parse_usize_spec(t: Seq<char>) -> Option<usize> {
    let d = unsigned_digits(t);
    if d.len() > 0 && all_digits(d) && digits_value(d) <= usize::MAX {
        Some(digits_value(d) as usize)
    } else {
        None
    }
}

/// What `parse_choice` makes of `input` when there are `n` candidates.
pub open spec fn choice_verdict(input: Seq<char>, n: usize) -> ChoiceVerdict {
    let t = trim(input);
    let low = ascii_lowercase(t);
    if t.len() == 0 {
        ChoiceVerdict::Empty
    } else if is_skip_word(low) {
        ChoiceVerdict::Parsed(ParsedInput::Skip)
    } else if is_remove_word(low) {
        ChoiceVerdict::Parsed(ParsedInput::Remove)
    } else if is_custom_word(low) {
        ChoiceVerdict::Parsed(ParsedInput::CustomPath)
    } else {
        match parse_usize_spec(t) {
            Some(k) => if 1 <= k && k <= n {
                ChoiceVerdict::Parsed(ParsedInput::SelectCandidate((k - 1) as usize))
            } else {
                ChoiceVerdict::OutOfRange(k, n)
            },
            None => ChoiceVerdict::Unrecognized(t),
        }
    }
}

/// `r` is the executable form of the verdict `v`.
pub open spec fn describes(r: Result<ParsedInput, ParseError>, v: ChoiceVerdict) -> bool {
    match v {
        ChoiceVerdict::Parsed(p) => r == Ok::<ParsedInput, ParseError>(p),
        ChoiceVerdict::Empty => r == Err::<ParsedInput, ParseError>(ParseError::Empty),
        ChoiceVerdict::OutOfRange(g, m) => r == Err::<ParsedInput, ParseError>(
            ParseError::InvalidSelection { given: g, max: m },
        ),
        ChoiceVerdict::Unrecognized(s) => r matches Err(ParseError::Unrecognized(x)) && x@ == s,
    }
}

impl ParseError {
    /// The message shown to the user for this error.
    pub open spec fn message(&self) -> Seq<char> {
        match self {
            ParseError::Empty => "no input provided"@,
            ParseError::InvalidSelection { given, max } => "selection "@ + decimal(
                *given as nat,
            ) + " is out of range (1-"@ + decimal(*max as nat) + ")"@,
            ParseError::Unrecognized(s) => "unrecognized input: "@ + s@,
        }
    }

    /// Renders the message shown to the user for this error.
    pub fn to_string(&self) -> (r: String)
        ensures
            r@ == self.message(),
    {
        let mut r = String::new();
        match self {
            ParseError::Empty => {
                r.append("no input provided");
            },
            ParseError::InvalidSelection { given, max } => {
                r.append("selection ");
                push_decimal(&mut r, *given as u64);
                r.append(" is out of range (1-");
                push_decimal(&mut r, *max as u64);
                r.append(")");
            },
            ParseError::Unrecognized(s) => {
                r.append("unrecognized input: ");
                r.append(s.as_str());
            },
        }
        assert(r@ =~= self.message());
        r
    }
}

/// A selection always names one of the candidates.
pub proof fn lemma_selection_in_range(input: Seq<char>, n: usize)
    ensures
        choice_verdict(input, n) matches ChoiceVerdict::Parsed(ParsedInput::SelectCandidate(k))
            ==> k < n,
{
}

/// Whitespace around an answer does not matter.
pub proof fn lemma_surrounding_whitespace_ignored(input: Seq<char>, n: usize)
    ensures
        choice_verdict(input, n) == choice_verdict(trim(input), n),
{
    lemma_trim_idempotent(input);
}

/// The keywords are read in any ASCII case: two answers that fold to the
/// same keyword ask for the same thing.
pub proof fn lemma_keywords_any_case(a: Seq<char>, b: Seq<char>, n: usize)
    requires
        ascii_lowercase(trim(a)) == ascii_lowercase(trim(b)),
        ({
            let k = ascii_lowercase(trim(a));
            is_skip_word(k) || is_remove_word(k) || is_custom_word(k)
        }),
    ensures
        choice_verdict(a, n) == choice_verdict(b, n),
{
    let k = ascii_lowercase(trim(a));
    assert(k.len() > 0);
    assert(ascii_lowercase(trim(a)).len() == trim(a).len());
    assert(ascii_lowercase(trim(b)).len() == trim(b).len());
}

/// A number typed at the prompt selects the candidate shown with that
/// number (the one at index `m - 1`) when there is one, and otherwise is
/// refused as out of range, naming the number and how many candidates there
/// are.
pub proof fn lemma_number_answer(m: nat, n: usize)
    requires
        m <= usize::MAX,
    ensures
        1 <= m <= n ==> choice_verdict(decimal(m), n) == ChoiceVerdict::Parsed(
            ParsedInput::SelectCandidate((m - 1) as usize),
        ),
        !(1 <= m <= n) ==> choice_verdict(decimal(m), n) == ChoiceVerdict::OutOfRange(
            m as usize,
            n,
        ),
{
    let s = decimal(m);
    lemma_decimal_plain(m);
    lemma_decimal_value(m);
    assert(is_ascii_digit(s[0]));
    assert(!is_skip_word(s) && !is_remove_word(s) && !is_custom_word(s)) by {
        if s.len() == 1 {
            assert(s != seq!['s'] && s != seq!['r'] && s != seq!['c']) by {
                assert(s[0] != 's' && s[0] != 'r' && s[0] != 'c');
            }
        }
        assert(s != seq!['s', 'k', 'i', 'p'] && s != seq!['r', 'e', 'm', 'o', 'v', 'e']
            && s != seq!['c', 'u', 's', 't', 'o', 'm']) by {
            assert(seq!['s', 'k', 'i', 'p'][0] == 's');
            assert(seq!['r', 'e', 'm', 'o', 'v', 'e'][0] == 'r');
            assert(seq!['c', 'u', 's', 't', 'o', 'm'][0] == 'c');
        }
    }
    assert(unsigned_digits(s) == s);
}

/// Typing the number that is shown next to a candidate selects that
/// candidate: for each of the `n` candidates, the decimal rendering of its
/// one-based number is read as a selection of its index.
pub proof fn lemma_shown_number_selects(i: nat, n: usize)
    requires
        i < n,
    ensures
        choice_verdict(decimal(i + 1), n) == ChoiceVerdict::Parsed(
            ParsedInput::SelectCandidate(i as usize),
        ),
{
    lemma_number_answer(i + 1, n);
}

/// Reads `t` as a `usize` the way `usize::from_str` does.
pub fn parse_usize(t: &Vec<char>) -> (r: Option<usize>)
    ensures
        r == parse_usize_spec(t@),
{
    let start: usize = if t.len() > 0 && t[0] == '+' {
        1
    } else {
        0
    };
    let ghost d = unsigned_digits(t@);
    assert(d =~= t@.subrange(start as int, t.len() as int));
    if start == t.len() {
        assert(d.len() == 0);
        return None;
    }
    let mut i = start;
    while i < t.len()
        invariant
            start <= i <= t.len(),
            d =~= t@.subrange(start as int, t.len() as int),
            d == unsigned_digits(t@),
            forall|j: int| start <= j < i ==> is_ascii_digit(#[trigger] t@[j]),
        decreases t.len() - i,
    {
        if !('0' <= t[i] && t[i] <= '9') {
            assert(!is_ascii_digit(d[i - start]));
            return None;
        }
        i += 1;
    }
    assert(all_digits(d)) by {
        assert forall|j: int| 0 <= j < d.len() implies is_ascii_digit(#[trigger] d[j]) by {
            assert(d[j] == t@[start + j]);
        }
    }
    let mut v: usize = 0;
    let mut k = start;
    while k < t.len()
        invariant
            start <= k <= t.len(),
            d =~= t@.subrange(start as int, t.len() as int),
            d == unsigned_digits(t@),
            all_digits(d),
            v == digits_value(d.take(k - start)),
        decreases t.len() - k,
    {
        let c = t[k];
        assert(c == d[k - start]);
        assert(is_ascii_digit(c));
        let dv = (c as u32 - 48) as usize;
        assert(d.take(k - start + 1).drop_last() =~= d.take(k - start));
        assert(d.take(k - start + 1).last() == c);
        assert(dv == digit_value(c));
        assert(digits_value(d.take(k - start + 1)) == v * 10 + dv);
        match v.checked_mul(10) {
            Some(m) => match m.checked_add(dv) {
                Some(nv) => {
                    v = nv;
                },
                None => {
                    proof {
                        lemma_digits_value_prefix(d, k - start + 1);
                    }
                    return None;
                },
            },
            None => {
                proof {
                    lemma_digits_value_prefix(d, k - start + 1);
                }
                return None;
            },
        }
        k += 1;
    }
    assert(d.take(d.len() as int) =~= d);
    Some(v)
}

fn word(cs: &Vec<char>, a: &Vec<char>, b: &Vec<char>) -> (r: bool)
    ensures
        r == (cs@ == a@ || cs@ == b@),
{
    chars_eq(cs, a) || chars_eq(cs, b)
}

/// Reads the user's answer to the repair prompt, given `num_candidates`
/// candidates: a keyword (`s`/`skip`, `r`/`remove`, `c`/`custom`, in any
/// ASCII case) or a one-based candidate number, surrounding whitespace
/// ignored.
pub fn parse_choice(input: &str, num_candidates: usize) -> (r: Result<ParsedInput, ParseError>)
    ensures
        describes(r, choice_verdict(input@, num_candidates)),
{
    let cs = chars_of(input);
    let (lo, hi) = trim_bounds(&cs);
    if lo == hi {
        return Err(ParseError::Empty);
    }
    let t = sub_chars(&cs, lo, hi);
    let low = to_ascii_lowercase(&t);
    assert(t@ == trim(input@));
    let ghost v = choice_verdict(input@, num_candidates);
    let sk1 = vec!['s'];
    let sk2 = vec!['s', 'k', 'i', 'p'];
    let rm1 = vec!['r'];
    let rm2 = vec!['r', 'e', 'm', 'o', 'v', 'e'];
    let cu1 = vec!['c'];
    let cu2 = vec!['c', 'u', 's', 't', 'o', 'm'];
    assert(sk1@ =~= seq!['s'] && sk2@ =~= seq!['s', 'k', 'i', 'p']);
    assert(rm1@ =~= seq!['r'] && rm2@ =~= seq!['r', 'e', 'm', 'o', 'v', 'e']);
    assert(cu1@ =~= seq!['c'] && cu2@ =~= seq!['c', 'u', 's', 't', 'o', 'm']);
    if word(&low, &sk1, &sk2) {
        return Ok(ParsedInput::Skip);
    }
    if word(&low, &rm1, &rm2) {
        return Ok(ParsedInput::Remove);
    }
    if word(&low, &cu1, &cu2) {
        return Ok(ParsedInput::CustomPath);
    }
    match parse_usize(&t) {
        Some(n) => {
            if 1 <= n && n <= num_candidates {
                Ok(ParsedInput::SelectCandidate(n - 1))
            } else {
                Err(ParseError::InvalidSelection { given: n, max: num_candidates })
            }
        },
        None => {
            let shown = string_of(&t, 0, t.len());
            assert(shown@ =~= t@);
            Err(ParseError::Unrecognized(shown))
        },
    }
}

} // verus!
