//! Position lists: the text `1,7,3-5` and the ranges it stands for.
//!
//! A list is one token or more, separated by commas. A token is a single
//! one-based position, or two of them joined by a hyphen. Each token becomes a
//! zero-based half-open range; the ranges keep the order of the tokens.

use crate::decimal::{
    decimal_digits, decimal_string, decimal_value, is_digit, is_numeral, is_numeral_in,
    lemma_leading_zero, value_in,
};
use crate::text::{chars_of, find, find_in, lemma_find, lemma_find_is, lemma_split_joined, split};
use std::ops::Range;
use vstd::prelude::*;

verus! {

/// Why a position list was refused, as a mathematical value.
pub enum Failure {
    /// The text names no position and no range of positions.
    InvalidToken(Seq<char>),
    /// A span whose first number is not below its second. Both are the
    /// one-based numbers that were written.
    RangeOrder(usize, usize),
}

/// Why a position list was refused.
#[derive(Debug, PartialEq, Eq)]
pub enum ParseError {
    /// The text names no position and no range of positions.
    InvalidToken(String),
    /// A span whose first number is not below its second. Both are the
    /// one-based numbers that were written.
    RangeOrder(usize, usize),
}

impl View for ParseError {
    type V = Failure;

    open spec fn view(&self) -> Failure {
        match self {
            ParseError::InvalidToken(text) => Failure::InvalidToken(text@),
            ParseError::RangeOrder(first, second) => Failure::RangeOrder(*first, *second),
        }
    }
}

/// What is reported for a failure.
pub open spec fn message(failure: Failure) -> Seq<char> {
    match failure {
        Failure::InvalidToken(text) => "illegal list value: \""@ + text + "\""@,
        Failure::RangeOrder(first, second) => "First number in range ("@ + decimal_digits(
            first as nat,
        ) + ") must be lower than second number ("@ + decimal_digits(second as nat) + ")"@,
    }
}

/// The zero-based index that a one-based position stands for: the text is a
/// numeral, its value is at least one and fits the machine word.
pub open spec fn index_of(text: Seq<char>) -> Option<usize> {
    if is_numeral(text) && 1 <= decimal_value(text) <= usize::MAX {
        Some((decimal_value(text) - 1) as usize)
    } else {
        None
    }
}

/// A numeral, a hyphen, a numeral. No digit is a hyphen, so the hyphen of
/// such a token is its first.
pub open spec fn is_span(token: Seq<char>) -> bool {
    let hyphen = find(token, '-');
    &&& hyphen < token.len()
    &&& is_numeral(token.take(hyphen))
    &&& is_numeral(token.skip(hyphen + 1))
}

/// The range that a token stands for. A position `n` gives the one index
/// `n - 1`. A span `a-b` gives the indices from `a - 1` up to, not including,
/// `b`, and `a` must be below `b`. Of a span with a bad number, the first bad
/// number is reported; of any other bad token, the whole token.
pub open spec fn token_range(token: Seq<char>) -> Result<Range<usize>, Failure> {
    if let Some(index) = index_of(token) {
        Ok(Range { start: index, end: (index + 1) as usize })
    } else if is_span(token) {
        let hyphen = find(token, '-');
        let first = token.take(hyphen);
        let second = token.skip(hyphen + 1);
        match (index_of(first), index_of(second)) {
            (None, _) => Err(Failure::InvalidToken(first)),
            (Some(_), None) => Err(Failure::InvalidToken(second)),
            (Some(low), Some(high)) => if low < high {
                Ok(Range { start: low, end: (high + 1) as usize })
            } else {
                Err(Failure::RangeOrder((low + 1) as usize, (high + 1) as usize))
            },
        }
    } else {
        Err(Failure::InvalidToken(token))
    }
}

/// The ranges of the tokens, in order, or the failure of the first token that
/// has one.
pub open spec fn ranges_of(tokens: Seq<Seq<char>>) -> Result<Seq<Range<usize>>, Failure>
    decreases tokens.len(),
{
    if tokens.len() == 0 {
        Ok(Seq::empty())
    } else {
        match token_range(tokens[0]) {
            Err(failure) => Err(failure),
            Ok(range) => match ranges_of(tokens.skip(1)) {
                Err(failure) => Err(failure),
                Ok(rest) => Ok(seq![range] + rest),
            },
        }
    }
}

/// The position list that `text` stands for.
pub open spec fn parse(text: Seq<char>) -> Result<Seq<Range<usize>>, Failure> {
    ranges_of(split(text, ','))
}

/// Every range is non-empty.
pub open spec fn all_non_empty(ranges: Seq<Range<usize>>) -> bool {
    forall|i: int| 0 <= i < ranges.len() ==> (#[trigger] ranges[i]).start < ranges[i].end
}

/// The ranges of one list followed by those of another, or the first failure
/// among the two.
pub open spec fn both(
    first: Result<Seq<Range<usize>>, Failure>,
    second: Result<Seq<Range<usize>>, Failure>,
) -> Result<Seq<Range<usize>>, Failure> {
    match (first, second) {
        (Err(failure), _) => Err(failure),
        (Ok(_), Err(failure)) => Err(failure),
        (Ok(ranges), Ok(more)) => Ok(ranges + more),
    }
}

/// Zeros in front of a position change nothing.
pub proof fn lemma_zeros_in_front(text: Seq<char>)
    requires
        is_numeral(text),
    ensures
        index_of(seq!['0'] + text) == index_of(text),
{
    lemma_leading_zero(text);
}

/// The empty token is refused.
pub proof fn lemma_empty_token()
    ensures
        token_range(Seq::empty()) == Err::<Range<usize>, Failure>(
            Failure::InvalidToken(Seq::empty()),
        ),
{
    let none = Seq::<char>::empty();
    assert(find(none, '-') == 0);
}

/// A token that holds anything but digits and hyphens is refused, and it is
/// the whole token that is reported. A sign in front of a number is such a
/// character.
pub proof fn lemma_foreign_character(token: Seq<char>, at: int)
    requires
        0 <= at < token.len(),
        !is_digit(token[at]),
        token[at] != '-',
    ensures
        token_range(token) == Err::<Range<usize>, Failure>(Failure::InvalidToken(token)),
{
    let hyphen = find(token, '-');
    lemma_find(token, '-');
    if at < hyphen {
        assert(token.take(hyphen)[at] == token[at]);
    } else if hyphen < token.len() {
        assert(token.skip(hyphen + 1)[at - hyphen - 1] == token[at]);
    }
}

/// Two numerals joined by a hyphen are a span. It is judged by its two
/// positions: the first of them that is none is reported, then their order.
pub proof fn lemma_span(first: Seq<char>, second: Seq<char>)
    requires
        is_numeral(first),
        is_numeral(second),
    ensures
        token_range(first + seq!['-'] + second) == match (index_of(first), index_of(second)) {
            (None, _) => Err::<Range<usize>, Failure>(Failure::InvalidToken(first)),
            (Some(_), None) => Err(Failure::InvalidToken(second)),
            (Some(low), Some(high)) => if low < high {
                Ok(Range { start: low, end: (high + 1) as usize })
            } else {
                Err(Failure::RangeOrder((low + 1) as usize, (high + 1) as usize))
            },
        },
{
    let token = first + seq!['-'] + second;
    let at: int = first.len() as int;
    assert forall|i: int| 0 <= i < at implies token[i] != '-' by {
        assert(token[i] == first[i]);
        assert(is_digit(first[i]));
    }
    assert(token[at] == '-');
    lemma_find_is(token, '-', at);
    assert(token.take(at) =~= first);
    assert(token.skip(at + 1) =~= second);
    assert(!is_digit(token[at]));
}

/// Accepted tokens give one range each, and no range is empty.
pub proof fn lemma_ranges_of_accepted(tokens: Seq<Seq<char>>)
    ensures
        ranges_of(tokens) matches Ok(ranges) ==> ranges.len() == tokens.len() && all_non_empty(
            ranges,
        ),
    decreases tokens.len(),
{
    if tokens.len() > 0 {
        lemma_ranges_of_accepted(tokens.skip(1));
    }
}

/// An accepted list is never empty, and none of its ranges is.
pub proof fn lemma_parse_accepted(text: Seq<char>)
    ensures
        parse(text) matches Ok(ranges) ==> ranges.len() > 0 && all_non_empty(ranges),
{
    lemma_ranges_of_accepted(split(text, ','));
}

/// The ranges of two lists of tokens, one after the other.
pub proof fn lemma_ranges_of_joined(first: Seq<Seq<char>>, second: Seq<Seq<char>>)
    ensures
        ranges_of(first + second) == both(ranges_of(first), ranges_of(second)),
    decreases first.len(),
{
    let all = first + second;
    if first.len() == 0 {
        assert(all =~= second);
        if let Ok(more) = ranges_of(second) {
            assert(Seq::<Range<usize>>::empty() + more =~= more);
        }
    } else {
        assert(all[0] == first[0]);
        assert(all.skip(1) =~= first.skip(1) + second);
        lemma_ranges_of_joined(first.skip(1), second);
        if let Ok(range) = token_range(first[0]) {
            if let Ok(rest) = ranges_of(first.skip(1)) {
                if let Ok(more) = ranges_of(second) {
                    assert(seq![range] + (rest + more) =~= (seq![range] + rest) + more);
                }
            }
        }
    }
}

/// A list is parsed piece by piece. Two lists joined by a comma give the
/// ranges of the first followed by the ranges of the second, in that order
/// and with nothing left out. If either is refused, so is the whole, with the
/// failure that comes first.
pub proof fn lemma_parse_joined(first: Seq<char>, second: Seq<char>)
    ensures
        parse(first + seq![','] + second) == both(parse(first), parse(second)),
{
    lemma_split_joined(first, second, ',');
    lemma_ranges_of_joined(split(first, ','), split(second, ','));
}

/// The empty list is refused, and so is every list that begins or ends with
/// a comma.
pub proof fn lemma_parse_needs_tokens(text: Seq<char>)
    ensures
        parse(Seq::empty()) is Err,
        parse(seq![','] + text) is Err,
        parse(text + seq![',']) is Err,
{
    let none = Seq::<char>::empty();
    lemma_empty_token();
    assert(find(none, ',') == 0);
    assert(split(none, ',') =~= seq![none]);
    lemma_parse_joined(none, text);
    assert(none + seq![','] + text =~= seq![','] + text);
    lemma_parse_joined(text, none);
    assert(text + seq![','] + none =~= text + seq![',']);
}

impl ParseError {
    /// The report for this error, as it is shown to the user.
    pub fn to_string(&self) -> (res: String)
        ensures
            res@ == message(self@),
    {
        match self {
            ParseError::InvalidToken(text) => {
                let mut out = String::from_str("illegal list value: \"");
                out.append(text.as_str());
                out.append("\"");
                out
            },
            ParseError::RangeOrder(first, second) => {
                let mut out = String::from_str("First number in range (");
                out.append(decimal_string(*first).as_str());
                out.append(") must be lower than second number (");
                out.append(decimal_string(*second).as_str());
                out.append(")");
                out
            },
        }
    }
}

/// Where a token went wrong, by the place of the offending text.
enum Fault {
    Invalid { from: usize, to: usize },
    Order(usize, usize),
}

impl Fault {
    spec fn within(self, len: nat) -> bool {
        match self {
            Fault::Invalid { from, to } => from <= to <= len,
            Fault::Order(_, _) => true,
        }
    }

    spec fn failure(self, chars: Seq<char>) -> Failure {
        match self {
            Fault::Invalid { from, to } => Failure::InvalidToken(
                chars.subrange(from as int, to as int),
            ),
            Fault::Order(first, second) => Failure::RangeOrder(first, second),
        }
    }
}

fn index_in(chars: &[char], from: usize, to: usize) -> (res: Option<usize>)
    requires
        from <= to <= chars.len(),
    ensures
        res == index_of(chars@.subrange(from as int, to as int)),
{
    match value_in(chars, from, to) {
        Some(value) => if value >= 1 {
            Some(value - 1)
        } else {
            None
        },
        None => None,
    }
}

fn token_in(chars: &[char], from: usize, to: usize) -> (res: Result<Range<usize>, Fault>)
    requires
        from <= to <= chars.len(),
    ensures
        match token_range(chars@.subrange(from as int, to as int)) {
            Ok(range) => res == Ok::<Range<usize>, Fault>(range),
            Err(failure) => res matches Err(fault) && fault.within(chars@.len())
                && fault.failure(chars@) == failure,
        },
{
    let ghost token = chars@.subrange(from as int, to as int);
    if let Some(index) = index_in(chars, from, to) {
        return Ok(Range { start: index, end: index + 1 });
    }
    let hyphen: usize = find_in(chars, from, to, '-');
    proof {
        lemma_find(token, '-');
        assert(token.take(hyphen - from) =~= chars@.subrange(from as int, hyphen as int));
        if hyphen < to {
            assert(token.skip(hyphen - from + 1) =~= chars@.subrange(hyphen + 1, to as int));
        }
    }
    if hyphen == to || !is_numeral_in(chars, from, hyphen) || !is_numeral_in(
        chars,
        hyphen + 1,
        to,
    ) {
        return Err(Fault::Invalid { from, to });
    }
    let low: usize = match index_in(chars, from, hyphen) {
        Some(index) => index,
        None => {
            return Err(Fault::Invalid { from, to: hyphen });
        },
    };
    let high: usize = match index_in(chars, hyphen + 1, to) {
        Some(index) => index,
        None => {
            return Err(Fault::Invalid { from: hyphen + 1, to });
        },
    };
    if low < high {
        Ok(Range { start: low, end: high + 1 })
    } else {
        Err(Fault::Order(low + 1, high + 1))
    }
}

/// Reads a one-based position and gives the zero-based index for it.
///
/// The text must be a numeral: digits only, so no sign, not even `+`. Zero is
/// no position, and neither is a number beyond the machine word. Leading zeros
/// are accepted.
pub fn parse_index(input: &str) -> (res: Result<usize, ParseError>)
    ensures
        match index_of(input@) {
            Some(index) => res == Ok::<usize, ParseError>(index),
            None => res matches Err(error) && error@ == Failure::InvalidToken(input@),
        },
{
    let chars = chars_of(input);
    proof {
        assert(chars@.subrange(0, chars@.len() as int) =~= input@);
    }
    match index_in(chars.as_slice(), 0, chars.len()) {
        Some(index) => Ok(index),
        None => Err(ParseError::InvalidToken(String::from_str(input))),
    }
}

/// `ranges` followed by what `rest` gives, or the failure of `rest`.
spec fn after(ranges: Seq<Range<usize>>, rest: Result<Seq<Range<usize>>, Failure>) -> Result<
    Seq<Range<usize>>,
    Failure,
> {
    match rest {
        Ok(more) => Ok(ranges + more),
        Err(failure) => Err(failure),
    }
}

/// Parses a position list such as `1,7,3-5`.
///
/// The result holds one range for each token, in the order of the tokens:
/// nothing is sorted or merged. The first token that is no position and no
/// span of positions ends the parse with its failure. An accepted list is
/// never empty, and none of its ranges is.
pub fn parse_pos(range: &str) -> (res: Result<Vec<Range<usize>>, ParseError>)
    ensures
        match parse(range@) {
            Ok(ranges) => res matches Ok(list) && list@ == ranges,
            Err(failure) => res matches Err(error) && error@ == failure,
        },
        res matches Ok(list) ==> list@.len() > 0 && all_non_empty(list@),
{
    let chars = chars_of(range);
    let ghost text = range@;
    let len: usize = chars.len();
    let mut list: Vec<Range<usize>> = Vec::new();
    let mut from: usize = 0;
    proof {
        assert(text.skip(0) =~= text);
        assert(after(list@, parse(text)) == parse(text)) by {
            if let Ok(more) = parse(text) {
                assert(list@ + more =~= more);
            }
        }
    }
    loop
        invariant_except_break
            parse(text) == after(list@, parse(text.skip(from as int))),
        invariant
            chars@ == text,
            text == range@,
            len == text.len(),
            from <= len,
        ensures
            parse(text) == Ok::<Seq<Range<usize>>, Failure>(list@),
        decreases len - from,
    {
        let to: usize = find_in(chars.as_slice(), from, len, ',');
        let ghost rest = text.skip(from as int);
        let ghost token = text.subrange(from as int, to as int);
        proof {
            assert(text.subrange(from as int, len as int) =~= rest);
            assert(rest.take(to - from) =~= token);
            lemma_find(rest, ',');
            let tokens = split(rest, ',');
            if to < len {
                assert(rest.skip(to - from + 1) =~= text.skip(to + 1));
                assert(tokens[0] == token);
                assert(tokens.skip(1) =~= split(text.skip(to + 1), ','));
            } else {
                assert(token =~= rest);
                assert(tokens[0] == token);
                assert(tokens.skip(1) =~= Seq::<Seq<char>>::empty());
                assert(ranges_of(tokens.skip(1)) == Ok::<Seq<Range<usize>>, Failure>(
                    Seq::empty(),
                ));
            }
        }
        match token_in(chars.as_slice(), from, to) {
            Ok(found) => {
                proof {
                    let before = list@;
                    match ranges_of(split(rest, ',').skip(1)) {
                        Ok(more) => {
                            assert(before + (seq![found] + more) =~= before.push(found) + more);
                        },
                        Err(_) => {},
                    }
                    if to == len {
                        assert(before + (seq![found] + Seq::<Range<usize>>::empty())
                            =~= before.push(found));
                    }
                }
                list.push(found);
            },
            Err(fault) => {
                let error = match fault {
                    Fault::Invalid { from: a, to: b } => ParseError::InvalidToken(
                        String::from_str(range.substring_char(a, b)),
                    ),
                    Fault::Order(first, second) => ParseError::RangeOrder(first, second),
                };
                return Err(error);
            },
        }
        if to == len {
            break ;
        }
        from = to + 1;
    }
    proof {
        lemma_parse_accepted(text);
    }
    Ok(list)
}

} // verus!
