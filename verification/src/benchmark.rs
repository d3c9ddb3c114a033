//! Benchmark cases: a position, given by the moves that lead to it, and the
//! value that the search should find for it.
//!
//! A case is written on one line: the moves, a blank, and the value as a
//! decimal number with an optional sign. What follows a second blank is not
//! read.
use vstd::prelude::*;
use vstd::string::StrSliceExecFns;
use crate::bitboard::Bitboard;
use crate::grid::Grid;
use crate::search::{calc_position_score, node_count, value};

verus! {

/// Where the piece of `text` that starts at `from` ends: at the first `stop`
/// from there on, or at the end of the text.
pub open spec fn span_end(text: Seq<char>, from: int, stop: char) -> int
    decreases text.len() - from,
{
    if from < 0 || from >= text.len() || text[from] == stop {
        from
    } else {
        span_end(text, from + 1, stop)
    }
}

/// Where the word that starts at `from` ends: at the first blank from there
/// on, or at the end of the text.
pub open spec fn word_end(text: Seq<char>, from: int) -> int {
    span_end(text, from, ' ')
}

/// The lines of `text` from the one that starts at `from` on. A line ends
/// before a line feed or at the end of the text, so that a text that ends in
/// a line feed has an empty last line.
pub open spec fn lines_from(text: Seq<char>, from: int) -> Seq<Seq<char>>
    decreases text.len() - from,
    via lines_from_decreases
{
    let end = span_end(text, from, '\n');
    if from < 0 || from > text.len() {
        Seq::empty()
    } else if end >= text.len() {
        seq![text.subrange(from, text.len() as int)]
    } else {
        seq![text.subrange(from, end)] + lines_from(text, end + 1)
    }
}

#[via_fn]
proof fn lines_from_decreases(text: Seq<char>, from: int) {
    if 0 <= from <= text.len() {
        lemma_span_end_bounds(text, from, '\n');
    }
}

/// The lines of `text`.
pub open spec fn lines(text: Seq<char>) -> Seq<Seq<char>> {
    lines_from(text, 0)
}

/// The first `limit` lines of `text`, or all of them if there are fewer.
pub open spec fn first_lines(text: Seq<char>, limit: int) -> Seq<Seq<char>> {
    if limit < lines(text).len() {
        lines(text).take(limit)
    } else {
        lines(text)
    }
}

/// A piece of a text ends within the text, and not before it starts.
pub proof fn lemma_span_end_bounds(text: Seq<char>, from: int, stop: char)
    requires
        0 <= from <= text.len(),
    ensures
        from <= span_end(text, from, stop) <= text.len(),
    decreases text.len() - from,
{
    if from < text.len() && text[from] != stop {
        lemma_span_end_bounds(text, from + 1, stop);
    }
}

/// `mark` is one of the ten decimal digits.
pub open spec fn is_digit(mark: char) -> bool {
    '0' as u32 <= mark as u32 <= '9' as u32
}

/// Every character of `digits` is a decimal digit.
pub open spec fn all_digits(digits: Seq<char>) -> bool {
    forall|place: int| 0 <= place < digits.len() ==> is_digit(#[trigger] digits[place])
}

/// The number that a row of decimal digits stands for.
pub open spec fn digits_value(digits: Seq<char>) -> int
    decreases digits.len(),
{
    if digits.len() == 0 {
        0
    } else {
        10 * digits_value(digits.drop_last()) + (digits.last() as u32 - '0' as u32)
    }
}

/// `word` starts with a sign.
pub open spec fn is_signed(word: Seq<char>) -> bool {
    word.len() > 0 && (word[0] == '-' || word[0] == '+')
}

/// `word` without its sign.
pub open spec fn digits_of(word: Seq<char>) -> Seq<char> {
    if is_signed(word) {
        word.subrange(1, word.len() as int)
    } else {
        word
    }
}

/// The number that `word` stands for.
pub open spec fn number_value(word: Seq<char>) -> int {
    if word.len() > 0 && word[0] == '-' {
        -digits_value(digits_of(word))
    } else {
        digits_value(digits_of(word))
    }
}

/// `word` is a value: an optional sign and at least one digit, nothing
/// else, and a number that an `i8` holds.
pub open spec fn is_score(word: Seq<char>) -> bool {
    &&& digits_of(word).len() > 0
    &&& all_digits(digits_of(word))
    &&& i8::MIN <= number_value(word) <= i8::MAX
}

/// The first word of a line: the moves.
pub open spec fn moves_of(line: Seq<char>) -> Seq<char> {
    line.subrange(0, word_end(line, 0))
}

/// The second word of a line that has one: the value.
pub open spec fn score_word(line: Seq<char>) -> Seq<char> {
    line.subrange(word_end(line, 0) + 1, word_end(line, word_end(line, 0) + 1))
}

/// `line` is a case: a blank ends its first word, and its second word is a
/// value.
pub open spec fn is_case(line: Seq<char>) -> bool {
    word_end(line, 0) < line.len() && is_score(score_word(line))
}

/// A piece ends where the first `stop` stands, or the text ends.
pub proof fn lemma_span_end(text: Seq<char>, from: int, end: int, stop: char)
    requires
        0 <= from <= end <= text.len(),
        forall|place: int| from <= place < end ==> text[place] != stop,
        end < text.len() ==> text[end] == stop,
    ensures
        span_end(text, from, stop) == end,
    decreases end - from,
{
    if from < end {
        lemma_span_end(text, from + 1, end, stop);
    }
}

/// Where the piece of `text` that starts at `from` ends: at the first `stop`
/// from there on, or at the end of the text.
pub fn find_end(text: &str, from: usize, stop: char) -> (end: usize)
    requires
        from <= text@.len(),
    ensures
        end == span_end(text@, from as int, stop),
        from <= end <= text@.len(),
{
    let length: usize = text.unicode_len();
    let mut end: usize = length;
    let mut index: usize = 0;
    for mark in it: text.chars()
        invariant
            it.seq() == text@,
            index == it.index(),
            length == text@.len(),
            from <= end <= length,
            end < length ==> end < index && text@[end as int] == stop,
            forall|place: int| from <= place < index && place < end ==> text@[place] != stop,
    {
        if index >= from && end == length && mark == stop {
            end = index;
        }
        index += 1;
    }
    proof {
        lemma_span_end(text@, from as int, end as int, stop);
    }
    end
}

/// The number that `word` stands for, if it is a value.
pub fn parse_score(word: &str) -> (score: Option<i8>)
    ensures
        score == if is_score(word@) {
            Some(number_value(word@) as i8)
        } else {
            None::<i8>
        },
{
    let ghost start: int = if is_signed(word@) {
        1
    } else {
        0
    };
    let length: usize = word.unicode_len();
    let mut negative: bool = false;
    let mut signed: bool = false;
    let mut valid: bool = true;
    let mut overflow: bool = false;
    let mut magnitude: i32 = 0;
    let mut index: usize = 0;
    for mark in it: word.chars()
        invariant
            it.seq() == word@,
            index == it.index(),
            length == word@.len(),
            start == if is_signed(word@) {
                1int
            } else {
                0int
            },
            index > 0 ==> signed == is_signed(word@) && negative == (word@[0] == '-'),
            index == 0 ==> !signed && !negative && valid && !overflow && magnitude == 0,
            index >= start ==> valid == all_digits(word@.subrange(start, index as int)),
            0 <= magnitude <= 128,
            index >= start && valid && !overflow ==> magnitude == digits_value(
                word@.subrange(start, index as int),
            ),
            index >= start && valid && overflow ==> digits_value(
                word@.subrange(start, index as int),
            ) > 128,
    {
        let ghost seen: Seq<char> = if index >= start {
            word@.subrange(start, index as int)
        } else {
            Seq::empty()
        };
        let ghost next: Seq<char> = word@.subrange(start, index + 1);
        let code: u32 = mark as u32;
        if index == 0 && (mark == '-' || mark == '+') {
            signed = true;
            negative = mark == '-';
            proof {
                assert(all_digits(word@.subrange(1, 1)));
                assert(digits_value(word@.subrange(1, 1)) == 0);
            }
        } else if '0' as u32 <= code && code <= '9' as u32 {
            proof {
                assert(next.drop_last() =~= seen);
                assert(next.last() == mark);
                assert(all_digits(next) == all_digits(seen)) by {
                    if all_digits(seen) {
                        assert forall|place: int| 0 <= place < next.len() implies is_digit(
                            #[trigger] next[place],
                        ) by {
                            if place < seen.len() {
                                assert(next[place] == seen[place]);
                            }
                        }
                    } else {
                        let bad = choose|place: int|
                            0 <= place < seen.len() && !is_digit(#[trigger] seen[place]);
                        assert(next[bad] == seen[bad]);
                    }
                }
            }
            let digit: i32 = (code - '0' as u32) as i32;
            if !overflow {
                let grown: i32 = magnitude * 10 + digit;
                if grown > 128 {
                    overflow = true;
                } else {
                    magnitude = grown;
                }
            }
        } else {
            valid = false;
            proof {
                assert(next.last() == mark);
                assert(!is_digit(next[next.len() - 1]));
            }
        }
        index += 1;
    }
    proof {
        assert(word@.subrange(start, length as int) =~= digits_of(word@));
    }
    let digits: usize = if signed {
        length - 1
    } else {
        length
    };
    if !valid || digits == 0 || overflow {
        None
    } else if negative {
        Some((-magnitude) as i8)
    } else if magnitude <= 127 {
        Some(magnitude as i8)
    } else {
        None
    }
}

/// What the search made of a case: whether it found the expected value, and
/// how many positions it looked at.
#[derive(Clone, Copy, Debug, Default, PartialEq, Eq, Structural)]
pub struct CaseResult {
    pub correct: bool,
    pub positions_searched: u64,
}

/// A position and the value that is expected of it.
#[derive(Clone, Copy, Debug)]
pub struct Case {
    pub state: Bitboard,
    pub score: i8,
}

impl Default for Case {
    fn default() -> (case: Self)
        ensures
            case.state@ == Grid::empty(),
            case.score == 0,
    {
        Case { state: Bitboard::new(), score: 0 }
    }
}

impl Case {
    /// The case that `line` describes, if it describes one.
    pub fn parse(line: &str) -> (case: Option<Case>)
        ensures
            case is Some <==> is_case(line@),
            case matches Some(found) ==> found.state@ == Grid::replay(moves_of(line@))
                && found.score == number_value(score_word(line@)),
    {
        let length: usize = line.unicode_len();
        let moves_end: usize = find_end(line, 0, ' ');
        if moves_end >= length {
            return None;
        }
        let score_end: usize = find_end(line, moves_end + 1, ' ');
        let moves: &str = line.substring_char(0, moves_end);
        let number: &str = line.substring_char(moves_end + 1, score_end);
        match parse_score(number) {
            Some(score) => Some(Case { state: Bitboard::from_moves(moves), score }),
            None => None,
        }
    }

    /// The case that `line` describes.
    pub fn new(line: &str) -> (case: Case)
        requires
            is_case(line@),
        ensures
            case.state@ == Grid::replay(moves_of(line@)),
            case.score == number_value(score_word(line@)),
    {
        let length: usize = line.unicode_len();
        let moves_end: usize = find_end(line, 0, ' ');
        let score_end: usize = find_end(line, moves_end + 1, ' ');
        let moves: &str = line.substring_char(0, moves_end);
        let number: &str = line.substring_char(moves_end + 1, score_end);
        let score: Option<i8> = parse_score(number);
        Case { state: Bitboard::from_moves(moves), score: score.unwrap() }
    }

    /// `self` is the case that `line` describes.
    pub open spec fn describes(self, line: Seq<char>) -> bool {
        &&& is_case(line)
        &&& self.state@ == Grid::replay(moves_of(line))
        &&& self.score == number_value(score_word(line))
    }

    /// The cases that the first `limit` lines of `text` describe, if each of
    /// those lines describes one.
    pub fn parse_cases(text: &str, limit: usize) -> (cases: Option<Vec<Case>>)
        ensures
            cases is Some <==> forall|number: int|
                0 <= number < first_lines(text@, limit as int).len() ==> is_case(
                    #[trigger] first_lines(text@, limit as int)[number],
                ),
            cases matches Some(found) ==> found@.len() == first_lines(text@, limit as int).len()
                && forall|number: int|
                0 <= number < found@.len() ==> (#[trigger] found@[number]).describes(
                    first_lines(text@, limit as int)[number],
                ),
    {
        let length: usize = text.unicode_len();
        let mut cases: Vec<Case> = Vec::new();
        let mut from: usize = 0;
        let mut more: bool = true;
        let ghost mut done: Seq<Seq<char>> = Seq::empty();
        proof {
            assert(done + lines_from(text@, 0) =~= lines(text@));
        }
        while more && cases.len() < limit
            invariant
                length == text@.len(),
                from <= length,
                more ==> lines(text@) == done + lines_from(text@, from as int),
                !more ==> lines(text@) == done,
                done.len() == cases@.len(),
                cases@.len() <= limit,
                forall|number: int|
                    0 <= number < cases@.len() ==> (#[trigger] cases@[number]).describes(
                        done[number],
                    ),
            decreases length - from + (if more { 1int } else { 0int }),
        {
            let end: usize = find_end(text, from, '\n');
            let line: &str = text.substring_char(from, end);
            let ghost rest: Seq<Seq<char>> = if end >= length {
                Seq::empty()
            } else {
                lines_from(text@, end + 1)
            };
            proof {
                assert(lines_from(text@, from as int) =~= seq![line@] + rest);
                assert(lines(text@) =~= done.push(line@) + rest);
                assert(lines(text@)[done.len() as int] == line@);
            }
            match Case::parse(line) {
                Some(case) => {
                    cases.push(case);
                },
                None => {
                    proof {
                        let wanted = first_lines(text@, limit as int);
                        assert(wanted[done.len() as int] == line@);
                    }
                    return None;
                },
            }
            proof {
                done = done.push(line@);
            }
            if end >= length {
                more = false;
            } else {
                from = end + 1;
            }
        }
        proof {
            let wanted = first_lines(text@, limit as int);
            if more {
                lemma_span_end_bounds(text@, from as int, '\n');
                assert(lines_from(text@, from as int).len() > 0);
            }
            assert(wanted =~= done);
            assert forall|number: int| 0 <= number < wanted.len() implies is_case(
                #[trigger] wanted[number],
            ) by {
                assert(cases@[number].describes(done[number]));
            }
        }
        Some(cases)
    }

    /// Searches the position and holds the value found against the
    /// expected one.
    pub fn run(self) -> (result: CaseResult)
        requires
            node_count(self.state@) <= u64::MAX,
        ensures
            result.correct == (value(self.state@) == self.score),
            result.positions_searched == node_count(self.state@),
    {
        let (calculated_score, positions_searched) = calc_position_score(self.state);
        CaseResult { correct: calculated_score == self.score, positions_searched }
    }
}

} // verus!
