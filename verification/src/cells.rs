//! Reading cells from text.
//!
//! A cell is written `x,y`: two decimal numbers with a comma between them.
//! A list of cells is written with semicolons between the cells; empty
//! places between semicolons are passed over.

use vstd::prelude::*;
use crate::point::Point;
use crate::point_set::PointSet;

verus! {

/// The error for text that is no cell or no list of cells.
#[derive(Debug, Clone, Copy, PartialEq, Eq, Structural)]
pub struct ParseError;

impl ParseError {
    /// What went wrong, in words.
    pub fn message(&self) -> (text: String)
        ensures
            text@ == "Invalid cell format"@,
    {
        "Invalid cell format".to_owned()
    }
}

/// Whether `c` is one of the ten decimal digits.
pub open spec fn is_digit(c: char) -> bool {
    '0' <= c && c <= '9'
}

/// The number that a digit stands for; zero for other characters.
pub open spec fn digit_value(c: char) -> nat {
    if is_digit(c) {
        (c as nat - '0' as nat) as nat
    } else {
        0
    }
}

/// The number that a row of digits stands for in base ten.
pub open spec fn decimal_value(digits: Seq<char>) -> nat
    decreases digits.len(),
{
    if digits.len() == 0 {
        0
    } else {
        10 * decimal_value(digits.drop_last()) + digit_value(digits.last())
    }
}

/// The number written in `digits`: one or more digits and nothing else.
/// There is none if the value does not fit in a `usize`.
pub open spec fn unsigned(digits: Seq<char>) -> Option<usize> {
    if digits.len() > 0 && (forall|i: int| 0 <= i < digits.len() ==> is_digit(digits[i]))
        && decimal_value(digits) <= usize::MAX {
        Some(decimal_value(digits) as usize)
    } else {
        None
    }
}

/// The number written in `s`: digits, with or without a `+` before them.
pub open spec fn number(s: Seq<char>) -> Option<usize> {
    if s.len() > 0 && s[0] == '+' {
        unsigned(s.drop_first())
    } else {
        unsigned(s)
    }
}

/// The pieces of `s` between the occurrences of `sep`. There is always at
/// least one piece, and pieces may be empty.
pub open spec fn split(s: Seq<char>, sep: char) -> Seq<Seq<char>>
    decreases s.len(),
{
    if s.len() == 0 {
        seq![Seq::empty()]
    } else {
        let parts = split(s.drop_last(), sep);
        if s.last() == sep {
            parts.push(Seq::empty())
        } else {
            parts.drop_last().push(parts.last().push(s.last()))
        }
    }
}

/// The cell written in `s`: two numbers with one comma between them.
pub open spec fn point(s: Seq<char>) -> Option<Point> {
    let parts = split(s, ',');
    if parts.len() == 2 && number(parts[0]) is Some && number(parts[1]) is Some {
        Some(Point { x: number(parts[0])->0, y: number(parts[1])->0 })
    } else {
        None
    }
}

/// Every piece is empty or a cell.
pub open spec fn all_cells(parts: Seq<Seq<char>>) -> bool {
    forall|i: int|
        0 <= i < parts.len() ==> parts[i].len() == 0 || point(#[trigger] parts[i]) is Some
}

/// The cells written in the pieces that are not empty.
pub open spec fn points_in(parts: Seq<Seq<char>>) -> Set<Point> {
    Set::new(
        |p: Point|
            exists|i: int|
                0 <= i < parts.len() && parts[i].len() > 0 && point(#[trigger] parts[i]) == Some(p),
    )
}

/// The cells written in `s`, with semicolons between them. There is no
/// result if a piece between two semicolons is neither empty nor a cell.
pub open spec fn cells(s: Seq<char>) -> Option<Set<Point>> {
    let parts = split(s, ';');
    if all_cells(parts) {
        Some(points_in(parts))
    } else {
        None
    }
}

/// Splitting never yields nothing.
proof fn lemma_split_nonempty(s: Seq<char>, sep: char)
    ensures
        split(s, sep).len() >= 1,
    decreases s.len(),
{
    if s.len() > 0 {
        lemma_split_nonempty(s.drop_last(), sep);
    }
}

/// Text without the separator is one piece.
proof fn lemma_split_plain(s: Seq<char>, sep: char)
    requires
        !s.contains(sep),
    ensures
        split(s, sep) == seq![s],
    decreases s.len(),
{
    if s.len() > 0 {
        assert forall|i: int| 0 <= i < s.drop_last().len() implies s.drop_last()[i] != sep by {
            assert(s.contains(s[i]));
        }
        assert(s.contains(s.last()));
        lemma_split_plain(s.drop_last(), sep);
        assert(s.drop_last().push(s.last()) =~= s);
        assert(seq![s.drop_last()].drop_last().push(s) =~= seq![s]);
    } else {
        assert(s =~= Seq::<char>::empty());
    }
}

/// Splitting text at a separator splits what is before it and what is
/// after it.
proof fn lemma_split_concat(a: Seq<char>, b: Seq<char>, sep: char)
    ensures
        split(a + seq![sep] + b, sep) == split(a, sep) + split(b, sep),
    decreases b.len(),
{
    let s = a + seq![sep] + b;
    lemma_split_nonempty(a, sep);
    if b.len() == 0 {
        assert(s.drop_last() =~= a);
        assert(split(a, sep).push(Seq::empty()) =~= split(a, sep) + split(b, sep));
    } else {
        assert(s.drop_last() =~= a + seq![sep] + b.drop_last());
        lemma_split_concat(a, b.drop_last(), sep);
        lemma_split_nonempty(b.drop_last(), sep);
        let left = split(a, sep);
        let right = split(b.drop_last(), sep);
        if b.last() == sep {
            assert((left + right).push(Seq::empty()) =~= left + right.push(Seq::empty()));
        } else {
            assert((left + right).drop_last().push((left + right).last().push(b.last())) =~= left
                + right.drop_last().push(right.last().push(b.last())));
        }
    }
}

/// A number is written with digits and `+` alone.
proof fn lemma_number_lacks(s: Seq<char>, c: char)
    requires
        number(s) is Some,
        !is_digit(c),
        c != '+',
    ensures
        !s.contains(c),
{
    if s.contains(c) {
        let j = choose|j: int| 0 <= j < s.len() && s[j] == c;
        if s[0] == '+' {
            assert(is_digit(s.drop_first()[j - 1]));
        } else {
            assert(is_digit(s[j]));
        }
    }
}

/// One more piece adds its cell, if it holds one.
proof fn lemma_points_in_push(parts: Seq<Seq<char>>, piece: Seq<char>)
    ensures
        piece.len() == 0 ==> points_in(parts.push(piece)) == points_in(parts),
        piece.len() > 0 && point(piece) is Some ==> points_in(parts.push(piece)) == points_in(
            parts,
        ).insert(point(piece)->0),
        all_cells(parts) && (piece.len() == 0 || point(piece) is Some) ==> all_cells(
            parts.push(piece),
        ),
{
    let longer = parts.push(piece);
    assert forall|p: Point| points_in(parts).contains(p) implies points_in(longer).contains(p) by {
        let i = choose|i: int|
            0 <= i < parts.len() && parts[i].len() > 0 && point(#[trigger] parts[i]) == Some(p);
        assert(longer[i] == parts[i]);
    }
    assert forall|p: Point| points_in(longer).contains(p) implies points_in(parts).contains(p) || (
    piece.len() > 0 && point(piece) == Some(p)) by {
        let i = choose|i: int|
            0 <= i < longer.len() && longer[i].len() > 0 && point(#[trigger] longer[i]) == Some(p);
        if i < parts.len() {
            assert(parts[i] == longer[i]);
        }
    }
    if piece.len() == 0 {
        assert(points_in(longer) =~= points_in(parts));
    }
    if piece.len() > 0 && point(piece) is Some {
        assert(longer[parts.len() as int] == piece);
        assert(points_in(longer) =~= points_in(parts).insert(point(piece)->0));
    }
    if all_cells(parts) && (piece.len() == 0 || point(piece) is Some) {
        assert forall|i: int| 0 <= i < longer.len() implies longer[i].len() == 0 || point(
            #[trigger] longer[i],
        ) is Some by {
            if i < parts.len() {
                assert(longer[i] == parts[i]);
            }
        }
    }
}

/// More digits never make a smaller number.
proof fn lemma_decimal_prefix(digits: Seq<char>, n: int)
    requires
        0 <= n <= digits.len(),
    ensures
        decimal_value(digits.take(n)) <= decimal_value(digits),
    decreases digits.len(),
{
    if n == digits.len() {
        assert(digits.take(n) =~= digits);
    } else {
        assert(digits.drop_last().take(n) =~= digits.take(n));
        lemma_decimal_prefix(digits.drop_last(), n);
    }
}

/// The characters of `s`.
fn to_chars(s: &str) -> (chars: Vec<char>)
    ensures
        chars@ == s@,
{
    let mut chars: Vec<char> = Vec::new();
    for c in it: s.chars()
        invariant
            it.seq() == s@,
            chars@ == s@.take(it.index()),
    {
        proof {
            assert(s@.take(it.index() + 1) =~= s@.take(it.index()).push(c));
        }
        chars.push(c);
    }
    proof {
        assert(s@.take(s@.len() as int) =~= s@);
    }
    chars
}

/// Reads the number written in `chars` from `start` up to `end`.
fn number_in(chars: &Vec<char>, start: usize, end: usize) -> (n: Option<usize>)
    requires
        start <= end <= chars.len(),
    ensures
        n == number(chars@.subrange(start as int, end as int)),
{
    let ghost s = chars@.subrange(start as int, end as int);
    let from = if start < end && chars[start] == '+' {
        start + 1
    } else {
        start
    };
    let ghost digits = chars@.subrange(from as int, end as int);
    proof {
        if from == start {
            assert(digits =~= s);
        } else {
            assert(digits =~= s.drop_first());
        }
        assert(number(s) == unsigned(digits));
    }
    if from == end {
        return None;
    }
    let mut value: usize = 0;
    let mut i = from;
    while i < end
        invariant
            from <= i <= end <= chars.len(),
            digits == chars@.subrange(from as int, end as int),
            number(chars@.subrange(start as int, end as int)) == unsigned(digits),
            forall|j: int| 0 <= j < i - from ==> is_digit(digits[j]),
            value == decimal_value(digits.take(i - from)),
        decreases end - i,
    {
        let c = chars[i];
        if !('0' <= c && c <= '9') {
            proof {
                assert(!is_digit(digits[i - from]));
            }
            return None;
        }
        let digit: usize = (c as u32 - '0' as u32) as usize;
        proof {
            let longer = digits.take(i - from + 1);
            assert(longer.drop_last() =~= digits.take(i - from));
            assert(longer.last() == c);
            lemma_decimal_prefix(digits, i - from + 1);
        }
        let tens = match value.checked_mul(10) {
            Some(tens) => tens,
            None => {
                return None;
            },
        };
        value = match tens.checked_add(digit) {
            Some(sum) => sum,
            None => {
                return None;
            },
        };
        i = i + 1;
    }
    proof {
        assert(digits.take(digits.len() as int) =~= digits);
    }
    Some(value)
}

/// Reads the cell written in `chars` from `start` up to `end`.
fn point_in(chars: &Vec<char>, start: usize, end: usize) -> (p: Option<Point>)
    requires
        start <= end <= chars.len(),
    ensures
        p == point(chars@.subrange(start as int, end as int)),
{
    let ghost s = chars@.subrange(start as int, end as int);
    let mut comma = start;
    while comma < end && chars[comma] != ','
        invariant
            start <= comma <= end <= chars.len(),
            forall|j: int| start <= j < comma ==> chars@[j] != ',',
        decreases end - comma,
    {
        comma = comma + 1;
    }
    if comma == end {
        proof {
            lemma_split_plain(s, ',');
        }
        return None;
    }
    let ghost left = chars@.subrange(start as int, comma as int);
    let ghost right = chars@.subrange(comma + 1, end as int);
    proof {
        assert(s =~= left + seq![','] + right);
        lemma_split_concat(left, right, ',');
        lemma_split_plain(left, ',');
        lemma_split_nonempty(right, ',');
        if number(right) is Some {
            lemma_number_lacks(right, ',');
            lemma_split_plain(right, ',');
        }
        if split(s, ',').len() == 2 {
            assert(split(right, ',').len() == 1);
            assert(!right.contains(',')) by {
                if right.contains(',') {
                    let j = choose|j: int| 0 <= j < right.len() && right[j] == ',';
                    let before = right.take(j);
                    let after = right.skip(j + 1);
                    assert(right =~= before + seq![','] + after);
                    lemma_split_concat(before, after, ',');
                    lemma_split_nonempty(before, ',');
                    lemma_split_nonempty(after, ',');
                }
            }
            lemma_split_plain(right, ',');
        }
    }
    let x = match number_in(chars, start, comma) {
        Some(x) => x,
        None => {
            return None;
        },
    };
    let y = match number_in(chars, comma + 1, end) {
        Some(y) => y,
        None => {
            return None;
        },
    };
    Some(Point::new(x, y))
}

/// Reads one cell, written as `x,y`.
///
/// Each number is an optional `+` followed by decimal digits. Anything
/// else is an error: no comma or more than one, a missing number, a blank,
/// a number too large for `usize`.
pub fn parse_point(s: &str) -> (result: Result<Point, ParseError>)
    ensures
        match result {
            Ok(p) => point(s@) == Some(p),
            Err(_) => point(s@) is None,
        },
{
    let chars = to_chars(s);
    proof {
        assert(chars@.subrange(0, chars@.len() as int) =~= s@);
    }
    match point_in(&chars, 0, chars.len()) {
        Some(p) => Ok(p),
        None => Err(ParseError),
    }
}

/// Reads a list of cells, written as `x1,y1;x2,y2;...`.
///
/// Empty text gives the empty set. Empty places between semicolons are
/// passed over; a cell written twice counts once. One piece that is no
/// cell makes the whole text an error.
pub fn parse_cells(input: &str) -> (result: Result<PointSet, ParseError>)
    ensures
        match result {
            Ok(set) => cells(input@) == Some(set@),
            Err(_) => cells(input@) is None,
        },
{
    let chars = to_chars(input);
    let end = chars.len();
    let mut set = PointSet::new();
    let mut start: usize = 0;
    let mut finished = false;
    let ghost mut done: Seq<Seq<char>> = Seq::empty();
    proof {
        assert(chars@.skip(0) =~= chars@);
        assert(done + split(chars@, ';') =~= split(chars@, ';'));
        assert(points_in(done) =~= Set::<Point>::empty());
    }
    while !finished
        invariant
            start <= end == chars.len(),
            chars@ == input@,
            all_cells(done),
            set@ == points_in(done),
            finished ==> split(chars@, ';') == done,
            !finished ==> split(chars@, ';') == done + split(chars@.skip(start as int), ';'),
        decreases end - start + (if finished { 0int } else { 1int }),
    {
        let mut stop = start;
        while stop < end && chars[stop] != ';'
            invariant
                start <= stop <= end == chars.len(),
                forall|j: int| start <= j < stop ==> chars@[j] != ';',
            decreases end - stop,
        {
            stop = stop + 1;
        }
        let ghost piece = chars@.subrange(start as int, stop as int);
        let ghost rest = chars@.skip(start as int);
        proof {
            lemma_split_plain(piece, ';');
            if stop < end {
                let after = chars@.skip(stop + 1);
                assert(rest =~= piece + seq![';'] + after);
                lemma_split_concat(piece, after, ';');
                assert(done + (seq![piece] + split(after, ';')) =~= done.push(piece) + split(
                    after,
                    ';',
                ));
            } else {
                assert(rest =~= piece);
                assert(done + seq![piece] =~= done.push(piece));
            }
            assert(split(chars@, ';')[done.len() as int] == piece);
            lemma_points_in_push(done, piece);
        }
        if stop > start {
            match point_in(&chars, start, stop) {
                Some(p) => {
                    set.insert(p);
                },
                None => {
                    return Err(ParseError);
                },
            }
        }
        proof {
            done = done.push(piece);
        }
        if stop == end {
            finished = true;
        } else {
            start = stop + 1;
        }
    }
    Ok(set)
}

} // verus!
