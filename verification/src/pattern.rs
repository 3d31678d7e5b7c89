//! Patterns: grammars written as text. A pattern is a sequence of items; an
//! item is a character class in square brackets, a choice of texts in round
//! brackets, an escaped byte or a plain byte; a class, an escaped byte and a
//! plain byte may be followed by a count `{n}` or a range of counts `{m,n}`.

use crate::failure::Failure;
use crate::grammar::{pieces_wf, repeat_of, span, span_of, Grammar, Piece, PieceView};
use vstd::prelude::*;

verus! {

/// The greatest count that a pattern may name.
pub const COUNT_LIMIT: usize = 100_000;

/// The byte is a decimal digit.
pub open spec fn is_digit(b: u8) -> bool {
    0x30 <= b && b <= 0x39
}

/// The byte stands for itself in a pattern: it is none of the brackets, the
/// bar, the backslash, and the signs `. * + ? ^ $`.
pub open spec fn is_plain(b: u8) -> bool {
    b != 0x5b && b != 0x5d && b != 0x28 && b != 0x29 && b != 0x7b && b != 0x7d && b != 0x7c && b
        != 0x5c && b != 0x2e && b != 0x2a && b != 0x2b && b != 0x3f && b != 0x5e && b != 0x24
}

/// Reads a decimal number from place `i` on. `acc` is the value of the
/// digits read so far, and `any` tells whether there are any. The result is
/// the number and the place behind it; there is none without a digit or
/// above `COUNT_LIMIT`.
pub open spec fn read_number(p: Seq<u8>, i: int, acc: nat, any: bool) -> Option<(nat, int)>
    decreases p.len() - i,
{
    if 0 <= i < p.len() && is_digit(p[i]) {
        let next = acc * 10 + (p[i] - 0x30) as nat;
        if next > COUNT_LIMIT {
            None
        } else {
            read_number(p, i + 1, next, true)
        }
    } else if any {
        Some((acc, i))
    } else {
        None
    }
}

/// Reads the counts that follow an item at place `i`: `{n}`, `{m,n}` with
/// `m` at most `n`, or nothing, which stands for exactly one. The result is
/// the least count, the greatest, and the place behind them.
pub open spec fn read_counts(p: Seq<u8>, i: int) -> Option<(nat, nat, int)> {
    if 0 <= i < p.len() && p[i] == 0x7b {
        match read_number(p, i + 1, 0, false) {
            None => None,
            Some((min, j)) => if 0 <= j < p.len() && p[j] == 0x7d {
                Some((min, min, j + 1))
            } else if 0 <= j < p.len() && p[j] == 0x2c {
                match read_number(p, j + 1, 0, false) {
                    None => None,
                    Some((max, k)) => if 0 <= k < p.len() && p[k] == 0x7d && min <= max {
                        Some((min, max, k + 1))
                    } else {
                        None
                    },
                }
            } else {
                None
            },
        }
    } else {
        Some((1, 1, i))
    }
}

/// Reads the inside of a character class from place `i` on, up to the
/// closing bracket. `acc` holds the bytes read so far. A backslash takes the
/// next byte as it is; `a-z` stands for the bytes from `a` to `z`, which must
/// be in order; any other byte stands for itself. An empty class is none.
pub open spec fn read_class(p: Seq<u8>, i: int, acc: Seq<u8>) -> Option<(Seq<u8>, int)>
    decreases p.len() - i,
{
    if !(0 <= i < p.len()) {
        None
    } else if p[i] == 0x5d {
        if acc.len() > 0 {
            Some((acc, i + 1))
        } else {
            None
        }
    } else if p[i] == 0x5c {
        if i + 1 < p.len() {
            read_class(p, i + 2, acc.push(p[i + 1]))
        } else {
            None
        }
    } else if i + 2 < p.len() && p[i + 1] == 0x2d && p[i + 2] != 0x5d {
        if p[i] <= p[i + 2] {
            read_class(p, i + 3, acc + span_of(p[i], p[i + 2]))
        } else {
            None
        }
    } else {
        read_class(p, i + 1, acc.push(p[i]))
    }
}

/// Reads the inside of a choice from place `i` on, up to the closing
/// bracket. `done` holds the texts that a bar has closed, `current` the bytes
/// of the text that is being read.
pub open spec fn read_choice(p: Seq<u8>, i: int, done: Seq<Seq<u8>>, current: Seq<u8>) -> Option<
    (Seq<Seq<u8>>, int),
>
    decreases p.len() - i,
{
    if !(0 <= i < p.len()) {
        None
    } else if p[i] == 0x29 {
        Some((done.push(current), i + 1))
    } else if p[i] == 0x7c {
        read_choice(p, i + 1, done.push(current), Seq::empty())
    } else {
        read_choice(p, i + 1, done, current.push(p[i]))
    }
}

/// The piece that starts at place `i`, and the place behind it.
pub open spec fn read_piece(p: Seq<u8>, i: int) -> Option<(PieceView, int)> {
    if !(0 <= i < p.len()) {
        None
    } else if p[i] == 0x5b {
        match read_class(p, i + 1, Seq::empty()) {
            None => None,
            Some((class, j)) => match read_counts(p, j) {
                None => None,
                Some((min, max, k)) => Some((repeat_of(class, min, max), k)),
            },
        }
    } else if p[i] == 0x28 {
        match read_choice(p, i + 1, Seq::empty(), Seq::empty()) {
            None => None,
            Some((options, j)) => Some((PieceView::OneOf { options }, j)),
        }
    } else if p[i] == 0x5c {
        if i + 1 < p.len() {
            match read_counts(p, i + 2) {
                None => None,
                Some((min, max, k)) => Some((repeat_of(seq![p[i + 1]], min, max), k)),
            }
        } else {
            None
        }
    } else if is_plain(p[i]) {
        match read_counts(p, i + 1) {
            None => None,
            Some((min, max, k)) => Some((repeat_of(seq![p[i]], min, max), k)),
        }
    } else {
        None
    }
}

/// Reads the pieces of a pattern from place `i` on. `acc` holds the pieces
/// read so far.
pub open spec fn read_pieces(p: Seq<u8>, i: int, acc: Seq<PieceView>) -> Option<Seq<PieceView>>
    decreases p.len() - i,
{
    if !(0 <= i < p.len()) {
        Some(acc)
    } else {
        match read_piece(p, i) {
            None => None,
            Some((piece, j)) => if i < j <= p.len() {
                read_pieces(p, j, acc.push(piece))
            } else {
                None
            },
        }
    }
}

/// The pieces that a pattern describes, if it is well formed.
pub open spec fn parsed(p: Seq<u8>) -> Option<Seq<PieceView>> {
    read_pieces(p, 0, Seq::empty())
}

/// The texts of the options, one by one.
pub open spec fn texts_of(options: Seq<Vec<u8>>) -> Seq<Seq<u8>> {
    Seq::new(options.len(), |j: int| options[j]@)
}

fn number_at(p: &[u8], start: usize) -> (found: Option<(usize, usize)>)
    requires
        start <= p@.len(),
    ensures
        match found {
            Some((value, next)) => read_number(p@, start as int, 0, false) == Some(
                (value as nat, next as int),
            ) && start < next <= p@.len(),
            None => read_number(p@, start as int, 0, false) is None,
        },
{
    let mut i: usize = start;
    let mut acc: usize = 0;
    while i < p.len() && p[i] >= 0x30 && p[i] <= 0x39
        invariant
            start <= i <= p@.len(),
            acc <= COUNT_LIMIT,
            read_number(p@, start as int, 0, false) == read_number(p@, i as int, acc as nat, i > start),
        decreases p@.len() - i,
    {
        let next: usize = acc * 10 + (p[i] - 0x30) as usize;
        if next > COUNT_LIMIT {
            return None;
        }
        acc = next;
        i = i + 1;
    }
    if i > start {
        Some((acc, i))
    } else {
        None
    }
}

fn counts_at(p: &[u8], i: usize) -> (found: Option<(usize, usize, usize)>)
    requires
        i <= p@.len(),
    ensures
        match found {
            Some((min, max, next)) => read_counts(p@, i as int) == Some(
                (min as nat, max as nat, next as int),
            ) && i <= next <= p@.len() && min <= max,
            None => read_counts(p@, i as int) is None,
        },
{
    if i < p.len() && p[i] == 0x7b {
        match number_at(p, i + 1) {
            None => None,
            Some((min, j)) => {
                if j < p.len() && p[j] == 0x7d {
                    Some((min, min, j + 1))
                } else if j < p.len() && p[j] == 0x2c {
                    match number_at(p, j + 1) {
                        None => None,
                        Some((max, k)) => {
                            if k < p.len() && p[k] == 0x7d && min <= max {
                                Some((min, max, k + 1))
                            } else {
                                None
                            }
                        },
                    }
                } else {
                    None
                }
            },
        }
    } else {
        Some((1, 1, i))
    }
}

fn class_at(p: &[u8], start: usize) -> (found: Option<(Vec<u8>, usize)>)
    requires
        start <= p@.len(),
    ensures
        match found {
            Some((class, next)) => read_class(p@, start as int, Seq::empty()) == Some(
                (class@, next as int),
            ) && start < next <= p@.len() && class@.len() > 0,
            None => read_class(p@, start as int, Seq::empty()) is None,
        },
{
    let mut i: usize = start;
    let mut acc: Vec<u8> = Vec::new();
    while i < p.len()
        invariant
            start <= i <= p@.len(),
            read_class(p@, start as int, Seq::empty()) == read_class(p@, i as int, acc@),
        decreases p@.len() - i,
    {
        if p[i] == 0x5d {
            if acc.len() > 0 {
                return Some((acc, i + 1));
            } else {
                return None;
            }
        } else if p[i] == 0x5c {
            if p.len() - i > 1 {
                acc.push(p[i + 1]);
                i = i + 2;
            } else {
                return None;
            }
        } else if p.len() - i > 2 && p[i + 1] == 0x2d && p[i + 2] != 0x5d {
            if p[i] <= p[i + 2] {
                let mut range = span(p[i], p[i + 2]);
                acc.append(&mut range);
                i = i + 3;
            } else {
                return None;
            }
        } else {
            acc.push(p[i]);
            i = i + 1;
        }
    }
    None
}

fn choice_at(p: &[u8], start: usize) -> (found: Option<(Vec<Vec<u8>>, usize)>)
    requires
        start <= p@.len(),
    ensures
        match found {
            Some((options, next)) => read_choice(
                p@,
                start as int,
                Seq::empty(),
                Seq::empty(),
            ) == Some((texts_of(options@), next as int)) && start < next <= p@.len()
                && options@.len() > 0,
            None => read_choice(p@, start as int, Seq::empty(), Seq::empty()) is None,
        },
{
    let mut i: usize = start;
    let mut done: Vec<Vec<u8>> = Vec::new();
    let mut current: Vec<u8> = Vec::new();
    assert(texts_of(done@) =~= Seq::<Seq<u8>>::empty());
    while i < p.len()
        invariant
            start <= i <= p@.len(),
            read_choice(p@, start as int, Seq::empty(), Seq::empty()) == read_choice(
                p@,
                i as int,
                texts_of(done@),
                current@,
            ),
        decreases p@.len() - i,
    {
        if p[i] == 0x29 {
            let ghost before = texts_of(done@);
            done.push(current);
            assert(texts_of(done@) =~= before.push(current@));
            return Some((done, i + 1));
        } else if p[i] == 0x7c {
            let ghost before = texts_of(done@);
            let ghost closed = current@;
            done.push(current);
            assert(texts_of(done@) =~= before.push(closed));
            current = Vec::new();
        } else {
            current.push(p[i]);
        }
        i = i + 1;
    }
    None
}

fn is_plain_byte(b: u8) -> (plain: bool)
    ensures
        plain == is_plain(b),
{
    b != 0x5b && b != 0x5d && b != 0x28 && b != 0x29 && b != 0x7b && b != 0x7d && b != 0x7c && b
        != 0x5c && b != 0x2e && b != 0x2a && b != 0x2b && b != 0x3f && b != 0x5e && b != 0x24
}

fn single(b: u8) -> (class: Vec<u8>)
    ensures
        class@ == seq![b],
{
    let mut class: Vec<u8> = Vec::new();
    class.push(b);
    assert(class@ =~= seq![b]);
    class
}

fn piece_at(p: &[u8], i: usize) -> (found: Option<(Piece, usize)>)
    requires
        i < p@.len(),
    ensures
        match found {
            Some((piece, next)) => read_piece(p@, i as int) == Some((piece@, next as int)) && i
                < next <= p@.len() && piece@.wf(),
            None => read_piece(p@, i as int) is None,
        },
{
    if p[i] == 0x5b {
        match class_at(p, i + 1) {
            None => None,
            Some((class, j)) => match counts_at(p, j) {
                None => None,
                Some((min, max, k)) => Some((Piece::repeat(class, min, max), k)),
            },
        }
    } else if p[i] == 0x28 {
        match choice_at(p, i + 1) {
            None => None,
            Some((options, j)) => {
                let piece = Piece::OneOf { options };
                assert(piece@->options =~= texts_of(options@));
                Some((piece, j))
            },
        }
    } else if p[i] == 0x5c {
        if p.len() - i > 1 {
            match counts_at(p, i + 2) {
                None => None,
                Some((min, max, k)) => Some((Piece::repeat(single(p[i + 1]), min, max), k)),
            }
        } else {
            None
        }
    } else if is_plain_byte(p[i]) {
        match counts_at(p, i + 1) {
            None => None,
            Some((min, max, k)) => Some((Piece::repeat(single(p[i]), min, max), k)),
        }
    } else {
        None
    }
}

/// Reads a pattern. The grammar holds the pieces that the pattern describes,
/// each of which describes at least one text; a pattern that describes none
/// is malformed.
pub fn parse(pattern: &[u8]) -> (outcome: Result<Grammar, Failure>)
    ensures
        match outcome {
            Ok(grammar) => parsed(pattern@) == Some(grammar@) && grammar.wf(),
            Err(failure) => parsed(pattern@) is None && failure == Failure::MalformedGrammar,
        },
{
    let mut pieces: Vec<Piece> = Vec::new();
    let mut i: usize = 0;
    let ghost mut views: Seq<PieceView> = Seq::empty();
    while i < pattern.len()
        invariant
            i <= pattern@.len(),
            views == Seq::new(pieces@.len(), |k: int| pieces@[k]@),
            pieces_wf(views),
            parsed(pattern@) == read_pieces(pattern@, i as int, views),
        decreases pattern@.len() - i,
    {
        match piece_at(pattern, i) {
            None => {
                return Err(Failure::MalformedGrammar);
            },
            Some((piece, next)) => {
                proof {
                    views = views.push(piece@);
                }
                pieces.push(piece);
                assert(views =~= Seq::new(pieces@.len(), |k: int| pieces@[k]@));
                i = next;
            },
        }
    }
    Ok(Grammar::of(pieces))
}

} // verus!
