//! Grammars for generated text: a sequence of pieces, each either a bounded
//! repetition of a character class or a choice among fixed byte strings.

use crate::failure::Failure;
use crate::source::{lemma_advanced_add, pick_between, RandomSource};
use vstd::prelude::*;
use vstd::string::{StrSliceExecFns, StringSliceAdditionalSpecFns};

verus! {

/// One piece of a grammar.
#[derive(Clone, Debug)]
pub enum Piece {
    /// Between `min` and `max` bytes (both included), each drawn from `class`.
    Repeat { class: Vec<u8>, min: usize, max: usize },
    /// Exactly one of the `options`.
    OneOf { options: Vec<Vec<u8>> },
}

/// The mathematical content of a piece.
pub enum PieceView {
    Repeat { class: Seq<u8>, min: nat, max: nat },
    OneOf { options: Seq<Seq<u8>> },
}

impl PieceView {
    /// The piece describes at least one text.
    pub open spec fn wf(self) -> bool {
        match self {
            PieceView::Repeat { class, min, max } => class.len() > 0 && min <= max,
            PieceView::OneOf { options } => options.len() > 0,
        }
    }

    /// The text `s` belongs to the piece.
    pub open spec fn accepts(self, s: Seq<u8>) -> bool {
        match self {
            PieceView::Repeat { class, min, max } => {
                &&& min <= s.len() <= max
                &&& forall|i: int| 0 <= i < s.len() ==> class.contains(#[trigger] s[i])
            },
            PieceView::OneOf { options } => exists|j: int|
                0 <= j < options.len() && #[trigger] options[j] == s,
        }
    }
}

/// The `count` bytes that consecutive draws from `source` pick out of
/// `class`: each draw, reduced modulo the size of the class, is the place of
/// one byte.
pub open spec fn drawn_bytes(class: Seq<u8>, source: RandomSource, count: nat) -> Seq<u8>
    decreases count,
{
    if count == 0 {
        Seq::empty()
    } else {
        drawn_bytes(class, source, (count - 1) as nat).push(
            class[(source.advanced((count - 1) as nat).peek() % (class.len() as u64)) as int],
        )
    }
}

impl PieceView {
    /// The number of bytes that the first draw from `source` decides on.
    pub open spec fn count(self, source: RandomSource) -> nat {
        pick_between(source.peek(), self->min as u64, self->max as u64) as nat
    }

    /// The number of draws that the piece takes from `source`: one for the
    /// count and one for each byte of a repetition, one for a choice.
    pub open spec fn draws(self, source: RandomSource) -> nat {
        match self {
            PieceView::Repeat { .. } => 1 + self.count(source),
            PieceView::OneOf { .. } => 1,
        }
    }

    /// The text of the piece that the draws from `source` select.
    pub open spec fn text(self, source: RandomSource) -> Seq<u8> {
        match self {
            PieceView::Repeat { class, .. } => drawn_bytes(
                class,
                source.advanced(1),
                self.count(source),
            ),
            PieceView::OneOf { options } => options[(source.peek() % (options.len() as u64)) as int],
        }
    }
}

/// The number of draws that the pieces take from `source`, one after another.
pub open spec fn pieces_draws(pieces: Seq<PieceView>, source: RandomSource) -> nat
    decreases pieces.len(),
{
    if pieces.len() == 0 {
        0
    } else {
        pieces_draws(pieces.drop_last(), source) + pieces.last().draws(
            source.advanced(pieces_draws(pieces.drop_last(), source)),
        )
    }
}

/// The text that the draws from `source` select: the texts of the pieces in
/// sequence, each piece drawing where the one before it stopped.
pub open spec fn pieces_text(pieces: Seq<PieceView>, source: RandomSource) -> Seq<u8>
    decreases pieces.len(),
{
    if pieces.len() == 0 {
        Seq::empty()
    } else {
        pieces_text(pieces.drop_last(), source) + pieces.last().text(
            source.advanced(pieces_draws(pieces.drop_last(), source)),
        )
    }
}

impl View for Piece {
    type V = PieceView;

    open spec fn view(&self) -> PieceView {
        match *self {
            Piece::Repeat { class, min, max } => PieceView::Repeat {
                class: class@,
                min: min as nat,
                max: max as nat,
            },
            Piece::OneOf { options } => PieceView::OneOf {
                options: Seq::new(options@.len(), |j: int| options@[j]@),
            },
        }
    }
}

/// Every piece of `pieces` describes at least one text.
pub open spec fn pieces_wf(pieces: Seq<PieceView>) -> bool {
    forall|i: int| 0 <= i < pieces.len() ==> (#[trigger] pieces[i]).wf()
}

/// Part `i` of the text `s` under the cut points `cuts` lies inside the text
/// and belongs to piece `i`.
pub open spec fn part_ok(pieces: Seq<PieceView>, s: Seq<u8>, cuts: Seq<int>, i: int) -> bool {
    &&& 0 <= cuts[i]
    &&& cuts[i] <= cuts[i + 1]
    &&& cuts[i + 1] <= s.len()
    &&& pieces[i].accepts(s.subrange(cuts[i], cuts[i + 1]))
}

/// The cut points `cuts` split the text `s` into consecutive parts, one for
/// each piece in order, each belonging to its piece.
pub open spec fn splits_at(pieces: Seq<PieceView>, s: Seq<u8>, cuts: Seq<int>) -> bool {
    &&& cuts.len() == pieces.len() + 1
    &&& cuts[0] == 0
    &&& cuts[pieces.len() as int] == s.len()
    &&& forall|i: int| 0 <= i < pieces.len() ==> #[trigger] part_ok(pieces, s, cuts, i)
}

/// The text `s` splits into consecutive parts, one for each piece in order,
/// each belonging to its piece.
pub open spec fn pieces_accept(pieces: Seq<PieceView>, s: Seq<u8>) -> bool {
    exists|cuts: Seq<int>| #[trigger] splits_at(pieces, s, cuts)
}

/// The bytes from `low` to `high`, both included, in rising order.
pub open spec fn span_of(low: u8, high: u8) -> Seq<u8> {
    Seq::new(
        if low <= high {
            (high - low + 1) as nat
        } else {
            0
        },
        |i: int| (low + i) as u8,
    )
}

/// A repetition of a class, as a piece's content.
pub open spec fn repeat_of(class: Seq<u8>, min: nat, max: nat) -> PieceView {
    PieceView::Repeat { class, min, max }
}

/// The piece that accepts the bytes of `text` and nothing else.
pub open spec fn literal_of(text: &str) -> PieceView {
    PieceView::OneOf { options: seq![text.spec_bytes()] }
}

/// The piece that accepts the bytes of any one of three texts.
pub open spec fn choice_of(first: &str, second: &str, third: &str) -> PieceView {
    PieceView::OneOf {
        options: seq![first.spec_bytes(), second.spec_bytes(), third.spec_bytes()],
    }
}

/// The bytes from `low` to `high`, both included, in rising order.
pub fn span(low: u8, high: u8) -> (class: Vec<u8>)
    ensures
        class@ == span_of(low, high),
{
    let mut class: Vec<u8> = Vec::new();
    if low <= high {
        let mut b: u8 = low;
        while b < high
            invariant
                low <= b <= high,
                class@ == span_of(low, b).drop_last(),
            decreases high - b,
        {
            class.push(b);
            b = b + 1;
            assert(class@ =~= span_of(low, b).drop_last());
        }
        class.push(high);
        assert(class@ =~= span_of(low, high));
    } else {
        assert(class@ =~= span_of(low, high));
    }
    class
}

/// The bytes of `first` followed by those of `second`.
pub fn joined(first: Vec<u8>, second: &Vec<u8>) -> (class: Vec<u8>)
    ensures
        class@ == first@ + second@,
{
    let mut class = first;
    let mut i: usize = 0;
    while i < second.len()
        invariant
            i <= second@.len(),
            class@ == first@ + second@.subrange(0, i as int),
        decreases second@.len() - i,
    {
        class.push(second[i]);
        assert(class@ =~= first@ + second@.subrange(0, i + 1));
        i = i + 1;
    }
    assert(second@.subrange(0, i as int) =~= second@);
    class
}

/// A grammar: the texts that its pieces accept in sequence.
#[derive(Clone, Debug)]
pub struct Grammar {
    pub pieces: Vec<Piece>,
}

impl View for Grammar {
    type V = Seq<PieceView>;

    open spec fn view(&self) -> Seq<PieceView> {
        Seq::new(self.pieces@.len(), |i: int| self.pieces@[i]@)
    }
}

impl Piece {
    /// Between `min` and `max` bytes of `class`.
    pub fn repeat(class: Vec<u8>, min: usize, max: usize) -> (piece: Piece)
        ensures
            piece@ == repeat_of(class@, min as nat, max as nat),
    {
        Piece::Repeat { class, min, max }
    }

    /// The bytes of `text`.
    pub fn literal(text: &str) -> (piece: Piece)
        ensures
            piece@ == literal_of(text),
            piece@.wf(),
    {
        let mut options: Vec<Vec<u8>> = Vec::new();
        options.push(text.as_bytes_vec());
        let piece = Piece::OneOf { options };
        assert(piece@->options =~= seq![text.spec_bytes()]);
        piece
    }

    /// The bytes of one of three texts.
    pub fn choice(first: &str, second: &str, third: &str) -> (piece: Piece)
        ensures
            piece@ == choice_of(first, second, third),
            piece@.wf(),
    {
        let mut options: Vec<Vec<u8>> = Vec::new();
        options.push(first.as_bytes_vec());
        options.push(second.as_bytes_vec());
        options.push(third.as_bytes_vec());
        let piece = Piece::OneOf { options };
        assert(piece@->options =~= seq![
            first.spec_bytes(),
            second.spec_bytes(),
            third.spec_bytes(),
        ]);
        piece
    }

    /// Tells whether the piece describes at least one text.
    pub fn is_wf(&self) -> (ok: bool)
        ensures
            ok == self@.wf(),
    {
        match self {
            Piece::Repeat { class, min, max } => class.len() > 0 && *min <= *max,
            Piece::OneOf { options } => options.len() > 0,
        }
    }

    /// Draws one text of the piece and appends it to `out`.
    pub fn sample_into(&self, source: &mut RandomSource, out: &mut Vec<u8>)
        requires
            self@.wf(),
        ensures
            final(out)@.len() >= old(out)@.len(),
            final(out)@.subrange(0, old(out)@.len() as int) == old(out)@,
            self@.accepts(final(out)@.subrange(old(out)@.len() as int, final(out)@.len() as int)),
            final(out)@.subrange(old(out)@.len() as int, final(out)@.len() as int) == self@.text(
                *old(source),
            ),
            *final(source) == old(source).advanced(self@.draws(*old(source))),
            final(source).seed == old(source).seed,
    {
        let ghost before = out@;
        match self {
            Piece::Repeat { class, min, max } => {
                let count: usize = source.between(*min as u64, *max as u64) as usize;
                let ghost start = *source;
                let mut n: usize = 0;
                assert(out@.subrange(before.len() as int, out@.len() as int) =~= drawn_bytes(
                    class@,
                    start,
                    0,
                ));
                while n < count
                    invariant
                        n <= count,
                        class@.len() > 0,
                        source.seed == old(source).seed,
                        *source == start.advanced(n as nat),
                        out@.subrange(before.len() as int, out@.len() as int) == drawn_bytes(
                            class@,
                            start,
                            n as nat,
                        ),
                        out@.len() == before.len() + n,
                        out@.subrange(0, before.len() as int) == before,
                        forall|i: int|
                            before.len() <= i < out@.len() ==> class@.contains(#[trigger] out@[i]),
                    decreases count - n,
                {
                    let pick: usize = source.below(class.len() as u64) as usize;
                    let b: u8 = class[pick];
                    let ghost prev = out@;
                    out.push(b);
                    assert(out@.subrange(0, before.len() as int) =~= prev.subrange(
                        0,
                        before.len() as int,
                    ));
                    proof {
                        lemma_advanced_add(start, n as nat, 1);
                        assert(out@.subrange(before.len() as int, out@.len() as int)
                            =~= prev.subrange(before.len() as int, prev.len() as int).push(b));
                    }
                    n = n + 1;
                }
                proof {
                    lemma_advanced_add(*old(source), 1, count as nat);
                }
                let ghost tail = out@.subrange(before.len() as int, out@.len() as int);
                assert forall|i: int| 0 <= i < tail.len() implies class@.contains(
                    #[trigger] tail[i],
                ) by {
                    assert(tail[i] == out@[before.len() + i]);
                }
            },
            Piece::OneOf { options } => {
                let pick: usize = source.below(options.len() as u64) as usize;
                let option: &Vec<u8> = &options[pick];
                let mut n: usize = 0;
                while n < option.len()
                    invariant
                        n <= option@.len(),
                        out@.len() == before.len() + n,
                        out@.subrange(0, before.len() as int) == before,
                        out@.subrange(before.len() as int, out@.len() as int) == option@.subrange(
                            0,
                            n as int,
                        ),
                    decreases option@.len() - n,
                {
                    let ghost prev = out@;
                    out.push(option[n]);
                    assert(out@.subrange(0, before.len() as int) =~= prev.subrange(
                        0,
                        before.len() as int,
                    ));
                    assert(out@.subrange(before.len() as int, out@.len() as int)
                        =~= option@.subrange(0, n + 1));
                    n = n + 1;
                }
                assert(option@.subrange(0, n as int) =~= option@);
                assert(self@->options[pick as int] == option@);
            },
        }
    }
}

impl Grammar {
    /// The grammar of the pieces in sequence.
    pub fn of(pieces: Vec<Piece>) -> (grammar: Grammar)
        ensures
            grammar@ == Seq::new(pieces@.len(), |i: int| pieces@[i]@),
            grammar.pieces == pieces,
    {
        Grammar { pieces }
    }

    /// The grammar describes at least one text.
    pub open spec fn wf(&self) -> bool {
        pieces_wf(self@)
    }

    /// The text `s` belongs to the grammar.
    pub open spec fn accepts(&self, s: Seq<u8>) -> bool {
        pieces_accept(self@, s)
    }

    /// Checks that every piece describes at least one text.
    pub fn check(&self) -> (outcome: Result<(), Failure>)
        ensures
            outcome is Ok <==> self.wf(),
            outcome is Err ==> outcome == Err::<(), Failure>(Failure::MalformedGrammar),
    {
        let mut i: usize = 0;
        while i < self.pieces.len()
            invariant
                i <= self.pieces@.len(),
                forall|j: int| 0 <= j < i ==> (#[trigger] self@[j]).wf(),
            decreases self.pieces@.len() - i,
        {
            if !self.pieces[i].is_wf() {
                assert(!self@[i as int].wf());
                return Err(Failure::MalformedGrammar);
            }
            i = i + 1;
        }
        Ok(())
    }

    /// Draws one text of the grammar.
    pub fn sample(&self, source: &mut RandomSource) -> (text: Vec<u8>)
        requires
            self.wf(),
        ensures
            self.accepts(text@),
            text@ == pieces_text(self@, *old(source)),
            *final(source) == old(source).advanced(pieces_draws(self@, *old(source))),
            final(source).seed == old(source).seed,
    {
        let mut text: Vec<u8> = Vec::new();
        let mut i: usize = 0;
        let ghost mut cuts: Seq<int> = seq![0int];
        assert(self@.subrange(0, 0) =~= Seq::<PieceView>::empty());
        while i < self.pieces.len()
            invariant
                i <= self.pieces@.len(),
                self.wf(),
                source.seed == old(source).seed,
                text@ == pieces_text(self@.subrange(0, i as int), *old(source)),
                *source == old(source).advanced(
                    pieces_draws(self@.subrange(0, i as int), *old(source)),
                ),
                splits_at(self@.subrange(0, i as int), text@, cuts),
            decreases self.pieces@.len() - i,
        {
            let ghost before = text@;
            let ghost earlier = cuts;
            assert(self@[i as int].wf());
            self.pieces[i].sample_into(source, &mut text);
            proof {
                cuts = cuts.push(text@.len() as int);
                let upto = self@.subrange(0, i + 1);
                assert(upto.drop_last() =~= self@.subrange(0, i as int));
                assert(upto.last() == self@[i as int]);
                lemma_advanced_add(
                    *old(source),
                    pieces_draws(upto.drop_last(), *old(source)),
                    upto.last().draws(old(source).advanced(pieces_draws(upto.drop_last(), *old(source)))),
                );
                assert(text@ =~= before + text@.subrange(before.len() as int, text@.len() as int));
                assert forall|j: int| 0 <= j < upto.len() implies #[trigger] part_ok(
                    upto,
                    text@,
                    cuts,
                    j,
                ) by {
                    if j < i {
                        assert(part_ok(self@.subrange(0, i as int), before, earlier, j));
                        assert(text@.subrange(cuts[j], cuts[j + 1]) =~= before.subrange(
                            earlier[j],
                            earlier[j + 1],
                        ));
                    }
                }
            }
            i = i + 1;
        }
        assert(self@.subrange(0, i as int) =~= self@);
        text
    }
}

} // verus!
