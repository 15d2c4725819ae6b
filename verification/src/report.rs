//! What the client prints, as data: lines made of pieces.
//!
//! The wording and the order of everything printed is decided here; how an amount,
//! a rate or a number is turned into characters is left to whoever prints the piece.

use vstd::prelude::*;

verus! {

/// A decimal number: `mantissa` divided by ten to the power `scale`.
#[derive(Clone, Copy, Debug, PartialEq, Eq, Structural)]
pub struct Rate {
    pub mantissa: i128,
    pub scale: u32,
}

/// Where a line is printed.
#[derive(Clone, Copy, Debug, PartialEq, Eq, Structural)]
pub enum Channel {
    Out,
    Error,
}

/// One printed value.
#[derive(Clone, Debug, PartialEq, Eq)]
pub enum Piece {
    /// Literal text, or the text form of an address, a key or a server's reply.
    Text(String),
    /// An unsigned number: an epoch, a height, a proposal's identifier.
    Number(u64),
    /// A signed number.
    Integer(i64),
    /// A token amount, in millionths of a token.
    Amount(u64),
    /// A decimal number.
    Rate(Rate),
    /// A voting power.
    Power(u128),
    /// A list of names.
    List(Vec<String>),
}

/// The mathematical content of a [`Piece`].
pub enum PieceView {
    Text(Seq<char>),
    Number(u64),
    Integer(i64),
    Amount(u64),
    Rate(Rate),
    Power(u128),
    List(Seq<Seq<char>>),
}

/// The texts held by a list of strings.
pub open spec fn texts(list: Seq<String>) -> Seq<Seq<char>> {
    list.map_values(|s: String| s@)
}

impl View for Piece {
    type V = PieceView;

    open spec fn view(&self) -> PieceView {
        match self {
            Piece::Text(s) => PieceView::Text(s@),
            Piece::Number(n) => PieceView::Number(*n),
            Piece::Integer(n) => PieceView::Integer(*n),
            Piece::Amount(n) => PieceView::Amount(*n),
            Piece::Rate(r) => PieceView::Rate(*r),
            Piece::Power(n) => PieceView::Power(*n),
            Piece::List(l) => PieceView::List(texts(l@)),
        }
    }
}

/// A printed line.
#[derive(Clone, Debug, PartialEq, Eq)]
pub struct Line {
    pub channel: Channel,
    pub pieces: Vec<Piece>,
}

/// The mathematical content of a [`Line`].
#[verifier::ext_equal]
pub struct LineView {
    pub channel: Channel,
    pub pieces: Seq<PieceView>,
}

impl View for Line {
    type V = LineView;

    open spec fn view(&self) -> LineView {
        LineView {
            channel: self.channel,
            pieces: self.pieces@.map_values(|p: Piece| p@),
        }
    }
}

/// An empty line on the standard output.
pub open spec fn out() -> LineView {
    LineView { channel: Channel::Out, pieces: Seq::empty() }
}

/// An empty line on the error output.
pub open spec fn error() -> LineView {
    LineView { channel: Channel::Error, pieces: Seq::empty() }
}

impl LineView {
    /// The line with one more piece.
    pub open spec fn piece(self, piece: PieceView) -> LineView {
        LineView { channel: self.channel, pieces: self.pieces.push(piece) }
    }

    /// The line with text added.
    pub open spec fn text(self, s: Seq<char>) -> LineView {
        self.piece(PieceView::Text(s))
    }

    /// The line with a number added.
    pub open spec fn number(self, n: u64) -> LineView {
        self.piece(PieceView::Number(n))
    }

    /// The line with a signed number added.
    pub open spec fn integer(self, n: i64) -> LineView {
        self.piece(PieceView::Integer(n))
    }

    /// The line with a token amount added.
    pub open spec fn amount(self, n: u64) -> LineView {
        self.piece(PieceView::Amount(n))
    }

    /// The line with a decimal number added.
    pub open spec fn rate(self, r: Rate) -> LineView {
        self.piece(PieceView::Rate(r))
    }

    /// The line with a voting power added.
    pub open spec fn power(self, n: u128) -> LineView {
        self.piece(PieceView::Power(n))
    }

    /// The line with a list of names added.
    pub open spec fn list(self, names: Seq<Seq<char>>) -> LineView {
        self.piece(PieceView::List(names))
    }
}

impl Line {
    /// An empty line for the standard output.
    pub fn out() -> (line: Line)
        ensures
            line@ == out(),
    {
        let line = Line { channel: Channel::Out, pieces: Vec::new() };
        assert(line@.pieces =~= out().pieces);
        line
    }

    /// An empty line for the error output.
    pub fn error() -> (line: Line)
        ensures
            line@ == error(),
    {
        let line = Line { channel: Channel::Error, pieces: Vec::new() };
        assert(line@.pieces =~= error().pieces);
        line
    }

    /// The line with one more piece.
    pub fn piece(self, piece: Piece) -> (line: Line)
        ensures
            line@ == self@.piece(piece@),
    {
        let mut line = self;
        line.pieces.push(piece);
        assert(line@.pieces =~= self@.pieces.push(piece@));
        line
    }

    /// The line with text added.
    pub fn text(self, s: &str) -> (line: Line)
        ensures
            line@ == self@.text(s@),
    {
        self.piece(Piece::Text(s.to_owned()))
    }

    /// The line with a number added.
    pub fn number(self, n: u64) -> (line: Line)
        ensures
            line@ == self@.number(n),
    {
        self.piece(Piece::Number(n))
    }

    /// The line with a signed number added.
    pub fn integer(self, n: i64) -> (line: Line)
        ensures
            line@ == self@.integer(n),
    {
        self.piece(Piece::Integer(n))
    }

    /// The line with a token amount added.
    pub fn amount(self, n: u64) -> (line: Line)
        ensures
            line@ == self@.amount(n),
    {
        self.piece(Piece::Amount(n))
    }

    /// The line with a decimal number added.
    pub fn rate(self, r: Rate) -> (line: Line)
        ensures
            line@ == self@.rate(r),
    {
        self.piece(Piece::Rate(r))
    }

    /// The line with a voting power added.
    pub fn power(self, n: u128) -> (line: Line)
        ensures
            line@ == self@.power(n),
    {
        self.piece(Piece::Power(n))
    }

    /// The line with a list of names added.
    pub fn list(self, names: &Vec<String>) -> (line: Line)
        ensures
            line@ == self@.list(texts(names@)),
    {
        let mut copy: Vec<String> = Vec::new();
        let mut i: usize = 0;
        while i < names.len()
            invariant
                i <= names.len(),
                copy@ == names@.take(i as int),
            decreases names.len() - i,
        {
            copy.push(names[i].clone());
            assert(copy@ =~= names@.take(i + 1));
            i = i + 1;
        }
        assert(copy@ =~= names@);
        self.piece(Piece::List(copy))
    }
}

/// A sequence of printed lines.
#[derive(Clone, Debug, PartialEq, Eq)]
pub struct Report {
    pub lines: Vec<Line>,
}

impl View for Report {
    type V = Seq<LineView>;

    open spec fn view(&self) -> Seq<LineView> {
        self.lines@.map_values(|l: Line| l@)
    }
}

impl Report {
    /// A report without lines.
    pub fn new() -> (report: Report)
        ensures
            report@ == Seq::<LineView>::empty(),
    {
        let report = Report { lines: Vec::new() };
        assert(report@ =~= Seq::<LineView>::empty());
        report
    }

    /// A report of one line.
    pub fn of(line: Line) -> (report: Report)
        ensures
            report@ == seq![line@],
    {
        let mut report = Report::new();
        report.push(line);
        report
    }

    /// Adds a line.
    pub fn push(&mut self, line: Line)
        ensures
            final(self)@ == old(self)@.push(line@),
    {
        self.lines.push(line);
        assert(self@ =~= old(self)@.push(line@));
    }

    /// Adds the lines of another report.
    pub fn append(&mut self, other: Report)
        ensures
            final(self)@ == old(self)@ + other@,
    {
        let mut other = other;
        let ghost added = other@;
        self.lines.append(&mut other.lines);
        assert(self@ =~= old(self)@ + added);
    }
}

/// The line of some pieces on the standard output.
pub open spec fn printed(pieces: Seq<PieceView>) -> LineView {
    LineView { channel: Channel::Out, pieces }
}

/// The line of some pieces on the error output.
pub open spec fn complained(pieces: Seq<PieceView>) -> LineView {
    LineView { channel: Channel::Error, pieces }
}

/// A line begins empty, and whatever is added to it comes behind what it has, as what it is;
/// the line stays where it is printed.
pub proof fn lemma_lines_grow(
    line: LineView,
    s: Seq<char>,
    n: u64,
    i: i64,
    r: Rate,
    p: u128,
    names: Seq<Seq<char>>,
)
    ensures
        out() == printed(Seq::empty()),
        error() == complained(Seq::empty()),
        line.text(s).pieces == line.pieces + seq![PieceView::Text(s)],
        line.number(n).pieces == line.pieces + seq![PieceView::Number(n)],
        line.integer(i).pieces == line.pieces + seq![PieceView::Integer(i)],
        line.amount(n).pieces == line.pieces + seq![PieceView::Amount(n)],
        line.rate(r).pieces == line.pieces + seq![PieceView::Rate(r)],
        line.power(p).pieces == line.pieces + seq![PieceView::Power(p)],
        line.list(names).pieces == line.pieces + seq![PieceView::List(names)],
        line.text(s).channel == line.channel,
        line.number(n).channel == line.channel,
        line.integer(i).channel == line.channel,
        line.amount(n).channel == line.channel,
        line.rate(r).channel == line.channel,
        line.power(p).channel == line.channel,
        line.list(names).channel == line.channel,
{
}

/// What a report is made of is in its content, line by line and piece by piece.
pub proof fn lemma_content_of_reports(report: Report, i: int, j: int)
    requires
        0 <= i < report.lines@.len(),
        0 <= j < report.lines@[i].pieces@.len(),
    ensures
        report@.len() == report.lines@.len(),
        report@[i].channel == report.lines@[i].channel,
        report@[i].pieces.len() == report.lines@[i].pieces@.len(),
        match (report.lines@[i].pieces@[j], report@[i].pieces[j]) {
            (Piece::Text(s), PieceView::Text(t)) => s@ == t,
            (Piece::Number(a), PieceView::Number(b)) => a == b,
            (Piece::Integer(a), PieceView::Integer(b)) => a == b,
            (Piece::Amount(a), PieceView::Amount(b)) => a == b,
            (Piece::Rate(a), PieceView::Rate(b)) => a == b,
            (Piece::Power(a), PieceView::Power(b)) => a == b,
            (Piece::List(a), PieceView::List(b)) => a@.len() == b.len() && forall|k: int|
                0 <= k < b.len() ==> (#[trigger] a@[k])@ == b[k],
            _ => false,
        },
{
}

} // verus!
