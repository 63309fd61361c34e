//! Numbers as text, for messages.
//!
//! [`Pieces`] is a line as fixed texts and the numbers between them: it takes no memory, so that
//! handlers of interrupts and exceptions can report.

use vstd::prelude::*;
use vstd::slice::*;
use vstd::string::*;

verus! {

/// The character of one digit; digits above nine are upper-case letters.
pub open spec fn digit(value: nat) -> char {
    if value < 10 {
        ('0' as int + value) as char
    } else {
        ('A' as int + value - 10) as char
    }
}

/// `value` in base ten, without leading zeros.
pub open spec fn decimal(value: nat) -> Seq<char>
    decreases value,
{
    if value < 10 {
        seq![digit(value)]
    } else {
        decimal(value / 10).push(digit(value % 10))
    }
}

/// `value` in base sixteen, upper case, without leading zeros.
pub open spec fn hex(value: nat) -> Seq<char>
    decreases value,
{
    if value < 16 {
        seq![digit(value)]
    } else {
        hex(value / 16).push(digit(value % 16))
    }
}

/// `value` in base sixteen, upper case, with leading zeros up to `width` digits.
pub open spec fn hex_padded(value: nat, width: nat) -> Seq<char>
    decreases width,
{
    if width == 0 {
        Seq::empty()
    } else {
        hex_padded(value / 16, (width - 1) as nat).push(digit(value % 16))
    }
}

/// One digit as text.
fn digit_text(value: u64) -> (text: &'static str)
    requires
        value < 16,
    ensures
        text@ == seq![digit(value as nat)],
{
    proof {
        reveal_strlit("0");
        reveal_strlit("1");
        reveal_strlit("2");
        reveal_strlit("3");
        reveal_strlit("4");
        reveal_strlit("5");
        reveal_strlit("6");
        reveal_strlit("7");
        reveal_strlit("8");
        reveal_strlit("9");
        reveal_strlit("A");
        reveal_strlit("B");
        reveal_strlit("C");
        reveal_strlit("D");
        reveal_strlit("E");
        reveal_strlit("F");
    }
    match value {
        0 => "0",
        1 => "1",
        2 => "2",
        3 => "3",
        4 => "4",
        5 => "5",
        6 => "6",
        7 => "7",
        8 => "8",
        9 => "9",
        10 => "A",
        11 => "B",
        12 => "C",
        13 => "D",
        14 => "E",
        _ => "F",
    }
}

/// Appends `value` in base ten.
pub fn push_decimal(out: &mut String, value: u64)
    ensures
        final(out)@ == old(out)@ + decimal(value as nat),
    decreases value,
{
    if value >= 10 {
        push_decimal(out, value / 10);
    }
    out.append(digit_text(value % 10));
}

/// Appends `value` in base sixteen, upper case.
pub fn push_hex(out: &mut String, value: u64)
    ensures
        final(out)@ == old(out)@ + hex(value as nat),
    decreases value,
{
    if value >= 16 {
        push_hex(out, value / 16);
    }
    out.append(digit_text(value % 16));
}

/// Appends the last `width` digits of `value` in base sixteen, upper case.
pub fn push_hex_padded(out: &mut String, value: u64, width: u64)
    ensures
        final(out)@ == old(out)@ + hex_padded(value as nat, width as nat),
    decreases width,
{
    if width > 0 {
        push_hex_padded(out, value / 16, width - 1);
        out.append(digit_text(value % 16));
    }
}

/// How many pieces a line can have.
pub const MAX_PIECES: usize = 12;

/// How many pieces a message can have that is to be logged: a log line adds three.
pub const MESSAGE_PIECES: usize = 9;

/// One piece of a line.
#[derive(Clone, Copy, Debug)]
pub enum Piece {
    /// A fixed text.
    Text(&'static str),
    /// A number in base ten.
    Decimal(u64),
    /// A number in base sixteen, upper case.
    Hex(u64),
    /// The last digits of a number in base sixteen, upper case: the number, and how many digits.
    HexPadded(u64, u64),
}

impl Piece {
    /// The text of this piece.
    pub open spec fn rendered(self) -> Seq<char> {
        match self {
            Piece::Text(text) => text@,
            Piece::Decimal(value) => decimal(value as nat),
            Piece::Hex(value) => hex(value as nat),
            Piece::HexPadded(value, width) => hex_padded(value as nat, width as nat),
        }
    }

    /// Appends the text of this piece.
    fn push_to(&self, out: &mut String)
        ensures
            final(out)@ == old(out)@ + self.rendered(),
    {
        match *self {
            Piece::Text(text) => out.append(text),
            Piece::Decimal(value) => push_decimal(out, value),
            Piece::Hex(value) => push_hex(out, value),
            Piece::HexPadded(value, width) => push_hex_padded(out, value, width),
        }
    }
}

/// The text of some pieces, one behind the other.
pub open spec fn rendered(pieces: Seq<Piece>) -> Seq<char>
    decreases pieces.len(),
{
    if pieces.len() == 0 {
        Seq::empty()
    } else {
        rendered(pieces.drop_last()) + pieces.last().rendered()
    }
}

/// A line in pieces.
#[derive(Clone, Copy, Debug)]
pub struct Pieces {
    /// The pieces; those from `len` on do not count.
    pub items: [Piece; MAX_PIECES],
    /// Number of pieces.
    pub len: usize,
}

impl View for Pieces {
    type V = Seq<char>;

    /// The text of the line.
    open spec fn view(&self) -> Seq<char> {
        rendered(self.items@.take(self.len as int))
    }
}

impl Pieces {
    /// Whether the number of pieces is in range.
    pub open spec fn well_formed(&self) -> bool {
        self.len <= MAX_PIECES
    }

    /// An empty line.
    #[must_use]
    pub fn new() -> (line: Self)
        ensures
            line.len == 0,
            line@ == Seq::<char>::empty(),
    {
        Self { items: [Piece::Decimal(0); MAX_PIECES], len: 0 }
    }

    /// Appends a piece.
    pub fn push(&mut self, piece: Piece)
        requires
            old(self).len < MAX_PIECES,
        ensures
            final(self).len == old(self).len + 1,
            final(self)@ == old(self)@ + piece.rendered(),
    {
        self.items[self.len] = piece;
        self.len = self.len + 1;
        proof {
            let now = self.items@.take(self.len as int);
            assert(now.drop_last() =~= old(self).items@.take(old(self).len as int));
            assert(now.last() == piece);
        }
    }

    /// Appends a fixed text.
    pub fn text(&mut self, text: &'static str)
        requires
            old(self).len < MAX_PIECES,
        ensures
            final(self).len == old(self).len + 1,
            final(self)@ == old(self)@ + text@,
    {
        self.push(Piece::Text(text));
    }

    /// Appends a number in base ten.
    pub fn decimal(&mut self, value: u64)
        requires
            old(self).len < MAX_PIECES,
        ensures
            final(self).len == old(self).len + 1,
            final(self)@ == old(self)@ + decimal(value as nat),
    {
        self.push(Piece::Decimal(value));
    }

    /// Appends a number in base sixteen.
    pub fn hex(&mut self, value: u64)
        requires
            old(self).len < MAX_PIECES,
        ensures
            final(self).len == old(self).len + 1,
            final(self)@ == old(self)@ + hex(value as nat),
    {
        self.push(Piece::Hex(value));
    }

    /// Appends the last `width` digits of a number in base sixteen.
    pub fn hex_padded(&mut self, value: u64, width: u64)
        requires
            old(self).len < MAX_PIECES,
        ensures
            final(self).len == old(self).len + 1,
            final(self)@ == old(self)@ + hex_padded(value as nat, width as nat),
    {
        self.push(Piece::HexPadded(value, width));
    }

    /// Appends another line.
    pub fn append(&mut self, other: &Pieces)
        requires
            old(self).len + other.len <= MAX_PIECES,
        ensures
            final(self).len == old(self).len + other.len,
            final(self)@ == old(self)@ + other@,
    {
        let mut i: usize = 0;
        assert(other.items@.take(0) =~= Seq::<Piece>::empty());
        assert(self@ =~= old(self)@ + rendered(other.items@.take(0)));
        while i < other.len
            invariant
                i <= other.len,
                old(self).len + other.len <= MAX_PIECES,
                self.len == old(self).len + i,
                self@ == old(self)@ + rendered(other.items@.take(i as int)),
            decreases other.len - i,
        {
            let piece = other.items[i];
            self.push(piece);
            i = i + 1;
            proof {
                let now = other.items@.take(i as int);
                assert(now.drop_last() =~= other.items@.take(i - 1));
                assert(now.last() == piece);
                assert(self@ =~= old(self)@ + rendered(now));
            }
        }
    }

    /// The pieces, in order.
    #[must_use]
    pub fn as_slice(&self) -> (pieces: &[Piece])
        requires
            self.well_formed(),
        ensures
            rendered(pieces@) == self@,
    {
        let pieces = slice_subrange(vstd::array::array_as_slice(&self.items), 0, self.len);
        assert(pieces@ =~= self.items@.take(self.len as int));
        pieces
    }

    /// The text of the line.
    #[must_use]
    pub fn to_string(&self) -> (text: String)
        requires
            self.well_formed(),
        ensures
            text@ == self@,
    {
        let mut text = String::new();
        let mut i: usize = 0;
        assert(self.items@.take(0) =~= Seq::<Piece>::empty());
        assert(text@ =~= rendered(self.items@.take(0)));
        while i < self.len
            invariant
                i <= self.len <= MAX_PIECES,
                text@ == rendered(self.items@.take(i as int)),
            decreases self.len - i,
        {
            let piece = self.items[i];
            piece.push_to(&mut text);
            i = i + 1;
            proof {
                let now = self.items@.take(i as int);
                assert(now.drop_last() =~= self.items@.take(i - 1));
                assert(now.last() == piece);
            }
        }
        text
    }
}

} // verus!
