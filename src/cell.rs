use vstd::prelude::*;

verus! {

/// The state of one cell, as plain values.
pub struct CellView {
    pub value: int,
    pub open: bool,
    pub mine: bool,
    pub flagged: bool,
    pub selected: bool,
}

/// The colours a renderer uses for a cell's text and border.
#[derive(Clone, Copy, Debug, PartialEq, Eq, Structural)]
pub enum CellColor {
    Red,
    Cyan,
    Gray,
    Blue,
    Yellow,
    LightRed,
    DarkGray,
    Magenta,
    Black,
    White,
}

/// One square of the grid: its adjacency count and whether it is open,
/// a mine, flagged, or under the cursor.
#[derive(Clone, Copy, Debug)]
pub struct Cell {
    value: i16,
    is_open: bool,
    is_bomb: bool,
    is_flagged: bool,
    is_selected: bool,
}

impl View for Cell {
    type V = CellView;

    closed spec fn view(&self) -> CellView {
        CellView {
            value: self.value as int,
            open: self.is_open,
            mine: self.is_bomb,
            flagged: self.is_flagged,
            selected: self.is_selected,
        }
    }
}

/// A hidden, unflagged, unselected cell that is no mine and counts no mines.
pub open spec fn fresh_cell() -> CellView {
    CellView { value: 0, open: false, mine: false, flagged: false, selected: false }
}

/// The character of one decimal digit.
pub open spec fn digit_char(d: int) -> char {
    if d == 0 {
        '0'
    } else if d == 1 {
        '1'
    } else if d == 2 {
        '2'
    } else if d == 3 {
        '3'
    } else if d == 4 {
        '4'
    } else if d == 5 {
        '5'
    } else if d == 6 {
        '6'
    } else if d == 7 {
        '7'
    } else if d == 8 {
        '8'
    } else {
        '9'
    }
}

/// The decimal digits of a natural number, most significant first.
pub open spec fn digits_of(n: nat) -> Seq<char>
    decreases n,
{
    if n < 10 {
        seq![digit_char(n as int)]
    } else {
        digits_of(n / 10) + seq![digit_char((n % 10) as int)]
    }
}

/// An integer written in decimal, with a leading '-' when negative.
pub open spec fn decimal_of(n: int) -> Seq<char> {
    if n < 0 {
        seq!['-'] + digits_of((-n) as nat)
    } else {
        digits_of(n as nat)
    }
}

/// The text shown on a cell: "F" when flagged, "B" on a mine, else its count.
pub open spec fn cell_text(c: CellView) -> Seq<char> {
    if c.flagged {
        seq!['F']
    } else if c.mine {
        seq!['B']
    } else {
        decimal_of(c.value)
    }
}

/// The colour of a cell's text: red for a flag or a mine, else by its count.
pub open spec fn text_color_of(c: CellView) -> CellColor {
    if c.flagged || c.mine {
        CellColor::Red
    } else if c.value == 1 {
        CellColor::Blue
    } else if c.value == 2 {
        CellColor::Yellow
    } else if c.value == 3 {
        CellColor::LightRed
    } else if c.value == 4 {
        CellColor::DarkGray
    } else if c.value == 5 {
        CellColor::Red
    } else if c.value == 6 || c.value == 7 {
        CellColor::Magenta
    } else if c.value == 8 {
        CellColor::Black
    } else {
        CellColor::White
    }
}

/// The colour of a cell's border: mines show red in debug mode, the cursor
/// cyan, hidden cells gray, and open cells take their text colour.
pub open spec fn border_color_of(c: CellView, debug: bool) -> CellColor {
    if c.mine && debug {
        CellColor::Red
    } else if c.selected {
        CellColor::Cyan
    } else if !c.open {
        CellColor::Gray
    } else {
        text_color_of(c)
    }
}

/// Relies on i16's `to_string` (its `Display`): the number in decimal.
#[verifier::external_body]
fn decimal_text(v: i16) -> (r: String)
    ensures
        r@ == decimal_of(v as int),
{
    v.to_string()
}

impl Cell {
    pub fn new() -> (r: Cell)
        ensures
            r@ == fresh_cell(),
    {
        Cell { value: 0, is_open: false, is_bomb: false, is_flagged: false, is_selected: false }
    }

    pub fn is_bomb(&self) -> (r: bool)
        ensures
            r == self@.mine,
    {
        self.is_bomb
    }

    pub fn set_is_bomb(&mut self, is_bomb: bool)
        ensures
            final(self)@ == (CellView { mine: is_bomb, ..old(self)@ }),
    {
        self.is_bomb = is_bomb;
    }

    pub fn is_flagged(&self) -> (r: bool)
        ensures
            r == self@.flagged,
    {
        self.is_flagged
    }

    /// Flips the flag of a hidden cell; an open cell cannot be flagged.
    pub fn toggle_is_flagged(&mut self)
        ensures
            final(self)@ == (if old(self)@.open {
                old(self)@
            } else {
                CellView { flagged: !old(self)@.flagged, ..old(self)@ }
            }),
    {
        if self.is_open {
            return ;
        }
        self.is_flagged = !self.is_flagged;
    }

    pub fn set_is_selected(&mut self, is_selected: bool)
        ensures
            final(self)@ == (CellView { selected: is_selected, ..old(self)@ }),
    {
        self.is_selected = is_selected;
    }

    pub fn is_selected(&self) -> (r: bool)
        ensures
            r == self@.selected,
    {
        self.is_selected
    }

    /// Opens the cell, which also clears its flag.
    pub fn open(&mut self)
        ensures
            final(self)@ == (CellView { open: true, flagged: false, ..old(self)@ }),
    {
        self.is_open = true;
        self.is_flagged = false;
    }

    pub fn increment_value(&mut self)
        requires
            old(self)@.value < i16::MAX,
        ensures
            final(self)@ == (CellView { value: old(self)@.value + 1, ..old(self)@ }),
    {
        self.value = self.value + 1;
    }

    pub fn get_value(&self) -> (r: i16)
        ensures
            r as int == self@.value,
    {
        self.value
    }

    pub fn is_open(&self) -> (r: bool)
        ensures
            r == self@.open,
    {
        self.is_open
    }

    pub fn get_cell_text(&self) -> (r: String)
        ensures
            r@ == cell_text(self@),
    {
        if self.is_flagged {
            proof {
                reveal_strlit("F");
            }
            return "F".to_string();
        } else if self.is_bomb {
            proof {
                reveal_strlit("B");
            }
            return "B".to_string();
        }
        decimal_text(self.value)
    }

    pub fn get_text_color(&self) -> (r: CellColor)
        ensures
            r == text_color_of(self@),
    {
        if self.is_flagged || self.is_bomb {
            return CellColor::Red;
        }
        match self.value {
            1 => CellColor::Blue,
            2 => CellColor::Yellow,
            3 => CellColor::LightRed,
            4 => CellColor::DarkGray,
            5 => CellColor::Red,
            6 | 7 => CellColor::Magenta,
            8 => CellColor::Black,
            _ => CellColor::White,
        }
    }

    pub fn get_border_color(&self, debug: bool) -> (r: CellColor)
        ensures
            r == border_color_of(self@, debug),
    {
        if self.is_bomb && debug {
            CellColor::Red
        } else if self.is_selected {
            CellColor::Cyan
        } else if !self.is_open {
            CellColor::Gray
        } else {
            self.get_text_color()
        }
    }
}

} // verus!
