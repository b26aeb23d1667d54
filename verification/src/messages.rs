use vstd::prelude::*;
use vstd::string::StringExecFns;

verus! {

/// A colour for the rendering layer; the game logic only stores it.
#[derive(Clone, Copy, Debug, PartialEq, Eq, Structural)]
pub struct Rgb {
    pub r: u8,
    pub g: u8,
    pub b: u8,
}

impl Rgb {
    pub fn new(r: u8, g: u8, b: u8) -> (c: Rgb)
        ensures
            c.r == r,
            c.g == g,
            c.b == b,
    {
        Rgb { r, g, b }
    }

    pub fn white() -> (c: Rgb)
        ensures
            c == (Rgb { r: 255, g: 255, b: 255 }),
    {
        Rgb { r: 255, g: 255, b: 255 }
    }

    pub fn red() -> (c: Rgb)
        ensures
            c == (Rgb { r: 255, g: 0, b: 0 }),
    {
        Rgb { r: 255, g: 0, b: 0 }
    }

    pub fn dark_red() -> (c: Rgb)
        ensures
            c == (Rgb { r: 191, g: 0, b: 0 }),
    {
        Rgb { r: 191, g: 0, b: 0 }
    }

    pub fn orange() -> (c: Rgb)
        ensures
            c == (Rgb { r: 255, g: 127, b: 0 }),
    {
        Rgb { r: 255, g: 127, b: 0 }
    }

    pub fn darker_orange() -> (c: Rgb)
        ensures
            c == (Rgb { r: 127, g: 63, b: 0 }),
    {
        Rgb { r: 127, g: 63, b: 0 }
    }

    pub fn green() -> (c: Rgb)
        ensures
            c == (Rgb { r: 0, g: 255, b: 0 }),
    {
        Rgb { r: 0, g: 255, b: 0 }
    }

    pub fn light_green() -> (c: Rgb)
        ensures
            c == (Rgb { r: 63, g: 255, b: 63 }),
    {
        Rgb { r: 63, g: 255, b: 63 }
    }

    pub fn dark_green() -> (c: Rgb)
        ensures
            c == (Rgb { r: 0, g: 127, b: 0 }),
    {
        Rgb { r: 0, g: 127, b: 0 }
    }

    pub fn yellow() -> (c: Rgb)
        ensures
            c == (Rgb { r: 255, g: 255, b: 0 }),
    {
        Rgb { r: 255, g: 255, b: 0 }
    }

    pub fn light_yellow() -> (c: Rgb)
        ensures
            c == (Rgb { r: 255, g: 255, b: 115 }),
    {
        Rgb { r: 255, g: 255, b: 115 }
    }

    pub fn violet() -> (c: Rgb)
        ensures
            c == (Rgb { r: 127, g: 0, b: 255 }),
    {
        Rgb { r: 127, g: 0, b: 255 }
    }

    pub fn light_violet() -> (c: Rgb)
        ensures
            c == (Rgb { r: 184, g: 114, b: 255 }),
    {
        Rgb { r: 184, g: 114, b: 255 }
    }

    pub fn light_blue() -> (c: Rgb)
        ensures
            c == (Rgb { r: 63, g: 63, b: 255 }),
    {
        Rgb { r: 63, g: 63, b: 255 }
    }

    pub fn light_cyan() -> (c: Rgb)
        ensures
            c == (Rgb { r: 115, g: 255, b: 255 }),
    {
        Rgb { r: 115, g: 255, b: 255 }
    }

    pub fn sky() -> (c: Rgb)
        ensures
            c == (Rgb { r: 0, g: 191, b: 255 }),
    {
        Rgb { r: 0, g: 191, b: 255 }
    }
}

/// One log entry: the text shown to the player and its colour.
pub struct Message {
    pub text: String,
    pub color: Rgb,
}

/// The append-only message log.  Entries are only ever pushed; the
/// renderer decides how many of the most recent ones to show.
pub struct Messages {
    pub entries: Vec<Message>,
}

impl Messages {
    /// The log never rewrites history: the old entries stay a prefix.
    pub open spec fn extends(self, older: Messages) -> bool {
        older.entries@.is_prefix_of(self.entries@)
    }

    pub fn new() -> (m: Messages)
        ensures
            m.entries@.len() == 0,
    {
        Messages { entries: Vec::new() }
    }

    pub fn add(&mut self, text: String, color: Rgb)
        ensures
            final(self).entries@.len() == old(self).entries@.len() + 1,
            final(self).entries@.last().text == text,
            final(self).entries@.last().color == color,
            final(self).extends(*old(self)),
    {
        self.entries.push(Message { text, color });
        proof {
            assert(old(self).entries@.is_prefix_of(self.entries@));
        }
    }

    /// Growing the log twice still only grows it.
    pub proof fn lemma_extends_trans(newest: Messages, mid: Messages, oldest: Messages)
        requires
            newest.extends(mid),
            mid.extends(oldest),
        ensures
            newest.extends(oldest),
    {
        assert(oldest.entries@ =~= newest.entries@.subrange(0, oldest.entries@.len() as int));
    }

    pub fn len(&self) -> (n: usize)
        ensures
            n == self.entries@.len(),
    {
        self.entries.len()
    }
}

pub open spec fn spec_digit_char(d: int) -> char {
    if d == 0 {
        '0'
    } else if d == 1 {
        '1'
    } else if d == 2 {
        '2'
    } else if d == 3 {
        '3'
    } else if d == 4 {
        '4'
    } else if d == 5 {
        '5'
    } else if d == 6 {
        '6'
    } else if d == 7 {
        '7'
    } else if d == 8 {
        '8'
    } else {
        '9'
    }
}

/// The usual decimal rendering of a non-negative number.
pub open spec fn spec_decimal(n: int) -> Seq<char>
    decreases n,
{
    if n < 10 {
        seq![spec_digit_char(n)]
    } else {
        spec_decimal(n / 10).push(spec_digit_char(n % 10))
    }
}

fn digit_str(d: u32) -> (r: &'static str)
    requires
        d < 10,
    ensures
        r@ == seq![spec_digit_char(d as int)],
{
    proof {
        reveal_strlit("0");
        reveal_strlit("1");
        reveal_strlit("2");
        reveal_strlit("3");
        reveal_strlit("4");
        reveal_strlit("5");
        reveal_strlit("6");
        reveal_strlit("7");
        reveal_strlit("8");
        reveal_strlit("9");
    }
    if d == 0 {
        "0"
    } else if d == 1 {
        "1"
    } else if d == 2 {
        "2"
    } else if d == 3 {
        "3"
    } else if d == 4 {
        "4"
    } else if d == 5 {
        "5"
    } else if d == 6 {
        "6"
    } else if d == 7 {
        "7"
    } else if d == 8 {
        "8"
    } else {
        "9"
    }
}

/// Render a number in decimal, for interpolation into log messages.
pub fn u32_to_string(n: u32) -> (s: String)
    ensures
        s@ == spec_decimal(n as int),
    decreases n,
{
    let d: u32 = n % 10;
    if n < 10 {
        String::from_str(digit_str(d))
    } else {
        let prefix = u32_to_string(n / 10);
        let s = prefix.concat(digit_str(d));
        proof {
            assert(s@ =~= spec_decimal(n as int / 10).push(spec_digit_char(n as int % 10)));
        }
        s
    }
}

/// Render a non-negative `i32` in decimal.
pub fn i32_to_string(n: i32) -> (s: String)
    requires
        n >= 0,
    ensures
        s@ == spec_decimal(n as int),
{
    u32_to_string(n as u32)
}

} // verus!
