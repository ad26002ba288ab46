//! ANSI foreground colours and text wrapped in their escape sequences.

use crate::text::str_eq;
use vstd::prelude::*;
use vstd::std_specs::convert::FromSpecImpl;
use vstd::std_specs::convert::IntoSpec;
use vstd::string::StringExecFns;

verus! {

/// A terminal foreground colour.
#[derive(Debug, Clone, Copy, PartialEq, Eq, Structural)]
pub enum Color {
    Red,
    Green,
    Yellow,
    Blue,
    Magenta,
    Cyan,
    White,
    Default,
}

impl Color {
    /// The SGR parameter of the colour, as the two decimal digits that
    /// stand in the escape sequence.
    pub open spec fn code(self) -> Seq<char> {
        match self {
            Color::Red => seq!['3', '1'],
            Color::Green => seq!['3', '2'],
            Color::Yellow => seq!['3', '3'],
            Color::Blue => seq!['3', '4'],
            Color::Magenta => seq!['3', '5'],
            Color::Cyan => seq!['3', '6'],
            Color::White => seq!['3', '7'],
            Color::Default => seq!['3', '9'],
        }
    }

    /// The colour that a name stands for. The seven colour names are
    /// recognised in lower case only; every other text, the empty one
    /// included, stands for the terminal's default colour.
    pub open spec fn named(name: Seq<char>) -> Color {
        if name == seq!['r', 'e', 'd'] {
            Color::Red
        } else if name == seq!['g', 'r', 'e', 'e', 'n'] {
            Color::Green
        } else if name == seq!['y', 'e', 'l', 'l', 'o', 'w'] {
            Color::Yellow
        } else if name == seq!['b', 'l', 'u', 'e'] {
            Color::Blue
        } else if name == seq!['m', 'a', 'g', 'e', 'n', 't', 'a'] {
            Color::Magenta
        } else if name == seq!['c', 'y', 'a', 'n'] {
            Color::Cyan
        } else if name == seq!['w', 'h', 'i', 't', 'e'] {
            Color::White
        } else {
            Color::Default
        }
    }

    /// The SGR parameter of the colour.
    pub fn to_ansi_code(&self) -> (code: &'static str)
        ensures
            code@ == self.code(),
    {
        proof {
            reveal_strlit("31");
            reveal_strlit("32");
            reveal_strlit("33");
            reveal_strlit("34");
            reveal_strlit("35");
            reveal_strlit("36");
            reveal_strlit("37");
            reveal_strlit("39");
        }
        let code = match *self {
            Color::Red => "31",
            Color::Green => "32",
            Color::Yellow => "33",
            Color::Blue => "34",
            Color::Magenta => "35",
            Color::Cyan => "36",
            Color::White => "37",
            Color::Default => "39",
        };
        assert(code@ =~= self.code());
        code
    }
}

/// The views of the seven colour names, spelled out.
proof fn lemma_color_names()
    ensures
        "red"@ == seq!['r', 'e', 'd'],
        "green"@ == seq!['g', 'r', 'e', 'e', 'n'],
        "yellow"@ == seq!['y', 'e', 'l', 'l', 'o', 'w'],
        "blue"@ == seq!['b', 'l', 'u', 'e'],
        "magenta"@ == seq!['m', 'a', 'g', 'e', 'n', 't', 'a'],
        "cyan"@ == seq!['c', 'y', 'a', 'n'],
        "white"@ == seq!['w', 'h', 'i', 't', 'e'],
{
    reveal_strlit("red");
    reveal_strlit("green");
    reveal_strlit("yellow");
    reveal_strlit("blue");
    reveal_strlit("magenta");
    reveal_strlit("cyan");
    reveal_strlit("white");
    assert("red"@ =~= seq!['r', 'e', 'd']);
    assert("green"@ =~= seq!['g', 'r', 'e', 'e', 'n']);
    assert("yellow"@ =~= seq!['y', 'e', 'l', 'l', 'o', 'w']);
    assert("blue"@ =~= seq!['b', 'l', 'u', 'e']);
    assert("magenta"@ =~= seq!['m', 'a', 'g', 'e', 'n', 't', 'a']);
    assert("cyan"@ =~= seq!['c', 'y', 'a', 'n']);
    assert("white"@ =~= seq!['w', 'h', 'i', 't', 'e']);
}

impl std::str::FromStr for Color {
    type Err = ();

    /// Reads a colour name. Never fails: a name that is not recognised
    /// gives the default colour.
    fn from_str(s: &str) -> (parsed: Result<Color, ()>)
        ensures
            parsed == Ok::<Color, ()>(Color::named(s@)),
    {
        proof {
            lemma_color_names();
        }
        if str_eq(s, "red") {
            Ok(Color::Red)
        } else if str_eq(s, "green") {
            Ok(Color::Green)
        } else if str_eq(s, "yellow") {
            Ok(Color::Yellow)
        } else if str_eq(s, "blue") {
            Ok(Color::Blue)
        } else if str_eq(s, "magenta") {
            Ok(Color::Magenta)
        } else if str_eq(s, "cyan") {
            Ok(Color::Cyan)
        } else if str_eq(s, "white") {
            Ok(Color::White)
        } else {
            Ok(Color::Default)
        }
    }
}

impl<'a> From<&'a str> for Color {
    /// The colour that the name stands for.
    fn from(s: &'a str) -> (color: Color) {
        match <Color as std::str::FromStr>::from_str(s) {
            Ok(color) => color,
            Err(_) => Color::Green,
        }
    }
}

impl<'a> FromSpecImpl<&'a str> for Color {
    open spec fn obeys_from_spec() -> bool {
        true
    }

    open spec fn from_spec(s: &'a str) -> Color {
        Color::named(s@)
    }
}

impl Default for Color {
    /// The terminal's default colour.
    fn default() -> (color: Color)
        ensures
            color == Color::Default,
    {
        Color::Default
    }
}

/// `text` between the escape sequence that switches to `color` and the
/// one that resets all attributes.
pub open spec fn colored(text: Seq<char>, color: Color) -> Seq<char> {
    seq!['\x1b', '['] + color.code() + seq!['m'] + text + seq!['\x1b', '[', '0', 'm']
}

/// Wraps `text` in the escape sequences that show it in `color`.
pub fn colorize(text: &str, color: Color) -> (out: String)
    ensures
        out@ == colored(text@, color),
{
    proof {
        reveal_strlit("\x1b[");
        reveal_strlit("m");
        reveal_strlit("\x1b[0m");
    }
    let mut out = String::new();
    out.append("\x1b[");
    out.append(color.to_ansi_code());
    out.append("m");
    out.append(text);
    out.append("\x1b[0m");
    assert(out@ =~= colored(text@, color));
    out
}

/// Wraps `text` in the escape sequences of the colour that `color`
/// converts to: a `Color` itself, or a colour name.
pub fn text_colored<T: Into<Color>>(text: &str, color: T) -> (out: String)
    ensures
        exists|c: Color| call_ensures(<T as Into<Color>>::into, (color,), c) && out@ == colored(text@, c),
        T::obeys_into_spec() ==> out@ == colored(text@, color.into_spec()),
{
    let color: Color = color.into();
    colorize(text, color)
}

/// A name that is none of the seven colour names does not fail: it
/// stands for the default colour, whose parameter is 39, and text is
/// wrapped for it as for any other such name.
pub proof fn lemma_unknown_name_is_default(text: Seq<char>, name: Seq<char>)
    requires
        name != seq!['r', 'e', 'd'],
        name != seq!['g', 'r', 'e', 'e', 'n'],
        name != seq!['y', 'e', 'l', 'l', 'o', 'w'],
        name != seq!['b', 'l', 'u', 'e'],
        name != seq!['m', 'a', 'g', 'e', 'n', 't', 'a'],
        name != seq!['c', 'y', 'a', 'n'],
        name != seq!['w', 'h', 'i', 't', 'e'],
    ensures
        Color::named(name) == Color::Default,
        Color::named(name).code() == seq!['3', '9'],
        colored(text, Color::named(name)) == colored(text, Color::Default),
{
}

} // verus!
