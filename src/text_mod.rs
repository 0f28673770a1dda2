//! Terminal colour escapes for log messages.
use vstd::prelude::*;

verus! {

/// An ANSI text modifier.
pub enum TextMod {
    Reset,
    Green,
    Yellow,
    Blue,
    Magenta,
}

impl TextMod {
    /// The escape sequence that switches to this modifier.
    pub open spec fn escape(&self) -> Seq<char> {
        match self {
            TextMod::Reset => "\x1b[0m"@,
            TextMod::Green => "\x1b[32m"@,
            TextMod::Yellow => "\x1b[33m"@,
            TextMod::Blue => "\x1b[34m"@,
            TextMod::Magenta => "\x1b[35m"@,
        }
    }

    /// The escape sequence of this modifier, as a string.
    pub fn code(&self) -> (r: &'static str)
        ensures
            r@ == self.escape(),
    {
        match self {
            TextMod::Reset => "\x1b[0m",
            TextMod::Green => "\x1b[32m",
            TextMod::Yellow => "\x1b[33m",
            TextMod::Blue => "\x1b[34m",
            TextMod::Magenta => "\x1b[35m",
        }
    }

    /// `text` wrapped between this modifier and a reset.
    pub fn apply(&self, text: &str) -> (r: String)
        ensures
            r@ == self.escape() + text@ + TextMod::Reset.escape(),
    {
        let s = String::from_str(self.code());
        let s = s.concat(text);
        s.concat(TextMod::Reset.code())
    }
}

} // verus!
