//! The state that every scanner of this crate threads through a text: which
//! kind of string literal the cursor is in, and whether the byte before it
//! was a backslash.
use vstd::prelude::*;

verus! {

/// `\`
pub const BACKSLASH: u8 = 0x5c;
/// `'`
pub const SINGLE_QUOTE: u8 = 0x27;
/// `"`
pub const DOUBLE_QUOTE: u8 = 0x22;
/// `` ` ``
pub const BACKTICK: u8 = 0x60;
/// `{`
pub const BRACE_OPEN: u8 = 0x7b;
/// `}`
pub const BRACE_CLOSE: u8 = 0x7d;
/// `(`
pub const PAREN_OPEN: u8 = 0x28;
/// `)`
pub const PAREN_CLOSE: u8 = 0x29;
/// `:`
pub const COLON: u8 = 0x3a;
/// `;`
pub const SEMICOLON: u8 = 0x3b;
/// Line feed.
pub const NEWLINE: u8 = 0x0a;

/// Which string literal, if any, the cursor is inside. A text is in at most
/// one of them at a time.
#[derive(Clone, Copy, Debug, PartialEq, Eq, Structural)]
pub enum Quote {
    /// Not inside a string literal.
    Outside,
    /// Inside `'...'`.
    Single,
    /// Inside `"..."`.
    Double,
    /// Inside `` `...` ``.
    Template,
}

/// Which dialect the scanner reads: a stylesheet has no template literals, a
/// script has them.
#[derive(Clone, Copy, Debug, PartialEq, Eq, Structural)]
pub enum Dialect {
    Stylesheet,
    Script,
}

/// The scanner's state before it reads a byte.
#[derive(Clone, Copy, Debug, PartialEq, Eq, Structural)]
pub struct ScanState {
    pub quote: Quote,
    /// The byte just read was an unescaped backslash, so the next byte is
    /// taken literally.
    pub escaped: bool,
}

impl Quote {
    /// The quote state after reading the unescaped byte `b`.
    pub open spec fn after(self, b: u8, dialect: Dialect) -> Quote {
        match self {
            Quote::Outside => if b == SINGLE_QUOTE {
                Quote::Single
            } else if b == DOUBLE_QUOTE {
                Quote::Double
            } else if b == BACKTICK && dialect == Dialect::Script {
                Quote::Template
            } else {
                Quote::Outside
            },
            Quote::Single => if b == SINGLE_QUOTE {
                Quote::Outside
            } else {
                Quote::Single
            },
            Quote::Double => if b == DOUBLE_QUOTE {
                Quote::Outside
            } else {
                Quote::Double
            },
            Quote::Template => if b == BACKTICK {
                Quote::Outside
            } else {
                Quote::Template
            },
        }
    }
}

impl ScanState {
    /// The state at the start of a text or of a region.
    pub open spec fn initial() -> ScanState {
        ScanState { quote: Quote::Outside, escaped: false }
    }

    /// Whether a byte read in this state is code: neither escaped nor part
    /// of a string literal. Only then do braces, parentheses and semicolons
    /// count.
    pub open spec fn in_code(self) -> bool {
        !self.escaped && self.quote == Quote::Outside
    }

    /// The state after reading `b`.
    pub open spec fn step(self, b: u8, dialect: Dialect) -> ScanState {
        if self.escaped {
            ScanState { quote: self.quote, escaped: false }
        } else if b == BACKSLASH {
            ScanState { quote: self.quote, escaped: true }
        } else {
            ScanState { quote: self.quote.after(b, dialect), escaped: false }
        }
    }

    /// The state after reading `bytes[from..to]` from the initial state.
    pub open spec fn after_range(bytes: Seq<u8>, from: int, to: int, dialect: Dialect) -> ScanState
        decreases to - from,
    {
        if to <= from || to > bytes.len() || from < 0 {
            ScanState::initial()
        } else {
            ScanState::after_range(bytes, from, to - 1, dialect).step(bytes[to - 1], dialect)
        }
    }

    /// The state at the start of a text or of a region.
    pub fn start() -> (s: ScanState)
        ensures
            s == ScanState::initial(),
    {
        ScanState { quote: Quote::Outside, escaped: false }
    }

    /// Whether a byte read in this state is code.
    pub fn is_code(&self) -> (r: bool)
        ensures
            r == self.in_code(),
    {
        !self.escaped && matches!(self.quote, Quote::Outside)
    }

    /// Reads one byte.
    pub fn advance(&self, b: u8, dialect: Dialect) -> (next: ScanState)
        ensures
            next == self.step(b, dialect),
    {
        if self.escaped {
            ScanState { quote: self.quote, escaped: false }
        } else if b == BACKSLASH {
            ScanState { quote: self.quote, escaped: true }
        } else {
            let quote = match self.quote {
                Quote::Outside => if b == SINGLE_QUOTE {
                    Quote::Single
                } else if b == DOUBLE_QUOTE {
                    Quote::Double
                } else if b == BACKTICK && matches!(dialect, Dialect::Script) {
                    Quote::Template
                } else {
                    Quote::Outside
                },
                Quote::Single => if b == SINGLE_QUOTE {
                    Quote::Outside
                } else {
                    Quote::Single
                },
                Quote::Double => if b == DOUBLE_QUOTE {
                    Quote::Outside
                } else {
                    Quote::Double
                },
                Quote::Template => if b == BACKTICK {
                    Quote::Outside
                } else {
                    Quote::Template
                },
            };
            ScanState { quote, escaped: false }
        }
    }
}

/// In a stylesheet the scanner is never inside a template literal.
pub proof fn lemma_stylesheet_has_no_template(s: ScanState, b: u8)
    requires
        s.quote != Quote::Template,
    ensures
        s.step(b, Dialect::Stylesheet).quote != Quote::Template,
{
}

/// An escaped byte changes nothing but the escape flag, whatever it is.
pub proof fn lemma_escaped_byte_is_inert(s: ScanState, b: u8, dialect: Dialect)
    requires
        s.escaped,
    ensures
        s.step(b, dialect) == (ScanState { quote: s.quote, escaped: false }),
{
}

} // verus!
