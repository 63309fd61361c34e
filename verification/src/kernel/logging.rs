//! Log lines: `[kernel] `, a tag for the level, and the text.

use vstd::prelude::*;
use vstd::string::*;

use crate::text::{Pieces, MESSAGE_PIECES};

verus! {

/// Log level. `Info` has no tag.
#[derive(Clone, Copy, PartialEq, Eq, Structural, Debug)]
pub enum Level {
    /// Ordinary information.
    Info,
    /// Not fatal, but worth noticing.
    Warn,
    /// Something cannot go on.
    Error,
}

impl Level {
    /// The tag of this level.
    pub open spec fn label(self) -> Seq<char> {
        match self {
            Level::Info => ""@,
            Level::Warn => "[WARN] "@,
            Level::Error => "[ERROR] "@,
        }
    }

    /// The tag of this level.
    #[must_use]
    pub fn tag(self) -> (tag: &'static str)
        ensures
            tag@ == self.label(),
            self is Info ==> tag@ == ""@,
            self is Warn ==> tag@ == "[WARN] "@,
            self is Error ==> tag@ == "[ERROR] "@,
    {
        match self {
            Self::Info => "",
            Self::Warn => "[WARN] ",
            Self::Error => "[ERROR] ",
        }
    }
}

/// The line that is sent for a message.
pub open spec fn log_line(level: Level, text: Seq<char>) -> Seq<char> {
    "[kernel] "@ + level.label() + text + "\n"@
}

/// The line that is sent for a message in pieces.
#[must_use]
pub fn log_pieces(level: Level, message: &Pieces) -> (line: Pieces)
    requires
        message.len <= MESSAGE_PIECES,
    ensures
        line.well_formed(),
        line@ == log_line(level, message@),
        line@ == "[kernel] "@ + level.label() + message@ + "\n"@,
{
    let mut line = Pieces::new();
    line.text("[kernel] ");
    line.text(level.tag());
    line.append(message);
    line.text("\n");
    assert(line@ =~= log_line(level, message@));
    line
}

/// The line that is sent for a message.
#[must_use]
pub fn log(level: Level, text: &str) -> (line: String)
    ensures
        line@ == log_line(level, text@),
        line@ == "[kernel] "@ + level.label() + text@ + "\n"@,
{
    let mut line = String::from_str("[kernel] ");
    line.append(level.tag());
    line.append(text);
    line.append("\n");
    line
}

} // verus!
