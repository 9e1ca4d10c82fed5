//! Which log messages the peer writes out, and how.
//!
//! A message that starts with `]` is a result line: it is written without the
//! brackets it starts with and without surrounding whitespace. A message that
//! starts with a space is a progress line: it is written after its level. Any
//! other message is not written.

use vstd::prelude::*;

use crate::text::{strip_leading, strip_leading_char, trim, trim_whitespace};

verus! {

/// The line written for a message logged at `level`, if one is.
pub open spec fn routed_line(message: Seq<char>, level: Seq<char>) -> Option<Seq<char>> {
    if message.len() > 0 && message[0] == ']' {
        Some(trim(strip_leading(message, ']')))
    } else if message.len() > 0 && message[0] == ' ' {
        Some(level + seq![':', ' '] + trim(message))
    } else {
        None
    }
}

/// The line to write for a log message, given the name of its level
/// (`INFO`, `WARN`, ...), or `None` where the message is not written.
pub fn route_message(message: &str, level: &str) -> (line: Option<String>)
    ensures
        match line {
            Some(l) => routed_line(message@, level@) == Some(l@),
            None => routed_line(message@, level@) is None,
        },
{
    let n = message.unicode_len();
    if n > 0 && message.get_char(0) == ']' {
        let stripped = strip_leading_char(message, ']');
        Some(String::from_str(trim_whitespace(stripped)))
    } else if n > 0 && message.get_char(0) == ' ' {
        let mut line = String::from_str(level);
        let separator = ": ";
        proof {
            reveal_strlit(": ");
        }
        line.append(separator);
        line.append(trim_whitespace(message));
        assert(line@ =~= level@ + seq![':', ' '] + trim(message@));
        Some(line)
    } else {
        None
    }
}

} // verus!
