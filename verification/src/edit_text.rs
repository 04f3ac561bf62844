//! A line of text that is edited one character at a time.

use vstd::prelude::*;

verus! {

/// The character that takes the last character away.
pub const BACKSPACE: char = '\u{8}';

/// The event that tells of a text's new content.
pub struct TextUpdated(pub String);

/// The text that typing `ch` after `text` asks for: `text` without its
/// last character for a backspace, else `text` with `ch` at its end.
pub open spec fn typed(text: Seq<char>, ch: char) -> Seq<char> {
    if ch == BACKSPACE {
        if text.len() > 0 {
            text.drop_last()
        } else {
            text
        }
    } else {
        text.push(ch)
    }
}

/// The text that typing `ch` after `text` leaves: a backspace always takes
/// effect; another character is taken only if the text still fits with it.
pub open spec fn settled(text: Seq<char>, ch: char, fits: bool) -> Seq<char> {
    if ch == BACKSPACE || fits {
        typed(text, ch)
    } else {
        text
    }
}

/// The text that typing `ch` after `text` asks for.
pub fn typed_text(text: &Vec<char>, ch: char) -> (r: Vec<char>)
    ensures
        r@ == typed(text@, ch),
{
    let mut out = text.clone();
    assert(out@ =~= text@);
    if ch == BACKSPACE {
        let _ = out.pop();
    } else {
        out.push(ch);
    }
    out
}

/// The text that typing `ch` after `text` leaves, where `fits` says
/// whether the text that the typing asks for fits its widget.
pub fn edit_text_handle_char(text: Vec<char>, ch: char, fits: bool) -> (r: Vec<char>)
    ensures
        r@ == settled(text@, ch, fits),
{
    let mut out = text;
    if ch == BACKSPACE {
        let _ = out.pop();
    } else if fits {
        out.push(ch);
    }
    out
}

} // verus!
