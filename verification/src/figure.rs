//! A number that animates keeps its width: the slots it does not use are filled with the
//! figure space, a character one digit wide, so that a reading is as wide at its smallest
//! as at its largest and nothing beside it moves as it counts.

use vstd::prelude::*;

verus! {

/// A space as wide as a digit.
pub const FIGURE_SPACE: char = '\u{2007}';

/// The slots that a running count takes up.
pub const COUNT_WIDTH: usize = 5;

/// `text` with figure spaces before it, in at least `width` slots.
pub open spec fn aligned(text: Seq<char>, width: nat) -> Seq<char> {
    let pad = if text.len() < width { (width - text.len()) as nat } else { 0 };
    Seq::new(pad, |i: int| FIGURE_SPACE) + text
}

/// `text` right-aligned in `width` digit-wide slots.
pub fn slots(text: &str, width: usize) -> (out: String)
    ensures
        out@ == aligned(text@, width as nat),
{
    proof {
        reveal_strlit("\u{2007}");
    }
    let pad: usize = width.saturating_sub(text.unicode_len());
    let mut out = String::new();
    for i in 0..pad
        invariant
            out@ == Seq::new(i as nat, |j: int| FIGURE_SPACE),
            "\u{2007}"@ == seq![FIGURE_SPACE],
    {
        out.append("\u{2007}");
    }
    out.append(text);
    out
}

/// A running count as the cards and boxes show it: `grouped`, the count with its thousands
/// grouped, in a fixed number of slots.
pub fn count(grouped: &str) -> (out: String)
    ensures
        out@ == aligned(grouped@, COUNT_WIDTH as nat),
{
    slots(grouped, COUNT_WIDTH)
}

// ---- laws ----

/// Whatever fits its slots is exactly as wide as they are, and ends in the text itself.
pub proof fn law_readings_keep_their_width(text: Seq<char>, width: nat)
    ensures
        text.len() <= width ==> aligned(text, width).len() == width,
        text.len() > width ==> aligned(text, width) == text,
        aligned(text, width).skip(aligned(text, width).len() - text.len()) == text,
{
}

/// What stands before the text is figure spaces and nothing else, as many as there are slots
/// left over.
pub proof fn law_slots_left_over_are_figure_spaces(text: Seq<char>, width: nat, i: int)
    requires
        0 <= i < aligned(text, width).len(),
    ensures
        i < width - text.len() ==> aligned(text, width)[i] == '\u{2007}',
        text.len() <= width && i >= width - text.len() ==> aligned(text, width)[i] == text[i - (
        width - text.len())],
        text.len() >= width ==> aligned(text, width)[i] == text[i],
{
}

} // verus!
