//! What the library has from `std` and from other crates without a proof.

use ratatui::layout;
use vstd::prelude::*;
use vstd::utf8::{decode_utf8, valid_utf8};

use crate::layout::{
    fits_around_min, percent_of, three_percentages, Constraint, Direction, Rect,
};
use crate::text::{ascii_lowered, ascii_text, wide_text};

verus! {

/// The lower-case form of a text, as `str::to_lowercase` gives it.
pub uninterp spec fn lowercase(text: Seq<char>) -> Seq<char>;

/// The text that `String::from_utf8_lossy` gives for raw bytes.
pub uninterp spec fn lossy_text(bytes: Seq<u8>) -> Seq<char>;

/// A number of bytes in words, as `kondo_lib::pretty_size` gives it.
pub uninterp spec fn size_text(bytes: u64) -> Seq<char>;

/// A number of seconds in words, as `kondo_lib::print_elapsed` gives it.
pub uninterp spec fn elapsed_text(secs: u64) -> Seq<char>;

/// Calls `str::to_lowercase`, whose result depends on the text alone, character
/// by character and on what stands around it. Of ASCII text it maps `A` to `Z` to
/// `a` to `z` and leaves the rest, so that the beginnings of the result are the
/// beginnings of the text in lower case.
#[verifier::external_body]
pub(crate) fn to_lowercase(text: &str) -> (r: String)
    ensures
        r@ == lowercase(text@),
        ascii_text(text@) ==> r@ == ascii_lowered(text@),
        ascii_text(text@) ==> forall|n: int|
            0 <= n <= text@.len() ==> #[trigger] lowercase(text@.take(n)) == r@.take(n),
{
    text.to_lowercase()
}

/// Calls `String::from_utf8_lossy`, whose result depends on the bytes alone and
/// which decodes bytes that are valid UTF-8 as they are.
#[verifier::external_body]
pub(crate) fn from_utf8_lossy(bytes: &Vec<u8>) -> (r: String)
    ensures
        r@ == lossy_text(bytes@),
        valid_utf8(bytes@) ==> r@ == decode_utf8(bytes@),
{
    String::from_utf8_lossy(bytes).into_owned()
}

/// Calls `String::from_utf16_lossy`, which decodes UTF-16 and replaces every
/// surrogate without its other half.
#[verifier::external_body]
pub(crate) fn from_utf16_lossy(units: &Vec<u16>) -> (r: String)
    ensures
        r@ == wide_text(units@),
{
    String::from_utf16_lossy(units)
}

/// Calls `kondo_lib::pretty_size`, which scales a number of bytes to a binary
/// unit and prints it with one decimal. Its result depends on the number alone.
#[verifier::external_body]
pub(crate) fn pretty_size(bytes: u64) -> (r: String)
    ensures
        r@ == size_text(bytes),
{
    kondo_lib::pretty_size(bytes)
}

/// Calls `kondo_lib::print_elapsed`, which scales a number of seconds to a unit
/// of time and prints it rounded, with a word for the unit and `ago` behind it.
/// Its result depends on the number alone and is never empty.
#[verifier::external_body]
pub(crate) fn print_elapsed(secs: u64) -> (r: String)
    ensures
        r@ == elapsed_text(secs),
        r@.len() > 0,
{
    kondo_lib::print_elapsed(secs)
}

/// Calls `ratatui::layout::Layout::split`, which divides a rectangle into one
/// part for each constraint. Every part runs across the whole rectangle, and
/// its beginning and its end are bound to lie within the rectangle.
///
/// Three parts that are given in percent of the rectangle, and together take no
/// more than all of it, follow each other from its beginning. Each has its share,
/// since nothing that a share is weighed against is as strong, and their ends are
/// rounded to the nearest place, up from the middle between two.
///
/// One part of a least size among parts of a fixed length, where all of them
/// fit, takes the room that the others leave. The parts follow each other from
/// the beginning, and each of the others has its length: that part grows more
/// strongly than anything else does, and lengths are stronger still.
///
/// Nothing is said of how long the parts are otherwise: sizes may then speak
/// against each other, and the solver behind the call walks hash maps, whose
/// order is another in every process.
#[verifier::external_body]
pub(crate) fn split(direction: Direction, constraints: &Vec<Constraint>, area: Rect) -> (parts: Vec<
    Rect,
>)
    ensures
        parts@.len() == constraints@.len(),
        forall|i: int|
            0 <= i < parts@.len() ==> (#[trigger] parts@[i]).part_of(area, direction),
        three_percentages(constraints@) ==> parts@ == area.in_three(
            direction,
            percent_of(constraints@[0]),
            percent_of(constraints@[1]),
            percent_of(constraints@[2]),
        ),
        fits_around_min(constraints@, area.length(direction)) ==> forall|i: int|
            0 <= i < parts@.len() ==> #[trigger] parts@[i] == area.part_around_min(
                direction,
                constraints@,
                i,
            ),
{
    let way = match direction {
        Direction::Horizontal => layout::Direction::Horizontal,
        Direction::Vertical => layout::Direction::Vertical,
    };
    let sizes = constraints.iter().map(|c| match *c {
        Constraint::Length(n) => layout::Constraint::Length(n),
        Constraint::Min(n) => layout::Constraint::Min(n),
        Constraint::Percentage(n) => layout::Constraint::Percentage(n),
    });
    let whole = layout::Rect { x: area.x, y: area.y, width: area.width, height: area.height };
    let parts = layout::Layout::new(way, sizes).split(whole);
    parts.iter().map(|p| Rect { x: p.x, y: p.y, width: p.width, height: p.height }).collect()
}

} // verus!
