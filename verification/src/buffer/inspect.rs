use vstd::prelude::*;
use vstd::utf8::{decode_utf8, valid_utf8};
use crate::bytes::{
    bytes_to_nat, color555_channels, color555_to_color888, lemma_small_widths, little_endian_value,
    nat_to_int_if_different,
    signed_if_different, u64_limit,
};
use crate::characters::{chars_of, illegal_control_character, is_illegal_control_character};
use crate::buffer::{Buffer, InspectionStatus};
use crate::buffer::actions::selected_bytes_of;
use crate::cursor::Cursor;
use crate::popup::{FixedPointFormat, InspectLine, LineView, Popup, line_views, popup_view, popup_views};
use crate::sorting::{sorted_by_at, sorted_popups_by_at};

verus! {

/// `std::str::from_utf8`: the text when the bytes are valid UTF-8.
#[verifier::external_body]
fn str_from_utf8(bytes: &[u8]) -> (text: Option<&str>)
    ensures
        text is Some <==> valid_utf8(bytes@),
        text matches Some(t) ==> t@ == decode_utf8(bytes@),
{
    std::str::from_utf8(bytes).ok()
}

/// The unsigned reading of the selection, if it fits in a `u64`.
pub open spec fn nat_reading(selection: Seq<u8>) -> Option<u64> {
    if little_endian_value(selection) < u64_limit() {
        Some(little_endian_value(selection) as u64)
    } else {
        None
    }
}

/// The signed reading, when it differs from the unsigned one.
pub open spec fn int_reading(selection: Seq<u8>) -> Option<i64> {
    match nat_reading(selection) {
        Some(value) => signed_if_different(value, selection.len() as usize),
        None => None,
    }
}

/// `text` without its trailing NUL characters.
pub open spec fn trimmed(text: Seq<char>) -> Seq<char>
    decreases text.len(),
{
    if text.len() > 0 && text.last() == '\0' {
        trimmed(text.drop_last())
    } else {
        text
    }
}

/// The text preview: the selection decoded as UTF-8 with trailing NULs
/// removed, unless it is a single byte, invalid, or holds a control
/// character that should not be shown.
pub open spec fn utf8_reading(selection: Seq<u8>) -> Option<Seq<char>> {
    if selection.len() != 1 && valid_utf8(selection) && !(exists|i: int|
        0 <= i < trimmed(decode_utf8(selection)).len() && illegal_control_character(
            #[trigger] trimmed(decode_utf8(selection))[i],
        )) {
        Some(trimmed(decode_utf8(selection)))
    } else {
        None
    }
}

/// A list of one line, or of none.
pub open spec fn optional(line: Option<LineView>) -> Seq<LineView> {
    match line {
        Some(l) => seq![l],
        None => Seq::empty(),
    }
}

/// A fixed-point line of `format` from an unsigned reading, for selections
/// of `width` bytes.
pub open spec fn unsigned_fixed(selection: Seq<u8>, width: int, format: FixedPointFormat) -> Option<LineView> {
    match nat_reading(selection) {
        Some(value) if selection.len() == width => Some(LineView::FixedPoint { format, raw: value as i64 }),
        _ => None,
    }
}

/// A fixed-point line of `format` from a signed reading, for selections of
/// `width` bytes.
pub open spec fn signed_fixed(selection: Seq<u8>, width: int, format: FixedPointFormat) -> Option<LineView> {
    match int_reading(selection) {
        Some(value) if selection.len() == width => Some(LineView::FixedPoint { format, raw: value }),
        _ => None,
    }
}

/// The three bytes as a colour.
pub open spec fn color888_reading(selection: Seq<u8>) -> Option<LineView> {
    if selection.len() == 3 {
        Some(LineView::Color888 { red: selection[0], green: selection[1], blue: selection[2] })
    } else {
        None
    }
}

/// Two bytes with the top bit clear as a 5-5-5 colour.
pub open spec fn color555_reading(selection: Seq<u8>) -> Option<LineView> {
    match nat_reading(selection) {
        Some(value) if selection.len() == 2 && value / 0x8000 == 0 => {
            let channels = color555_channels(value as u16);
            Some(LineView::Color555 { red: channels[0], green: channels[1], blue: channels[2] })
        },
        _ => None,
    }
}

pub open spec fn int_line(selection: Seq<u8>) -> Option<LineView> {
    match int_reading(selection) {
        Some(value) => Some(LineView::Int(value)),
        None => None,
    }
}

pub open spec fn nat_line(selection: Seq<u8>) -> Option<LineView> {
    match nat_reading(selection) {
        Some(value) => Some(LineView::Nat(value)),
        None => None,
    }
}

/// A single byte in binary: its upper and lower four bits.
pub open spec fn binary_line(selection: Seq<u8>) -> Option<LineView> {
    match nat_reading(selection) {
        Some(value) if selection.len() == 1 => Some(
            LineView::Binary { upper: (value / 16) as u8, lower: (value % 16) as u8 },
        ),
        _ => None,
    }
}

pub open spec fn utf8_line(selection: Seq<u8>) -> Option<LineView> {
    match utf8_reading(selection) {
        Some(text) => Some(LineView::Utf8(text)),
        None => None,
    }
}

/// The fixed-point lines: for 4-byte selections 20.12 and 16.16 (each
/// signed, when the signed reading differs, then unsigned); for 2-byte
/// selections 12.4, 8.8 and 4.12.
pub open spec fn fixed_point_lines(selection: Seq<u8>) -> Seq<LineView> {
    optional(signed_fixed(selection, 4, FixedPointFormat::Signed2012)) + optional(
        unsigned_fixed(selection, 4, FixedPointFormat::Unsigned2012),
    ) + optional(signed_fixed(selection, 4, FixedPointFormat::Signed1616)) + optional(
        unsigned_fixed(selection, 4, FixedPointFormat::Unsigned1616),
    ) + optional(unsigned_fixed(selection, 2, FixedPointFormat::Unsigned124)) + optional(
        unsigned_fixed(selection, 2, FixedPointFormat::Unsigned88),
    ) + optional(unsigned_fixed(selection, 2, FixedPointFormat::Unsigned412))
}

/// Everything the inspector shows for a selection, in order: the signed and
/// unsigned readings, the binary form of a single byte, the text preview,
/// the fixed-point readings and the colours.
pub open spec fn inspection(selection: Seq<u8>) -> Seq<LineView> {
    optional(int_line(selection)) + optional(nat_line(selection)) + optional(binary_line(selection))
        + optional(utf8_line(selection)) + fixed_point_lines(selection) + color_inspection(selection)
}

/// The colours the inspector shows for a selection.
pub open spec fn color_inspection(selection: Seq<u8>) -> Seq<LineView> {
    optional(color888_reading(selection)) + optional(color555_reading(selection))
}

/// Appends `line` to `lines`.
fn push_line(lines: &mut Vec<InspectLine>, line: InspectLine)
    ensures
        line_views(final(lines)@) == line_views(old(lines)@).push(line@),
{
    lines.push(line);
    assert(line_views(lines@) =~= line_views(old(lines)@).push(line@));
}

/// The text preview of a selection, see `utf8_reading`.
fn utf8_preview(selection: &[u8]) -> (preview: Option<Vec<char>>)
    ensures
        preview is Some <==> utf8_reading(selection@) is Some,
        preview matches Some(text) ==> utf8_reading(selection@) == Some(text@),
{
    if selection.len() == 1 {
        return None;
    }
    let text = match str_from_utf8(selection) {
        Some(text) => text,
        None => {
            return None;
        },
    };
    let mut chars = chars_of(text);
    let ghost decoded = chars@;
    while chars.len() > 0 && chars[chars.len() - 1] == '\0'
        invariant
            trimmed(decoded) == trimmed(chars@),
        decreases chars@.len(),
    {
        let ghost before = chars@;
        chars.pop();
        assert(chars@ =~= before.drop_last());
    }
    assert(trimmed(chars@) == chars@);
    let mut index: usize = 0;
    while index < chars.len()
        invariant
            index <= chars@.len(),
            trimmed(decoded) == chars@,
            decoded == decode_utf8(selection@),
            valid_utf8(selection@),
            selection@.len() != 1,
            forall|i: int| 0 <= i < index ==> !illegal_control_character(#[trigger] chars@[i]),
        decreases chars@.len() - index,
    {
        if is_illegal_control_character(chars[index]) {
            assert(illegal_control_character(trimmed(decoded)[index as int]));
            return None;
        }
        index = index + 1;
    }
    Some(chars)
}

/// Everything the inspector shows for `selection`, see `inspection`.
pub fn inspect(selection: &[u8]) -> (lines: Vec<InspectLine>)
    ensures
        line_views(lines@) == inspection(selection@),
{
    proof {
        lemma_small_widths(selection@);
    }
    let length = selection.len();
    let unsigned = bytes_to_nat(selection);
    let signed = match unsigned {
        Some(value) => nat_to_int_if_different(value, length),
        None => None,
    };
    let mut lines: Vec<InspectLine> = Vec::new();
    if let Some(value) = signed {
        push_line(&mut lines, InspectLine::Int(value));
    }
    assert(line_views(lines@) =~= optional(int_line(selection@)));
    let ghost part = line_views(lines@);
    if let Some(value) = unsigned {
        push_line(&mut lines, InspectLine::Nat(value));
    }
    assert(line_views(lines@) =~= part + optional(nat_line(selection@)));
    let ghost part = line_views(lines@);
    if length == 1 {
        if let Some(value) = unsigned {
            push_line(&mut lines, InspectLine::Binary { upper: (value / 16) as u8, lower: (value % 16) as u8 });
        }
    }
    assert(line_views(lines@) =~= part + optional(binary_line(selection@)));
    let ghost part = line_views(lines@);
    if let Some(text) = utf8_preview(selection) {
        push_line(&mut lines, InspectLine::Utf8(text));
    }
    assert(line_views(lines@) =~= part + optional(utf8_line(selection@)));
    let ghost part = line_views(lines@);
    let mut fixed = fixed_points(selection, unsigned, signed);
    lines.append(&mut fixed);
    assert(line_views(lines@) =~= part + fixed_point_lines(selection@));
    let ghost part = line_views(lines@);
    let mut colors = inspect_color(selection);
    lines.append(&mut colors);
    assert(line_views(lines@) =~= part + color_inspection(selection@));
    lines
}

/// The fixed-point lines of `selection`, given its readings.
fn fixed_points(selection: &[u8], unsigned: Option<u64>, signed: Option<i64>) -> (lines: Vec<InspectLine>)
    requires
        unsigned == nat_reading(selection@),
        signed == int_reading(selection@),
    ensures
        line_views(lines@) == fixed_point_lines(selection@),
{
    proof {
        lemma_small_widths(selection@);
    }
    let length = selection.len();
    let mut lines: Vec<InspectLine> = Vec::new();
    if length == 4 {
        if let Some(value) = signed {
            push_line(&mut lines, InspectLine::FixedPoint { format: FixedPointFormat::Signed2012, raw: value });
        }
        if let Some(value) = unsigned {
            push_line(&mut lines, InspectLine::FixedPoint { format: FixedPointFormat::Unsigned2012, raw: value as i64 });
        }
        if let Some(value) = signed {
            push_line(&mut lines, InspectLine::FixedPoint { format: FixedPointFormat::Signed1616, raw: value });
        }
        if let Some(value) = unsigned {
            push_line(&mut lines, InspectLine::FixedPoint { format: FixedPointFormat::Unsigned1616, raw: value as i64 });
        }
    }
    if length == 2 {
        if let Some(value) = unsigned {
            push_line(&mut lines, InspectLine::FixedPoint { format: FixedPointFormat::Unsigned124, raw: value as i64 });
            push_line(&mut lines, InspectLine::FixedPoint { format: FixedPointFormat::Unsigned88, raw: value as i64 });
            push_line(&mut lines, InspectLine::FixedPoint { format: FixedPointFormat::Unsigned412, raw: value as i64 });
        }
    }
    assert(line_views(lines@) =~= fixed_point_lines(selection@));
    lines
}

/// The colours the inspector shows for `selection`, see `color_inspection`.
pub fn inspect_color(selection: &[u8]) -> (lines: Vec<InspectLine>)
    ensures
        line_views(lines@) == color_inspection(selection@),
{
    proof {
        lemma_small_widths(selection@);
    }
    let mut lines: Vec<InspectLine> = Vec::new();
    if selection.len() == 3 {
        push_line(&mut lines, InspectLine::Color888 { red: selection[0], green: selection[1], blue: selection[2] });
    }
    if selection.len() == 2 {
        if let Some(value) = bytes_to_nat(selection) {
            if value / 0x8000 == 0 {
                let channels = color555_to_color888(value as u16);
                push_line(&mut lines, InspectLine::Color555 { red: channels[0], green: channels[1], blue: channels[2] });
            }
        }
    }
    assert(line_views(lines@) =~= color_inspection(selection@));
    lines
}

/// The lines the inspector shows for the bytes under `cursor`: all of them,
/// or only the colours.
pub open spec fn selection_lines(contents: Seq<u8>, cursor: Cursor, colors_only: bool) -> Seq<LineView> {
    let selection = selected_bytes_of(contents, cursor);
    if colors_only {
        color_inspection(selection)
    } else {
        inspection(selection)
    }
}

/// The popups the inspector opens for `cursors`, in their order: one at the
/// first offset of each selection that has something to show.
pub open spec fn inspection_popups(contents: Seq<u8>, cursors: Seq<Cursor>, colors_only: bool) -> Seq<
    (usize, bool, Seq<LineView>),
>
    decreases cursors.len(),
{
    if cursors.len() == 0 {
        seq![]
    } else {
        let earlier = inspection_popups(contents, cursors.drop_last(), colors_only);
        let cursor = cursors.last();
        let lines = selection_lines(contents, cursor, colors_only);
        if lines.len() == 0 {
            earlier
        } else {
            earlier.push((cursor.lower(), false, lines))
        }
    }
}

/// What inspecting does to `old`: when that kind of inspection is already
/// shown it is switched off; otherwise the popups of every selection, the
/// primary one first, are added in order of their offsets, and the
/// inspection counts as shown while any popup is open.
#[verifier::opaque]
pub open spec fn inspected(before: Buffer, after: Buffer, status: InspectionStatus, colors_only: bool) -> bool {
    if before.inspection_status == Some(status) {
        after == (Buffer { inspection_status: None, ..before })
    } else {
        exists|added: Seq<(usize, bool, Seq<LineView>)>|
            #![trigger sorted_by_at(added)]
            {
                &&& added.to_multiset() == inspection_popups(
                    before.contents@,
                    seq![before.primary_cursor] + before.cursors@,
                    colors_only,
                ).to_multiset()
                &&& sorted_by_at(added)
                &&& popup_views(after.popups@) == popup_views(before.popups@) + added
                &&& after.inspection_status == (if after.popups@.len() == 0 {
                    None
                } else {
                    Some(status)
                })
                &&& after == (Buffer { popups: after.popups, inspection_status: after.inspection_status, ..before })
            }
    }
}

impl Buffer {
    /// Opens an inspection popup beside every selection; pressed again, it
    /// switches the inspection off.
    pub fn inspect_selection(&mut self)
        requires
            old(self).inspection_status != Some(InspectionStatus::Normal) ==> old(self).cursors_in_bounds(),
            old(self).inspection_status != Some(InspectionStatus::Normal) ==> old(self).contents@.len() > 0,
        ensures
            inspected(*old(self), *final(self), InspectionStatus::Normal, false),
    {
        self.add_inspection_popups(InspectionStatus::Normal, false);
    }

    /// Opens a popup with the colours that every selection spells; pressed
    /// again, it switches the colour inspection off.
    pub fn inspect_selection_color(&mut self)
        requires
            old(self).inspection_status != Some(InspectionStatus::ColorsOnly) ==> old(self).cursors_in_bounds(),
            old(self).inspection_status != Some(InspectionStatus::ColorsOnly) ==> old(self).contents@.len() > 0,
        ensures
            inspected(*old(self), *final(self), InspectionStatus::ColorsOnly, true),
    {
        self.add_inspection_popups(InspectionStatus::ColorsOnly, true);
    }

    /// Appends the popup for `cursor` to `built`, when it has lines.
    fn push_inspection_popup(&self, built: &mut Vec<Popup>, cursor: Cursor, colors_only: bool)
        requires
            cursor.upper() < self.contents@.len(),
        ensures
            popup_views(final(built)@) == (if selection_lines(self.contents@, cursor, colors_only).len() == 0 {
                popup_views(old(built)@)
            } else {
                popup_views(old(built)@).push((cursor.lower(), false, selection_lines(self.contents@, cursor, colors_only)))
            }),
    {
        let bytes = self.selected_bytes(cursor);
        let lines = if colors_only {
            inspect_color(&bytes)
        } else {
            inspect(&bytes)
        };
        if lines.len() > 0 {
            built.push(Popup::new(cursor.lower_bound(), lines));
            assert(popup_views(built@) =~= popup_views(old(built)@).push(popup_view(built@.last())));
        } else {
            assert(popup_views(built@) =~= popup_views(old(built)@));
        }
    }

    fn add_inspection_popups(&mut self, status: InspectionStatus, colors_only: bool)
        requires
            old(self).inspection_status != Some(status) ==> old(self).cursors_in_bounds(),
            old(self).inspection_status != Some(status) ==> old(self).contents@.len() > 0,
        ensures
            inspected(*old(self), *final(self), status, colors_only),
    {
        proof {
            reveal(inspected);
        }
        if self.inspection_status == Some(status) {
            self.inspection_status = None;
            return;
        }
        let ghost all = seq![self.primary_cursor] + self.cursors@;
        let mut built: Vec<Popup> = Vec::new();
        let primary = self.primary_cursor;
        assert(popup_views(built@) =~= inspection_popups(self.contents@, all.take(0), colors_only));
        self.push_inspection_popup(&mut built, primary, colors_only);
        assert(all.take(1).drop_last() =~= all.take(0));
        let mut index: usize = 0;
        while index < self.cursors.len()
            invariant
                all == seq![self.primary_cursor] + self.cursors@,
                index <= self.cursors@.len(),
                self.cursors_in_bounds(),
                self.contents@.len() > 0,
                popup_views(built@) == inspection_popups(self.contents@, all.take(index + 1), colors_only),
            decreases self.cursors@.len() - index,
        {
            let cursor = self.cursors[index];
            assert(cursor == all[index + 1]);
            assert(all.take(index + 2).drop_last() =~= all.take(index + 1));
            self.push_inspection_popup(&mut built, cursor, colors_only);
            index = index + 1;
        }
        assert(all.take(all.len() as int) =~= all);
        let mut sorted = sorted_popups_by_at(built);
        let ghost added = popup_views(sorted@);
        let ghost earlier = self.popups@;
        self.popups.append(&mut sorted);
        assert(popup_views(self.popups@) =~= popup_views(earlier) + added);
        if self.popups.len() == 0 {
            self.inspection_status = None;
        } else {
            self.inspection_status = Some(status);
        }
        assert(sorted_by_at(added));
    }
}

} // verus!
