use vstd::prelude::*;

verus! {

/// A number format that the inspector shows as a fixed-point value.
#[derive(Clone, Copy, PartialEq, Eq, Structural, Debug)]
pub enum FixedPointFormat {
    /// 32 bits, 12 of them after the point, unsigned.
    Unsigned2012,
    /// 32 bits, 12 of them after the point, two's complement.
    Signed2012,
    Unsigned1616,
    Signed1616,
    /// 16 bits, 4 of them after the point, unsigned.
    Unsigned124,
    Unsigned88,
    Unsigned412,
}

/// One line of an inspection popup, as plain values.
#[derive(Debug)]
pub enum InspectLine {
    /// The selection read as a signed little-endian number (only when it
    /// differs from the unsigned reading).
    Int(i64),
    /// The selection read as an unsigned little-endian number.
    Nat(u64),
    /// A single byte in binary: its upper and lower 4 bits.
    Binary { upper: u8, lower: u8 },
    /// The selection as UTF-8 text, trailing NUL characters removed.
    Utf8(Vec<char>),
    /// `raw` divided by 2 to the power of the format's fraction bits.
    FixedPoint { format: FixedPointFormat, raw: i64 },
    /// Three bytes as an RGB colour.
    Color888 { red: u8, green: u8, blue: u8 },
    /// Two bytes as a 5-5-5 colour, widened to 8 bits a channel.
    Color555 { red: u8, green: u8, blue: u8 },
}

/// What an inspection line shows, as mathematical values.
pub enum LineView {
    Int(i64),
    Nat(u64),
    Binary { upper: u8, lower: u8 },
    Utf8(Seq<char>),
    FixedPoint { format: FixedPointFormat, raw: i64 },
    Color888 { red: u8, green: u8, blue: u8 },
    Color555 { red: u8, green: u8, blue: u8 },
}

impl View for InspectLine {
    type V = LineView;

    open spec fn view(&self) -> LineView {
        match self {
            InspectLine::Int(value) => LineView::Int(*value),
            InspectLine::Nat(value) => LineView::Nat(*value),
            InspectLine::Binary { upper, lower } => LineView::Binary { upper: *upper, lower: *lower },
            InspectLine::Utf8(text) => LineView::Utf8(text@),
            InspectLine::FixedPoint { format, raw } => LineView::FixedPoint { format: *format, raw: *raw },
            InspectLine::Color888 { red, green, blue } => LineView::Color888 {
                red: *red,
                green: *green,
                blue: *blue,
            },
            InspectLine::Color555 { red, green, blue } => LineView::Color555 {
                red: *red,
                green: *green,
                blue: *blue,
            },
        }
    }
}

/// The lines of a list, as values.
pub open spec fn line_views(lines: Seq<InspectLine>) -> Seq<LineView> {
    lines.map_values(|line: InspectLine| line@)
}

/// A box of inspection lines shown next to the selection starting at `at`.
pub struct Popup {
    pub at: usize,
    pub primary: bool,
    pub lines: Vec<InspectLine>,
}

/// What a popup shows, as values: where it stands, whether it belongs to
/// the primary selection, and its lines.
pub open spec fn popup_view(popup: Popup) -> (usize, bool, Seq<LineView>) {
    (popup.at, popup.primary, line_views(popup.lines@))
}

/// The popups of a list, as values.
pub open spec fn popup_views(popups: Seq<Popup>) -> Seq<(usize, bool, Seq<LineView>)> {
    popups.map_values(|popup: Popup| popup_view(popup))
}

impl Popup {
    pub fn new(at: usize, lines: Vec<InspectLine>) -> (popup: Popup)
        ensures
            popup.at == at,
            popup.lines@ == lines@,
            !popup.primary,
    {
        Popup { at, primary: false, lines }
    }

    pub fn as_primary(self) -> (popup: Popup)
        ensures
            popup.at == self.at,
            popup.lines@ == self.lines@,
            popup.primary,
    {
        let mut popup = self;
        popup.primary = true;
        popup
    }
}

} // verus!
