//! Colour pairs.

use vstd::prelude::*;

verus! {

/// The two colours of an emblem: the hexagon is filled with the foreground,
/// the canvas and the strokes are drawn in the background.
#[derive(Clone, Copy, Debug, PartialEq, Eq)]
pub struct Palette<'a> {
    pub foreground: &'a str,
    pub background: &'a str,
}

/// The two colours, as mathematics sees them.
pub struct PaletteView {
    pub foreground: Seq<char>,
    pub background: Seq<char>,
}

impl<'a> View for Palette<'a> {
    type V = PaletteView;

    open spec fn view(&self) -> PaletteView {
        PaletteView { foreground: self.foreground@, background: self.background@ }
    }
}

/// The palettes that come with the library.
#[derive(Clone, Copy, Debug, PartialEq, Eq, Structural)]
pub enum Builtin {
    LightGreen,
    LightBlue,
    Purple,
    Yellow,
    DeepOrange,
}

impl Builtin {
    /// The colours of this palette.
    pub open spec fn colours(self) -> PaletteView {
        match self {
            Builtin::LightGreen => PaletteView { foreground: "#64DD17"@, background: "#33691E"@ },
            Builtin::LightBlue => PaletteView { foreground: "#00B0FF"@, background: "#01579B"@ },
            Builtin::Purple => PaletteView { foreground: "#EA80FC"@, background: "#4A148C"@ },
            Builtin::Yellow => PaletteView { foreground: "#FFEA00"@, background: "#F57F17"@ },
            Builtin::DeepOrange => PaletteView { foreground: "#FF9E80"@, background: "#BF360C"@ },
        }
    }

    /// The name under which emblems in this palette are filed, where it has
    /// one.
    pub open spec fn prefix(self) -> Option<Seq<char>> {
        match self {
            Builtin::LightGreen => Some("decision-toolkit"@),
            Builtin::LightBlue => Some("decision-contracts"@),
            Builtin::Purple => Some("decision-dmn-toolkit"@),
            Builtin::Yellow => None,
            Builtin::DeepOrange => Some("decision-tables"@),
        }
    }

    /// Looks up the colours of this palette.
    pub fn palette(self) -> (p: Palette<'static>)
        ensures
            p@ == self.colours(),
    {
        match self {
            Builtin::LightGreen => Palette { foreground: "#64DD17", background: "#33691E" },
            Builtin::LightBlue => Palette { foreground: "#00B0FF", background: "#01579B" },
            Builtin::Purple => Palette { foreground: "#EA80FC", background: "#4A148C" },
            Builtin::Yellow => Palette { foreground: "#FFEA00", background: "#F57F17" },
            Builtin::DeepOrange => Palette { foreground: "#FF9E80", background: "#BF360C" },
        }
    }

    /// Looks up the name under which emblems in this palette are filed.
    pub fn file_prefix(self) -> (name: Option<&'static str>)
        ensures
            name.is_some() == self.prefix().is_some(),
            name matches Some(n) ==> Some(n@) == self.prefix(),
    {
        match self {
            Builtin::LightGreen => Some("decision-toolkit"),
            Builtin::LightBlue => Some("decision-contracts"),
            Builtin::Purple => Some("decision-dmn-toolkit"),
            Builtin::Yellow => None,
            Builtin::DeepOrange => Some("decision-tables"),
        }
    }
}

} // verus!
