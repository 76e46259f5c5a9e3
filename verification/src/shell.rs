//! The settings panel's sections and small presentation rules.

use vstd::prelude::*;

verus! {

/// The tabs of the shell's settings panel.
#[derive(Clone, Copy, PartialEq, Eq, Structural, Debug)]
pub enum Section {
    Wifi,
    Bluetooth,
    Audio,
    Display,
}

pub open spec fn section_title(s: Section) -> Seq<char> {
    match s {
        Section::Wifi => "Wi-Fi"@,
        Section::Bluetooth => "Bluetooth"@,
        Section::Audio => "Audio"@,
        Section::Display => "Display"@,
    }
}

impl Section {
    pub fn title(self) -> (t: &'static str)
        ensures
            t@ == section_title(self),
    {
        match self {
            Section::Wifi => "Wi-Fi",
            Section::Bluetooth => "Bluetooth",
            Section::Audio => "Audio",
            Section::Display => "Display",
        }
    }
}

/// Signal bars for a 0..=100 signal strength: four bars from 75, three
/// from 50, two from 25, else one.
pub open spec fn signal_bars(signal: i32) -> Seq<char> {
    if signal >= 75 {
        "▂▄▆█"@
    } else if signal >= 50 {
        "▂▄▆ "@
    } else if signal >= 25 {
        "▂▄  "@
    } else {
        "▂   "@
    }
}

pub fn signal_glyph(signal: i32) -> (g: &'static str)
    ensures
        g@ == signal_bars(signal),
{
    if signal >= 75 {
        "▂▄▆█"
    } else if signal >= 50 {
        "▂▄▆ "
    } else if signal >= 25 {
        "▂▄  "
    } else {
        "▂   "
    }
}

} // verus!
