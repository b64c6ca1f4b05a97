//! Icon names, readable sizes, status labels and the texts of small widgets.
use vstd::prelude::*;

use crate::app::FileStatus;
use crate::converters::FileKind;
use crate::number;
use crate::text;

verus! {

// ---------------------------------------------------------------------------
// Icons and labels
// ---------------------------------------------------------------------------

/// Symbolic icon name of a file kind, following freedesktop naming.
pub open spec fn kind_icon(kind: FileKind) -> Seq<char> {
    match kind {
        FileKind::Tabular => "x-office-spreadsheet-symbolic"@,
        FileKind::Image => "image-x-generic-symbolic"@,
        FileKind::Audio => "audio-x-generic-symbolic"@,
        FileKind::Video => "video-x-generic-symbolic"@,
        FileKind::Document => "x-office-document-symbolic"@,
        FileKind::Archive => "package-x-generic-symbolic"@,
        FileKind::Unknown => "text-x-generic-symbolic"@,
    }
}

/// Symbolic icon name for a [`FileKind`], following freedesktop naming.
pub fn icon_name_for_kind(kind: FileKind) -> (r: &'static str)
    ensures
        r@ == kind_icon(kind),
{
    match kind {
        FileKind::Tabular => "x-office-spreadsheet-symbolic",
        FileKind::Image => "image-x-generic-symbolic",
        FileKind::Audio => "audio-x-generic-symbolic",
        FileKind::Video => "video-x-generic-symbolic",
        FileKind::Document => "x-office-document-symbolic",
        FileKind::Archive => "package-x-generic-symbolic",
        FileKind::Unknown => "text-x-generic-symbolic",
    }
}

/// Short status label of a queue entry.
pub open spec fn label_of(status: FileStatus) -> Seq<char> {
    match status {
        FileStatus::Pending => "Ready"@,
        FileStatus::Converting => "Converting…"@,
        FileStatus::Done => "Done"@,
        FileStatus::Failed => "Failed"@,
    }
}

/// Short status label for a queue entry.
pub fn status_label(status: &FileStatus) -> (r: &'static str)
    ensures
        r@ == label_of(*status),
{
    match status {
        FileStatus::Pending => "Ready",
        FileStatus::Converting => "Converting…",
        FileStatus::Done => "Done",
        FileStatus::Failed => "Failed",
    }
}

/// An icon by name and size in pixels.
#[derive(Debug, Clone, Copy)]
pub struct Icon {
    pub name: &'static str,
    pub size: u16,
}

/// File-type icon, sized for queue cards.
pub fn file_icon(kind: FileKind) -> (r: Icon)
    ensures
        r.name@ == kind_icon(kind),
        r.size == 32,
{
    Icon { name: icon_name_for_kind(kind), size: 32 }
}

/// Upper-case source-format badge, e.g. `CSV`.
pub fn source_badge(ext: &str) -> (r: String)
    ensures
        r@ == text::upper(ext@),
{
    text::to_upper(ext)
}

/// The texts of the drop zone.
#[derive(Debug, Clone, Copy)]
pub struct DropZoneBody {
    pub icon: Icon,
    pub headline: &'static str,
    pub hint: &'static str,
}

/// Drop-zone body: big icon, headline and hint.
pub fn drop_zone_body(is_hovered: bool) -> (r: DropZoneBody)
    ensures
        r.icon.name@ == "document-open-symbolic"@,
        r.icon.size == 48,
        r.headline@ == (if is_hovered {
            "Drop files to add them"@
        } else {
            "Drag & drop files here"@
        }),
        r.hint@ == "…or use the buttons below. You can also drop files onto this window."@,
{
    let headline = if is_hovered {
        "Drop files to add them"
    } else {
        "Drag & drop files here"
    };
    DropZoneBody {
        icon: Icon { name: "document-open-symbolic", size: 48 },
        headline,
        hint: "…or use the buttons below. You can also drop files onto this window.",
    }
}

// ---------------------------------------------------------------------------
// Readable sizes
// ---------------------------------------------------------------------------

/// A byte count held with 53 significant bits.
pub open spec fn held(bytes: nat) -> nat {
    number::nearest(bytes, 1, 0x20_0000_0000_0000)
}

/// How often a value is divided by 1024 until it is below that, four times at
/// most.
pub open spec fn unit_of(value: nat) -> nat {
    if value < 0x400 {
        0
    } else if value < 0x10_0000 {
        1
    } else if value < 0x4000_0000 {
        2
    } else if value < 0x100_0000_0000 {
        3
    } else {
        4
    }
}

/// How many bytes a unit has.
pub open spec fn scale(unit: nat) -> nat {
    if unit == 0 {
        1
    } else if unit == 1 {
        0x400
    } else if unit == 2 {
        0x10_0000
    } else if unit == 3 {
        0x4000_0000
    } else {
        0x100_0000_0000
    }
}

/// The name of a unit.
pub open spec fn unit_name(unit: nat) -> Seq<char> {
    if unit == 0 {
        "B"@
    } else if unit == 1 {
        "KiB"@
    } else if unit == 2 {
        "MiB"@
    } else if unit == 3 {
        "GiB"@
    } else {
        "TiB"@
    }
}

/// A byte count in the largest unit that it fills, with one decimal place;
/// plain bytes have none.
pub open spec fn readable(bytes: nat) -> Seq<char> {
    let value = held(bytes);
    let unit = unit_of(value);
    if unit == 0 {
        number::decimal(bytes) + " "@ + unit_name(0)
    } else {
        let tenths = number::round_div(value * 10, scale(unit));
        number::decimal(tenths / 10) + "."@ + number::decimal(tenths % 10) + " "@ + unit_name(unit)
    }
}

/// Pretty-print a byte count (`1536` gives `"1.5 KiB"`).
pub fn human_size(bytes: u64) -> (r: String)
    ensures
        r@ == readable(bytes as nat),
{
    let value = number::nearest_to(bytes as u128, 1, 0x20_0000_0000_0000);
    let (unit, size): (&'static str, u128) = if value < 0x400 {
        return text::cat3(number::decimal_of(bytes).as_str(), " ", "B");
    } else if value < 0x10_0000 {
        ("KiB", 0x400)
    } else if value < 0x4000_0000 {
        ("MiB", 0x10_0000)
    } else if value < 0x100_0000_0000 {
        ("GiB", 0x4000_0000)
    } else {
        ("TiB", 0x100_0000_0000)
    };
    assert(size == scale(unit_of(value as nat)));
    assert(unit@ == unit_name(unit_of(value as nat)));
    let tenths = number::rounded_div(value * 10, size);
    assert(tenths <= 0x1_0000_0000_0000);
    text::cat5(
        number::decimal_of((tenths / 10) as u64).as_str(),
        ".",
        number::decimal_of((tenths % 10) as u64).as_str(),
        " ",
        unit,
    )
}

} // verus!
