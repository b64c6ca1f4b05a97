//! Laws of the sizes that are shown to readers.
use vstd::prelude::*;

use crate::number;
use crate::number_laws;
use crate::ui::components;

verus! {

/// Whether `s` tells a size in a unit of `scale` bytes, rounded to tenths of
/// it, within `slack` bytes of doubt.
pub open spec fn tells(s: Seq<char>, bytes: nat, scale: nat, name: Seq<char>, slack: nat) -> bool {
    exists|tenths: nat|
        s == #[trigger] number::decimal(tenths / 10) + "."@ + number::decimal(tenths % 10) + " "@
            + name && -(scale + slack) <= 2 * (tenths * scale - 10 * bytes) <= scale + slack
}

/// Sizes below a kibibyte are told in bytes. From there on they are told in
/// the largest unit that fits, rounded to a tenth of it: kibibytes, mebibytes,
/// gibibytes and, for all that is larger, tebibytes.
pub proof fn law_readable_sizes(bytes: u64)
    ensures
        bytes < 1024 ==> components::readable(bytes as nat) == number::decimal(bytes as nat) + " "@
            + "B"@,
        1024 <= bytes < 1048576 ==> tells(
            components::readable(bytes as nat),
            bytes as nat,
            1024,
            "KiB"@,
            0,
        ),
        1048576 <= bytes < 1073741824 ==> tells(
            components::readable(bytes as nat),
            bytes as nat,
            1048576,
            "MiB"@,
            0,
        ),
        1073741824 <= bytes < 1099511627776 ==> tells(
            components::readable(bytes as nat),
            bytes as nat,
            1073741824,
            "GiB"@,
            0,
        ),
        1099511627776 <= bytes ==> tells(
            components::readable(bytes as nat),
            bytes as nat,
            1099511627776,
            "TiB"@,
            50000,
        ),
{
    let n = bytes as nat;
    let limit = 0x20_0000_0000_0000nat;
    number_laws::law_floating(n, 1, limit);
    let value = components::held(n);
    assert(value * 1 == value);
    if n < limit {
        assert(value == n);
    } else {
        let off = value - n;
        assert(-2048 <= off <= 2048);
    }
    let unit = components::unit_of(value);
    let scale = components::scale(unit);
    let tenths = number::round_div(value * 10, scale);
    number_laws::law_rounding(value * 10, scale);
    if unit > 0 {
        assert(components::readable(n) == number::decimal(tenths / 10) + "."@ + number::decimal(
            tenths % 10,
        ) + " "@ + components::unit_name(unit));
    }
}

} // verus!
