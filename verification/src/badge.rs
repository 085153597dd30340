//! The face of the Windows tray badge: the remaining percentage it shows,
//! its tone, its digit size, and the seven-segment shapes of the digits.
use vstd::prelude::*;
use crate::text::{percent_text, push_percent, chars_of};
use crate::tray::clamp_percent;

verus! {

/// The colour the badge digits take.
#[derive(Debug, Clone, Copy, PartialEq, Eq, Structural)]
pub enum BadgeTone {
    /// 15% left or less.
    Alert,
    /// 40% left or less.
    Caution,
    Calm,
}

/// What the badge shows for a known remaining percentage.
#[derive(Debug, Clone, PartialEq)]
pub struct BadgeFace {
    /// The whole percentage left, within 0..=100.
    pub label: String,
    pub tone: BadgeTone,
    /// Three digits get narrower cells.
    pub narrow: bool,
}

pub open spec fn badge_tone(remaining: int) -> BadgeTone {
    if clamp_percent(remaining) <= 15_000_000 {
        BadgeTone::Alert
    } else if clamp_percent(remaining) <= 40_000_000 {
        BadgeTone::Caution
    } else {
        BadgeTone::Calm
    }
}

/// The face for a remaining percentage (millionths of a percentage point):
/// clamped to 0..=100%, shown as a whole percentage (halves to even).
/// With no value the badge shows dashes instead.
pub fn badge_face(remaining_percent: Option<i32>) -> (r: Option<BadgeFace>)
    ensures
        match remaining_percent {
            None => r is None,
            Some(x) => r matches Some(f) && f.label@ == percent_text(clamp_percent(x as int)) && f.tone
                == badge_tone(x as int) && f.narrow == (f.label@.len() == 3),
        },
{
    match remaining_percent {
        None => None,
        Some(x) => {
            let clamped: i64 = if x < 0 {
                0
            } else if x > 100_000_000 {
                100_000_000
            } else {
                x as i64
            };
            let mut label = String::new();
            push_percent(&mut label, clamped);
            proof {
                assert(Seq::<char>::empty() + percent_text(clamped as int) =~= percent_text(
                    clamped as int,
                ));
            }
            let tone = if clamped <= 15_000_000 {
                BadgeTone::Alert
            } else if clamped <= 40_000_000 {
                BadgeTone::Caution
            } else {
                BadgeTone::Calm
            };
            let narrow = chars_of(label.as_str()).len() == 3;
            Some(BadgeFace { label, tone, narrow })
        },
    }
}

/// The segments a digit lights, bit `i` for segment `i`: top, upper right,
/// lower right, bottom, lower left, upper left, middle.
pub open spec fn segment_mask(digit: int) -> u8 {
    if digit == 0 {
        0b011_1111
    } else if digit == 1 {
        0b000_0110
    } else if digit == 2 {
        0b101_1011
    } else if digit == 3 {
        0b100_1111
    } else if digit == 4 {
        0b110_0110
    } else if digit == 5 {
        0b110_1101
    } else if digit == 6 {
        0b111_1101
    } else if digit == 7 {
        0b000_0111
    } else if digit == 8 {
        0b111_1111
    } else {
        0b110_1111
    }
}

/// The seven segments of a digit, lit or not, in the order of
/// `segment_mask`.
pub fn digit_segments(digit: u8) -> (r: [bool; 7])
    requires
        digit < 10,
    ensures
        forall|i: int| 0 <= i < 7 ==> r@[i] == (segment_mask(digit as int) & (1u8 << (i as u8)) != 0),
{
    let mask: u8 = if digit == 0 {
        0b011_1111
    } else if digit == 1 {
        0b000_0110
    } else if digit == 2 {
        0b101_1011
    } else if digit == 3 {
        0b100_1111
    } else if digit == 4 {
        0b110_0110
    } else if digit == 5 {
        0b110_1101
    } else if digit == 6 {
        0b111_1101
    } else if digit == 7 {
        0b000_0111
    } else if digit == 8 {
        0b111_1111
    } else {
        0b110_1111
    };
    let r = [
        mask & 1 != 0,
        mask & 2 != 0,
        mask & 4 != 0,
        mask & 8 != 0,
        mask & 16 != 0,
        mask & 32 != 0,
        mask & 64 != 0,
    ];
    proof {
        assert(1u8 << 0u8 == 1u8) by (bit_vector);
        assert(1u8 << 1u8 == 2u8) by (bit_vector);
        assert(1u8 << 2u8 == 4u8) by (bit_vector);
        assert(1u8 << 3u8 == 8u8) by (bit_vector);
        assert(1u8 << 4u8 == 16u8) by (bit_vector);
        assert(1u8 << 5u8 == 32u8) by (bit_vector);
        assert(1u8 << 6u8 == 64u8) by (bit_vector);
    }
    r
}

} // verus!
