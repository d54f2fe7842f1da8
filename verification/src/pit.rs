//! Intel 8253/8254 **Programmable Interval Timer**: channel 0 drives **IRQ0** (PIC).
//!
//! Default setup: **mode 2** (rate generator), divisor chosen for [`TIMER_HZ`].

use vstd::prelude::*;

use crate::port::PortWrite;

verus! {

pub const CHANNEL0_DATA: u16 = 0x40;

pub const COMMAND: u16 = 0x43;

/// PIT input crystal frequency (Hz) used in IBM PC compatibles.
pub const PIT_BASE_FREQUENCY_HZ: u32 = 1_193_182;

/// Target timer interrupt rate (Hz). Divisor rounded; actual rate is about
/// [`PIT_BASE_FREQUENCY_HZ`] / divisor.
pub const TIMER_HZ: u32 = 100;

/// Divisor for channel 0: `1193182 / TIMER_HZ` (integer division).
pub const DEFAULT_TIMER_DIVISOR: u16 = 11931;

/// Select channel 0, lobyte then hibyte, mode 2 (rate generator), binary count.
pub const CMD_CHANNEL0_RATE_GEN: u8 = 0x34;

/// The command, then the low and the high byte of the divisor.
pub open spec fn pit_setup(divisor: u16) -> Seq<PortWrite> {
    seq![
        PortWrite { port: COMMAND, value: CMD_CHANNEL0_RATE_GEN },
        PortWrite { port: CHANNEL0_DATA, value: (divisor % 256) as u8 },
        PortWrite { port: CHANNEL0_DATA, value: (divisor / 256) as u8 },
    ]
}

/// The writes that program **channel 0** with the given **16-bit divisor** (1 = fastest,
/// 0 = 65536): the command, then the low and the high byte of the divisor.
///
/// They come after the PIC is remapped but **before** **IRQ0** is unmasked, so the first tick does
/// not go to a missing handler.
pub fn init(divisor: u16) -> (writes: [PortWrite; 3])
    ensures
        writes@ == seq![
            PortWrite { port: COMMAND, value: CMD_CHANNEL0_RATE_GEN },
            PortWrite { port: CHANNEL0_DATA, value: (divisor % 256) as u8 },
            PortWrite { port: CHANNEL0_DATA, value: (divisor / 256) as u8 },
        ],
        writes@ == pit_setup(divisor),
{
    let writes: [PortWrite; 3] = [
        PortWrite { port: COMMAND, value: CMD_CHANNEL0_RATE_GEN },
        PortWrite { port: CHANNEL0_DATA, value: (divisor % 256) as u8 },
        PortWrite { port: CHANNEL0_DATA, value: (divisor / 256) as u8 },
    ];
    assert(writes@ =~= seq![
        PortWrite { port: COMMAND, value: CMD_CHANNEL0_RATE_GEN },
        PortWrite { port: CHANNEL0_DATA, value: (divisor % 256) as u8 },
        PortWrite { port: CHANNEL0_DATA, value: (divisor / 256) as u8 },
    ]);
    writes
}

/// The default divisor is the base frequency over the timer rate, rounded down; the rate it gives
/// is less than 1/100 Hz above [`TIMER_HZ`].
pub proof fn law_default_divisor()
    ensures
        DEFAULT_TIMER_DIVISOR == PIT_BASE_FREQUENCY_HZ as int / TIMER_HZ as int,
        PIT_BASE_FREQUENCY_HZ >= TIMER_HZ * DEFAULT_TIMER_DIVISOR,
        100 * PIT_BASE_FREQUENCY_HZ < (100 * TIMER_HZ + 1) * DEFAULT_TIMER_DIVISOR,
{
}

/// The divisor reaches channel 0 whole, low byte first, after the command: its two bytes add up to it.
pub proof fn law_divisor_reaches_channel(divisor: u16)
    ensures
        pit_setup(divisor).len() == 3,
        pit_setup(divisor)[0] == (PortWrite { port: 0x43, value: 0x34 }),
        pit_setup(divisor)[1].port == 0x40 && pit_setup(divisor)[2].port == 0x40,
        pit_setup(divisor)[1].value + 256 * pit_setup(divisor)[2].value == divisor,
{
}

} // verus!
