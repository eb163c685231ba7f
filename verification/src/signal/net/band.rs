//! The numbering of the 2.4 GHz band. Everyone thinks about it in channels.

use vstd::prelude::*;

verus! {

/// The lower edge of the ISM band.
pub const LOW_HZ: u64 = 2_400_000_000;

/// The upper edge. Wi-Fi channel 14 is centred half a megahertz above it.
pub const HIGH_HZ: u64 = 2_483_500_000;

/// The centre of channel 1; channels 1 to 13 are spaced evenly from here.
pub const CHANNEL_1_HZ: u64 = 2_412_000_000;

/// How far apart they are.
pub const SPACING_HZ: u64 = 5_000_000;

/// The highest channel that follows the spacing.
pub const LAST_SPACED: u8 = 13;

/// The centre of channel 14, which does not follow the spacing.
pub const CHANNEL_14_HZ: u64 = 2_484_000_000;

/// How far from a centre a frequency still is on that channel: a quarter of the
/// spacing, so that frequencies between two channels are on neither.
pub const TOLERANCE_HZ: u64 = 1_250_000;

/// The centre frequency of a channel.
pub open spec fn centre_of(channel: int) -> int {
    if channel == 14 {
        CHANNEL_14_HZ as int
    } else {
        CHANNEL_1_HZ + SPACING_HZ * (channel - 1)
    }
}

/// Whether there is such a channel.
pub open spec fn is_channel(channel: int) -> bool {
    1 <= channel <= 14
}

/// Whether a frequency is on a channel.
pub open spec fn is_on(freq_hz: int, channel: int) -> bool {
    &&& is_channel(channel)
    &&& -TOLERANCE_HZ <= freq_hz - centre_of(channel) <= TOLERANCE_HZ
}

/// Whether a frequency lies within the tolerance of a centre.
fn near(freq_hz: u64, centre: u64) -> (r: bool)
    ensures
        r == (-TOLERANCE_HZ <= freq_hz - centre <= TOLERANCE_HZ),
{
    if freq_hz >= centre {
        freq_hz - centre <= TOLERANCE_HZ
    } else {
        centre - freq_hz <= TOLERANCE_HZ
    }
}

/// The channel a frequency is on, where it is on one.
pub fn wifi_channel(freq_hz: u64) -> (r: Option<u8>)
    ensures
        match r {
            Some(n) => is_on(freq_hz as int, n as int),
            None => forall|n: int| !#[trigger] is_on(freq_hz as int, n),
        },
{
    let mut n: u8 = 1;
    while n <= LAST_SPACED
        invariant
            1 <= n <= 14,
            forall|k: int| 1 <= k < n ==> !#[trigger] is_on(freq_hz as int, k),
        decreases 14 - n,
    {
        let centre: u64 = CHANNEL_1_HZ + SPACING_HZ * (n as u64 - 1);
        if near(freq_hz, centre) {
            return Some(n);
        }
        n += 1;
    }
    if near(freq_hz, CHANNEL_14_HZ) {
        return Some(14);
    }
    None
}

/// The centre frequency of a channel, for tuning to it.
pub fn wifi_centre_hz(channel: u8) -> (r: Option<u64>)
    ensures
        match r {
            Some(hz) => is_channel(channel as int) && hz == centre_of(channel as int),
            None => !is_channel(channel as int),
        },
{
    if 1 <= channel && channel <= LAST_SPACED {
        Some(CHANNEL_1_HZ + SPACING_HZ * (channel as u64 - 1))
    } else if channel == 14 {
        Some(CHANNEL_14_HZ)
    } else {
        None
    }
}

/// No frequency is on two channels, so a channel's own centre is on that channel
/// and on no other.
pub proof fn law_channels_do_not_overlap(freq_hz: int, a: int, b: int)
    requires
        is_on(freq_hz, a),
        is_on(freq_hz, b),
    ensures
        a == b,
{
}

/// A channel is found again from its centre.
pub proof fn law_channel_round_trips(channel: int, found: int)
    requires
        is_channel(channel),
        is_on(centre_of(channel), found),
    ensures
        found == channel,
        is_on(centre_of(channel), channel),
{
}

/// Every channel but the fourteenth is centred inside the band, and that one
/// half a megahertz above it.
pub proof fn law_only_the_last_channel_is_outside(channel: int)
    requires
        is_channel(channel),
    ensures
        channel <= 13 <==> LOW_HZ <= centre_of(channel) <= HIGH_HZ,
        centre_of(14) == HIGH_HZ + 500_000,
{
}

/// The channels up to thirteen lie five megahertz apart from 2412 MHz on, and the
/// fourteenth at 2484 MHz; a frequency is on a channel up to a quarter of that spacing off.
pub proof fn law_channels_lie_where_they_are_known_to(channel: int, freq_hz: int)
    requires
        1 <= channel <= 14,
    ensures
        channel <= 13 ==> centre_of(channel) == 2_407_000_000 + 5_000_000 * channel,
        channel == 14 ==> centre_of(channel) == 2_484_000_000,
        is_on(freq_hz, channel) <==> centre_of(channel) - 1_250_000 <= freq_hz
            <= centre_of(channel) + 1_250_000,
{
}

} // verus!
