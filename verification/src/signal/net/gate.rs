//! Which radios can work in the 2.4 GHz band, and which modes their sample rate
//! admits. A radio is judged by what it declares, never by its name.

use crate::hardware::DeviceCapabilities;
use crate::signal::net::band;
use crate::text;
use crate::units;
use vstd::prelude::*;

verus! {

/// The lowest centre frequency anything in the section tunes to.
pub const LOWEST_CENTRE_HZ: u64 = 2_402_000_000;

/// The top of the band. The whole band is required: a survey that silently
/// covered part of it would be worse than none.
pub const HIGHEST_CENTRE_HZ: u64 = band::HIGH_HZ;

/// A way of transmitting, and what it costs to receive.
#[derive(Clone, Copy, Debug)]
pub struct Phy {
    pub name: &'static str,
    /// The lowest sample rate at which it can be received.
    pub rate_hz: u64,
    pub occupied_hz: u64,
}

/// The name, the rate and the bandwidth of every mode, cheapest first.
pub open spec fn modes() -> Seq<(Seq<char>, u64, u64)> {
    seq![
        ("BT BR/EDR"@, 2_000_000u64, 1_000_000u64),
        ("BLE 1M"@, 2_000_000u64, 1_100_000u64),
        ("BLE Coded"@, 2_000_000u64, 1_100_000u64),
        ("BLE 2M"@, 4_000_000u64, 2_200_000u64),
        ("802.11a/g/n HT20"@, 20_000_000u64, 16_600_000u64),
        ("802.11b DSSS"@, 22_000_000u64, 22_000_000u64),
        ("802.11n HT40"@, 40_000_000u64, 36_000_000u64),
        ("802.11ac VHT80"@, 80_000_000u64, 78_000_000u64),
    ]
}

/// Every mode the section could offer, cheapest first.
pub fn phys() -> (out: Vec<Phy>)
    ensures
        out@.map_values(|p: Phy| (p.name@, p.rate_hz, p.occupied_hz)) == modes(),
{
    let out: Vec<Phy> = vec![
        Phy { name: "BT BR/EDR", rate_hz: 2_000_000, occupied_hz: 1_000_000 },
        Phy { name: "BLE 1M", rate_hz: 2_000_000, occupied_hz: 1_100_000 },
        Phy { name: "BLE Coded", rate_hz: 2_000_000, occupied_hz: 1_100_000 },
        Phy { name: "BLE 2M", rate_hz: 4_000_000, occupied_hz: 2_200_000 },
        Phy { name: "802.11a/g/n HT20", rate_hz: 20_000_000, occupied_hz: 16_600_000 },
        Phy { name: "802.11b DSSS", rate_hz: 22_000_000, occupied_hz: 22_000_000 },
        Phy { name: "802.11n HT40", rate_hz: 40_000_000, occupied_hz: 36_000_000 },
        Phy { name: "802.11ac VHT80", rate_hz: 80_000_000, occupied_hz: 78_000_000 },
    ];
    assert(out@.map_values(|p: Phy| (p.name@, p.rate_hz, p.occupied_hz)) == modes());
    out
}

/// The rate of the cheapest mode, read off the table.
pub fn minimum_rate_hz() -> (hz: u64)
    ensures
        exists|i: int| 0 <= i < modes().len() && #[trigger] modes()[i].1 == hz,
        forall|i: int| 0 <= i < modes().len() ==> hz <= #[trigger] modes()[i].1,
{
    let all = phys();
    let ghost table = all@.map_values(|p: Phy| (p.name@, p.rate_hz, p.occupied_hz));
    assert(modes().len() == 8);
    assert(all@.len() == table.len());
    assert(table[0].1 == all@[0].rate_hz);
    assert(modes()[0].1 == all@[0].rate_hz);
    let mut least: u64 = all[0].rate_hz;
    let mut i: usize = 1;
    while i < all.len()
        invariant
            1 <= i <= all@.len(),
            table == all@.map_values(|p: Phy| (p.name@, p.rate_hz, p.occupied_hz)),
            table == modes(),
            exists|k: int| 0 <= k < modes().len() && #[trigger] modes()[k].1 == least,
            forall|k: int| 0 <= k < i ==> least <= #[trigger] modes()[k].1,
        decreases all@.len() - i,
    {
        assert(table[i as int].1 == all@[i as int].rate_hz);
        if all[i].rate_hz < least {
            least = all[i].rate_hz;
            assert(modes()[i as int].1 == least);
        }
        i += 1;
    }
    least
}

/// Whether a tuning range covers the whole band.
pub open spec fn covers_band(caps: DeviceCapabilities) -> bool {
    caps.freq_min_hz <= LOWEST_CENTRE_HZ && HIGHEST_CENTRE_HZ <= caps.freq_max_hz
}

/// Whether the radio's declared tuning range covers the whole band.
pub fn reaches_band(caps: &DeviceCapabilities) -> (r: bool)
    ensures
        r == covers_band(*caps),
{
    caps.freq_min_hz <= LOWEST_CENTRE_HZ && caps.freq_max_hz >= HIGHEST_CENTRE_HZ
}

/// Whether the radio's sample rate can receive a mode.
pub fn admits(caps: &DeviceCapabilities, phy: &Phy) -> (r: bool)
    ensures
        r == (caps.sample_rate_max_hz >= phy.rate_hz),
{
    caps.sample_rate_max_hz >= phy.rate_hz
}

/// The sentence for a radio that does not reach the band.
pub open spec fn range_refusal(caps: DeviceCapabilities) -> Seq<char> {
    "NET section hidden: this radio tunes "@ + units::mhz_thousandths(caps.freq_min_hz) + " to "@
        + units::mhz_thousandths(caps.freq_max_hz) + " MHz, and the 2.4 GHz band needs "@
        + units::mhz_thousandths(LOWEST_CENTRE_HZ) + " to "@ + units::mhz_thousandths(
        HIGHEST_CENTRE_HZ,
    )
}

/// The sentence for a radio too slow for the cheapest mode.
pub open spec fn rate_refusal(caps: DeviceCapabilities) -> Seq<char> {
    "NET section hidden: this radio reaches "@ + units::mhz_thousandths(caps.sample_rate_max_hz)
        + " Msps, and the cheapest mode here needs "@ + units::mhz_thousandths(2_000_000)
}

/// Whether the section appears, and if not, the one line that says why: the
/// range comes first, the rate second.
pub fn verdict(caps: &DeviceCapabilities) -> (r: Result<(), String>)
    ensures
        r is Ok <==> covers_band(*caps) && caps.sample_rate_max_hz >= 2_000_000,
        r matches Err(why) ==> why@ == if covers_band(*caps) {
            rate_refusal(*caps)
        } else {
            range_refusal(*caps)
        },
{
    if !reaches_band(caps) {
        let mut t: Vec<char> = text::to_chars("NET section hidden: this radio tunes ");
        units::push_mhz_thousandths(&mut t, caps.freq_min_hz);
        text::push_str(&mut t, " to ");
        units::push_mhz_thousandths(&mut t, caps.freq_max_hz);
        text::push_str(&mut t, " MHz, and the 2.4 GHz band needs ");
        units::push_mhz_thousandths(&mut t, LOWEST_CENTRE_HZ);
        text::push_str(&mut t, " to ");
        units::push_mhz_thousandths(&mut t, HIGHEST_CENTRE_HZ);
        return Err(text::from_chars(t.as_slice()));
    }
    let minimum: u64 = minimum_rate_hz();
    proof {
        assert(modes()[0].1 == 2_000_000);
        assert(minimum == 2_000_000);
    }
    if caps.sample_rate_max_hz < minimum {
        let mut t: Vec<char> = text::to_chars("NET section hidden: this radio reaches ");
        units::push_mhz_thousandths(&mut t, caps.sample_rate_max_hz);
        text::push_str(&mut t, " Msps, and the cheapest mode here needs ");
        units::push_mhz_thousandths(&mut t, minimum);
        return Err(text::from_chars(t.as_slice()));
    }
    Ok(())
}

/// A radio that covers the band can be tuned to every frequency of it that anything in
/// the section tunes to.
pub proof fn law_a_covered_band_can_be_tuned_to(caps: DeviceCapabilities, hz: u64)
    requires
        covers_band(caps),
        2_402_000_000 <= hz <= 2_483_500_000,
    ensures
        caps.freq_min_hz <= hz <= caps.freq_max_hz,
{
}

/// A radio that covers less than the band does not cover it.
pub proof fn law_part_of_the_band_is_not_the_band(caps: DeviceCapabilities, hz: u64)
    requires
        2_402_000_000 <= hz <= 2_483_500_000,
        hz < caps.freq_min_hz || caps.freq_max_hz < hz,
    ensures
        !covers_band(caps),
{
}

/// The modes stand cheapest first, and none is wider than the rate it is received at.
pub proof fn law_modes_stand_cheapest_first(i: int, j: int)
    requires
        0 <= i <= j < modes().len(),
    ensures
        modes()[i].1 <= modes()[j].1,
        modes()[j].2 <= modes()[j].1,
{
}

} // verus!
