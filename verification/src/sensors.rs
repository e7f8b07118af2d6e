//! Folding one cycle's sensor outcomes into a [`Sample`] that never fails.
use vstd::prelude::*;
use crate::aht20;
use crate::battery;

verus! {

/// One cycle's worth of readings. Missing fields (`None`) survived a sensor
/// failure and are omitted from the advertisement.
#[derive(Clone, Copy, Debug, PartialEq, Eq, Structural)]
pub struct Sample {
    /// Per-cycle counter (wraps at 256); becomes the packet ID.
    pub cycle_id: u8,
    /// Temperature in degrees C x 100, or `None` if the AHT20 read failed.
    pub temperature_c_centi: Option<i16>,
    /// Relative humidity in % x 100, or `None` if the AHT20 read failed.
    pub humidity_rh_centi: Option<u16>,
    /// Battery voltage in mV, or `None` if the ADC read failed or was implausible.
    pub battery_mv: Option<u16>,
}

/// The counter value after `id`: one more, wrapping at 256.
pub open spec fn next_cycle_id(id: u8) -> u8 {
    ((id + 1) % 256) as u8
}

/// The sample a cycle with counter `id` and these outcomes yields.
pub open spec fn sample_spec(
    id: u8,
    climate: Result<aht20::Reading, aht20::Error>,
    battery: Result<u16, battery::Error>,
) -> Sample {
    Sample {
        cycle_id: id,
        temperature_c_centi: match climate {
            Ok(r) => Some(r.temperature_c_centi),
            Err(_) => None,
        },
        humidity_rh_centi: match climate {
            Ok(r) => Some(r.humidity_rh_centi),
            Err(_) => None,
        },
        battery_mv: match battery {
            Ok(mv) => Some(mv),
            Err(_) => None,
        },
    }
}

/// The rolling cycle counter of the sensor node.
#[derive(Debug)]
pub struct Sensors {
    cycle_id: u8,
}

impl Sensors {
    /// The counter value of the last cycle (0 before the first).
    pub closed spec fn last_cycle_id(&self) -> u8 {
        self.cycle_id
    }

    /// A node that has run no cycle yet.
    pub fn new() -> (s: Self)
        ensures
            s.last_cycle_id() == 0,
    {
        Sensors { cycle_id: 0 }
    }

    /// Start the next cycle and fold its AHT20 and battery outcomes into a
    /// sample; a failed reading becomes a missing field, never a failure.
    pub fn sample_all(
        &mut self,
        climate: Result<aht20::Reading, aht20::Error>,
        battery: Result<u16, battery::Error>,
    ) -> (s: Sample)
        ensures
            final(self).last_cycle_id() == next_cycle_id(old(self).last_cycle_id()),
            s == sample_spec(final(self).last_cycle_id(), climate, battery),
            s.cycle_id == final(self).last_cycle_id(),
            climate is Ok ==> s.temperature_c_centi == Some(climate->Ok_0.temperature_c_centi)
                && s.humidity_rh_centi == Some(climate->Ok_0.humidity_rh_centi),
            climate is Err ==> s.temperature_c_centi is None && s.humidity_rh_centi is None,
            battery is Ok ==> s.battery_mv == Some(battery->Ok_0),
            battery is Err ==> s.battery_mv is None,
    {
        self.cycle_id = self.cycle_id.wrapping_add(1);
        let (temperature_c_centi, humidity_rh_centi) = match climate {
            Ok(r) => (Some(r.temperature_c_centi), Some(r.humidity_rh_centi)),
            Err(_) => (None, None),
        };
        let battery_mv = match battery {
            Ok(mv) => Some(mv),
            Err(_) => None,
        };
        Sample { cycle_id: self.cycle_id, temperature_c_centi, humidity_rh_centi, battery_mv }
    }
}

/// A present field carries the sensor's value unchanged, a failed sensor
/// leaves its fields empty, and temperature and humidity come and go together.
pub proof fn lemma_sample_fields(
    id: u8,
    climate: Result<aht20::Reading, aht20::Error>,
    battery: Result<u16, battery::Error>,
)
    ensures
        sample_spec(id, climate, battery).cycle_id == id,
        climate is Ok ==> sample_spec(id, climate, battery).temperature_c_centi == Some(
            climate->Ok_0.temperature_c_centi,
        ) && sample_spec(id, climate, battery).humidity_rh_centi == Some(
            climate->Ok_0.humidity_rh_centi,
        ),
        climate is Err ==> sample_spec(id, climate, battery).temperature_c_centi is None
            && sample_spec(id, climate, battery).humidity_rh_centi is None,
        battery is Ok ==> sample_spec(id, climate, battery).battery_mv == Some(battery->Ok_0),
        battery is Err ==> sample_spec(id, climate, battery).battery_mv is None,
{
}

} // verus!
verus! {

/// The counter value after `k` cycles of a fresh node.
pub open spec fn cycle_id_after(k: nat) -> u8
    decreases k,
{
    if k == 0 {
        0
    } else {
        next_cycle_id(cycle_id_after((k - 1) as nat))
    }
}

/// The k-th sample of a fresh node carries cycle id `k mod 256`: the IDs run
/// 1, 2, ..., 255, 0, 1, ... and never skip or repeat within 256 cycles.
pub proof fn lemma_cycle_id_after(k: nat)
    ensures
        cycle_id_after(k) == k % 256,
    decreases k,
{
    if k > 0 {
        lemma_cycle_id_after((k - 1) as nat);
        let j = (k - 1) as nat;
        assert((j % 256 + 1) % 256 == k % 256) by (nonlinear_arith)
            requires
                k == j + 1,
        ;
    }
}

/// Running `sample_all` on a node whose counter is `cycle_id_after(k)`
/// yields the sample of cycle `k + 1` and leaves the counter there.
pub proof fn lemma_sample_all_counts(s: Sensors, t: Sensors, k: nat, id: u8)
    requires
        s.last_cycle_id() == cycle_id_after(k),
        t.last_cycle_id() == next_cycle_id(s.last_cycle_id()),
        id == t.last_cycle_id(),
    ensures
        id == (k + 1) % 256,
        t.last_cycle_id() == cycle_id_after(k + 1),
{
    lemma_cycle_id_after(k + 1);
}

} // verus!
