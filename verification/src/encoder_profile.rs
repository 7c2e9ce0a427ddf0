//! Call counters and accumulated times of the encoder's main stages.
use std::time::{Duration, Instant};
use vstd::prelude::*;

verus! {

/// `x + y` wrapped into `0..=max`, as `wrapping_add` on an unsigned type whose
/// largest value is `max` computes it.
pub open spec fn wrapped_add(x: int, y: int, max: int) -> int {
    if x + y > max {
        x + y - (max + 1)
    } else {
        x + y
    }
}

/// Number of calls and total time in nanoseconds of each profiled stage.
pub struct ProfileCounters {
    pub mdct_forward_calls: usize,
    pub mdct_forward_time: u64,
    pub compute_band_energies_calls: usize,
    pub compute_band_energies_time: u64,
    pub quant_coarse_energy_calls: usize,
    pub quant_coarse_energy_time: u64,
    pub quant_all_bands_calls: usize,
    pub quant_all_bands_time: u64,
    pub pvq_search_calls: usize,
    pub pvq_search_time: u64,
    pub icwrs_calls: usize,
    pub icwrs_time: u64,
    pub icwrs_ncwrs_fallbacks: usize,
    pub encode_pulses_calls: usize,
    pub encode_pulses_time: u64,
}

impl ProfileCounters {
    /// Whether every counter and every accumulated time is 0.
    pub open spec fn is_zero(&self) -> bool {
        &&& self.mdct_forward_calls == 0
        &&& self.mdct_forward_time == 0
        &&& self.compute_band_energies_calls == 0
        &&& self.compute_band_energies_time == 0
        &&& self.quant_coarse_energy_calls == 0
        &&& self.quant_coarse_energy_time == 0
        &&& self.quant_all_bands_calls == 0
        &&& self.quant_all_bands_time == 0
        &&& self.pvq_search_calls == 0
        &&& self.pvq_search_time == 0
        &&& self.icwrs_calls == 0
        &&& self.icwrs_time == 0
        &&& self.icwrs_ncwrs_fallbacks == 0
        &&& self.encode_pulses_calls == 0
        &&& self.encode_pulses_time == 0
    }

    /// Sets every counter and every accumulated time back to 0.
    pub fn reset(&mut self)
        ensures
            final(self).is_zero(),
    {
        self.mdct_forward_calls = 0;
        self.mdct_forward_time = 0;
        self.compute_band_energies_calls = 0;
        self.compute_band_energies_time = 0;
        self.quant_coarse_energy_calls = 0;
        self.quant_coarse_energy_time = 0;
        self.quant_all_bands_calls = 0;
        self.quant_all_bands_time = 0;
        self.pvq_search_calls = 0;
        self.pvq_search_time = 0;
        self.icwrs_calls = 0;
        self.icwrs_time = 0;
        self.icwrs_ncwrs_fallbacks = 0;
        self.encode_pulses_calls = 0;
        self.encode_pulses_time = 0;
    }
}

/// Records one profiled call that took `elapsed_ns` nanoseconds: the call
/// counter goes up by one and the timer by `elapsed_ns`, both wrapping.
pub fn record_call(counter: &mut usize, timer: &mut u64, elapsed_ns: u64)
    ensures
        *final(counter) == wrapped_add(*old(counter) as int, 1, usize::MAX as int),
        *final(timer) == wrapped_add(*old(timer) as int, elapsed_ns as int, u64::MAX as int),
{
    *counter = counter.wrapping_add(1);
    *timer = timer.wrapping_add(elapsed_ns);
}

#[verifier::external_type_specification]
#[verifier::external_body]
pub struct ExInstant(Instant);

/// Calls `std::time::Instant::now`. The instant depends on the clock, so
/// nothing is promised of it.
#[verifier::external_body]
fn instant_now() -> (t: Instant) {
    Instant::now()
}

/// Calls `std::time::Instant::elapsed`. The duration depends on the clock, so
/// nothing is promised of it.
#[verifier::external_body]
fn instant_elapsed(start: &Instant) -> (d: Duration) {
    start.elapsed()
}

/// Calls `std::time::Duration::as_nanos`. A `Duration` is opaque here, so
/// nothing is stated of the count of nanoseconds it returns.
#[verifier::external_body]
fn duration_as_nanos(d: &Duration) -> (ns: u128) {
    d.as_nanos()
}

/// Runs `f`, counts the call in `counter` and returns what `f` returned.
///
/// The time the call took, in nanoseconds (the low 64 bits of the count), is
/// added to `timer` through `record_call`. That time comes from the clock, so
/// no clause here says anything of `timer` after the call.
pub fn profile_call<T>(counter: &mut usize, timer: &mut u64, f: impl FnOnce() -> T) -> (result: T)
    requires
        f.requires(()),
    ensures
        f.ensures((), result),
        *final(counter) == wrapped_add(*old(counter) as int, 1, usize::MAX as int),
{
    let start = instant_now();
    let result = f();
    let elapsed = instant_elapsed(&start);
    let elapsed_ns: u64 = duration_as_nanos(&elapsed) as u64;
    record_call(counter, timer, elapsed_ns);
    result
}

} // verus!
