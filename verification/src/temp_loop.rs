//! The control loop: what each tick makes of the temperatures, and how long the daemon sleeps.

use crate::config::{config_views, FanConfig};
use crate::error::Error;
use crate::fan_controller::{
    clamped, is_highest, writes, CurvePoint, FanController, FanWrite,
};
use crate::non_empty::{fan_at, fan_count, fan_list};
use crate::reload::{reload_result, try_reload_curves};
use crate::sensors::{has_reading, SensorReadings};
use crate::text::decimal;
use vstd::prelude::*;

verus! {

/// A temperature this much above the smoothed one is followed at once, in degrees.
pub const SPIKE_THRESHOLD_C: u8 = 5;

/// The weight of a new temperature in the smoothed one after a short sleep, in hundredths.
pub const ALPHA_SHORT: u8 = 2;

/// The weight of a new temperature in the smoothed one after a long sleep, in hundredths.
pub const ALPHA_LONG: u8 = 18;

/// The sleep after a tick that changed a speed, in milliseconds.
pub const SHORT_SLEEP_MS: u64 = 100;

/// The sleep after a tick that changed none, in milliseconds.
pub const LONG_SLEEP_MS: u64 = 1000;

/// The smoothed temperature of a fan: what smoothing made of it, or the temperature itself where
/// there was nothing to smooth it with.
pub open spec fn smoothed(fan_temp: u8, ema: Option<u8>, new_ema: u8) -> u8 {
    match ema {
        Some(_) => new_ema,
        None => fan_temp,
    }
}

/// The temperature that the speed follows. A rising edge is followed at once, anything else as
/// smoothly as the smoothed temperature goes.
pub open spec fn effective_temp(fan_temp: u8, ema: Option<u8>, new_ema: u8) -> u8 {
    match ema {
        Some(ema) if fan_temp <= ema + SPIKE_THRESHOLD_C => new_ema,
        _ => fan_temp,
    }
}

/// How much a speed has to change to be set: a hundredth of the range, and five at least.
pub open spec fn pwm_threshold(min: u32, max: u32) -> int {
    let hundredth = (max - min) / 100;
    if hundredth > 5 {
        hundredth
    } else {
        5
    }
}

/// How far apart two speeds are.
pub open spec fn distance(a: u32, b: u32) -> int {
    if a >= b {
        a - b
    } else {
        b - a
    }
}

/// Whether the speed has to be set, where `last` was set before.
pub open spec fn has_to_be_set(min: u32, max: u32, last: u32, speed: u32) -> bool {
    distance(speed, last) >= pwm_threshold(min, max)
}

/// What the loop remembers of a fan.
#[derive(Clone, Copy, Debug, PartialEq, Eq, Structural)]
pub struct FanTempTracker {
    /// The smoothed temperature in whole degrees.
    pub ema: Option<u8>,
    /// The speed that was set last; zero before any was.
    pub last_pwm: u32,
}

/// What the loop remembers of a fan after it should have this speed.
pub open spec fn after_speed(
    tracker: FanTempTracker,
    fan: FanController,
    speed: u32,
) -> FanTempTracker {
    if has_to_be_set(fan.min(), fan.max(), tracker.last_pwm, speed) {
        FanTempTracker { ema: tracker.ema, last_pwm: speed }
    } else {
        tracker
    }
}

/// What sets this speed of a fan, within the fan's limits, where it has to be set.
pub open spec fn sets_speed(
    write: Option<FanWrite>,
    tracker: FanTempTracker,
    fan: FanController,
    speed: u32,
) -> bool {
    if has_to_be_set(fan.min(), fan.max(), tracker.last_pwm, speed) {
        write matches Some(write) && writes(
            write,
            fan.target_file(),
            decimal(clamped(speed, fan.min(), fan.max()) as nat),
        )
    } else {
        write is None
    }
}

impl FanTempTracker {
    /// Nothing is known of the fan yet.
    pub fn new() -> (r: FanTempTracker)
        ensures
            r == (FanTempTracker { ema: None, last_pwm: 0 }),
    {
        FanTempTracker { ema: None, last_pwm: 0 }
    }

    /// Takes the fan's temperature and what smoothing made of it, and gives the temperature that
    /// the speed follows. The first temperature of a fan has nothing to be smoothed with.
    pub fn follow(&mut self, fan_temp: u8, new_ema: u8) -> (r: u8)
        ensures
            r == effective_temp(fan_temp, old(self).ema, new_ema),
            *final(self) == (FanTempTracker {
                ema: Some(smoothed(fan_temp, old(self).ema, new_ema)),
                last_pwm: old(self).last_pwm,
            }),
    {
        match self.ema {
            Some(ema) => {
                self.ema = Some(new_ema);
                if fan_temp > ema.saturating_add(SPIKE_THRESHOLD_C) {
                    fan_temp
                } else {
                    new_ema
                }
            },
            None => {
                self.ema = Some(fan_temp);
                fan_temp
            },
        }
    }

    /// Takes the speed that the fan should have, and gives what sets it where it has to be set.
    pub fn set(&mut self, fan: &FanController, speed: u32) -> (r: Option<FanWrite>)
        requires
            fan.min() <= fan.max(),
        ensures
            *final(self) == after_speed(*old(self), *fan, speed),
            sets_speed(r, *old(self), *fan, speed),
    {
        let hundredth: u32 = (fan.max_speed() - fan.min_speed()) / 100;
        let threshold: u32 = if hundredth > 5 {
            hundredth
        } else {
            5
        };
        let change: u32 = if speed >= self.last_pwm {
            speed - self.last_pwm
        } else {
            self.last_pwm - speed
        };
        if change >= threshold {
            self.last_pwm = speed;
            Some(fan.set_speed(speed))
        } else {
            None
        }
    }
}

/// Whether every fan finds all of its temperatures.
pub open spec fn all_find_all(fans: Seq<FanController>, readings: SensorReadings) -> bool {
    forall|i: int| 0 <= i < fans.len() ==> (#[trigger] fans[i]).finds_all(readings)
}

/// Whether every fan finds all of its temperatures.
pub fn have_all(fans: &nonempty::NonEmpty<FanController>, readings: &SensorReadings) -> (r: bool)
    ensures
        r == all_find_all(fan_list(*fans), *readings),
{
    let n: usize = fan_count(fans);
    let mut i: usize = 0;
    while i < n
        invariant
            i <= n,
            n == fan_list(*fans).len(),
            forall|j: int| 0 <= j < i ==> (#[trigger] fan_list(*fans)[j]).finds_all(*readings),
        decreases n - i,
    {
        if let Some(fan) = fan_at(fans, i) {
            if !fan.has_all(readings) {
                return false;
            }
        }
        i = i + 1;
    }
    true
}

/// The temperature of each fan: the highest across its sensors.
fn fan_temps(
    fans: &nonempty::NonEmpty<FanController>,
    readings: &SensorReadings,
) -> (r: Vec<u8>)
    requires
        all_find_all(fan_list(*fans), *readings),
    ensures
        r.len() == fan_list(*fans).len(),
        forall|i: int| #![trigger r@[i]]
            0 <= i < r.len() ==> is_highest(*readings, fan_list(*fans)[i].indices(), r@[i]),
{
    let n: usize = fan_count(fans);
    let mut r: Vec<u8> = Vec::new();
    let mut i: usize = 0;
    while i < n
        invariant
            i <= n,
            n == fan_list(*fans).len(),
            all_find_all(fan_list(*fans), *readings),
            r.len() == i,
            forall|j: int| #![trigger r@[j]]
                0 <= j < i ==> is_highest(*readings, fan_list(*fans)[j].indices(), r@[j]),
        decreases n - i,
    {
        assert(fan_list(*fans)[i as int].finds_all(*readings));
        if let Some(fan) = fan_at(fans, i) {
            r.push(fan.compute_max_temp(readings));
        }
        i = i + 1;
    }
    r
}

/// Whether no fan has its limits the wrong way round.
pub open spec fn all_limits_ordered(fans: Seq<FanController>) -> bool {
    forall|i: int| 0 <= i < fans.len() ==> (#[trigger] fans[i]).min() <= fans[i].max()
}

/// Whether no fan has its limits the wrong way round.
pub fn have_ordered_limits(fans: &nonempty::NonEmpty<FanController>) -> (r: bool)
    ensures
        r == all_limits_ordered(fan_list(*fans)),
{
    let n: usize = fan_count(fans);
    let mut i: usize = 0;
    while i < n
        invariant
            i <= n,
            n == fan_list(*fans).len(),
            forall|j: int|
                0 <= j < i ==> (#[trigger] fan_list(*fans)[j]).min() <= fan_list(*fans)[j].max(),
        decreases n - i,
    {
        if let Some(fan) = fan_at(fans, i) {
            if fan.min_speed() > fan.max_speed() {
                return false;
            }
        }
        i = i + 1;
    }
    true
}

/// Where each fan's temperature lies on its speed curve, if it does.
fn curve_points(fans: &nonempty::NonEmpty<FanController>, temps: &Vec<u8>) -> (r: Vec<
    Option<CurvePoint>,
>)
    requires
        temps.len() == fan_list(*fans).len(),
        all_limits_ordered(fan_list(*fans)),
    ensures
        r.len() == temps.len(),
        forall|i: int| #![trigger r@[i]]
            0 <= i < r.len() ==> fan_list(*fans)[i].lies_at(temps@[i], r@[i]),
{
    let n: usize = fan_count(fans);
    let mut r: Vec<Option<CurvePoint>> = Vec::new();
    let mut i: usize = 0;
    while i < n
        invariant
            i <= n,
            n == temps.len(),
            n == fan_list(*fans).len(),
            all_limits_ordered(fan_list(*fans)),
            r.len() == i,
            forall|j: int| #![trigger r@[j]]
                0 <= j < i ==> fan_list(*fans)[j].lies_at(temps@[j], r@[j]),
        decreases n - i,
    {
        assert(fan_list(*fans)[i as int].min() <= fan_list(*fans)[i as int].max());
        if let Some(fan) = fan_at(fans, i) {
            r.push(fan.curve_point(temps[i]));
        }
        i = i + 1;
    }
    r
}

/// Whether every speed that a curve gives can be held.
pub open spec fn all_speeds_fit(
    fans: Seq<FanController>,
    temps: Seq<u8>,
    shares: Seq<u32>,
) -> bool {
    forall|i: int|
        0 <= i < fans.len() ==> (#[trigger] fans[i]).on_curve(temps[i]) ==> fans[i].min()
            + shares[i] <= u32::MAX
}

/// What the loop does next.
#[derive(Clone, Copy, Debug, PartialEq, Eq, Structural)]
pub enum Step {
    /// Look whether a signal came.
    Begin,
    /// End.
    Stop,
    /// Read the configuration again.
    Reload,
    /// Read the sensors.
    Read,
    /// Smooth the temperatures.
    Smooth,
    /// Find the place of the speeds on their curves.
    Speed,
    /// Sleep.
    Sleep,
}

/// The state of the loop.
#[derive(Debug)]
pub struct TempLoop {
    /// What is remembered of each fan.
    pub trackers: Vec<FanTempTracker>,
    /// The temperature of each fan in this tick: its own, then the one that its speed follows.
    pub temps: Vec<u8>,
    /// The last sleep was a long one.
    pub was_long_sleep: bool,
    /// Some speed was set in this tick.
    pub any_changed: bool,
    /// What comes next.
    pub step: Step,
}

/// What the loop does after it looked whether a signal came.
pub open spec fn after_signals(stop: bool, reload: bool) -> Step {
    if stop {
        Step::Stop
    } else if reload {
        Step::Reload
    } else {
        Step::Read
    }
}

/// How long to sleep after a tick, in milliseconds.
pub open spec fn sleep_after(changed: bool) -> u64 {
    if changed {
        SHORT_SLEEP_MS
    } else {
        LONG_SLEEP_MS
    }
}

/// The weight of a new temperature in the smoothed one after a sleep, in hundredths.
pub open spec fn weight_after(long_sleep: bool) -> u8 {
    if long_sleep {
        ALPHA_LONG
    } else {
        ALPHA_SHORT
    }
}

/// The loop once a tick is over.
pub open spec fn ended(before: TempLoop) -> TempLoop {
    TempLoop {
        was_long_sleep: !before.any_changed,
        any_changed: false,
        step: Step::Begin,
        ..before
    }
}

/// The loop after it looked whether a signal came.
pub open spec fn begun(before: TempLoop, stop: bool, reload: bool) -> TempLoop {
    TempLoop { step: after_signals(stop, reload), ..before }
}

/// The loop after the configuration was read again, whatever that came to.
pub open spec fn reloaded(before: TempLoop) -> TempLoop {
    TempLoop { step: Step::Read, ..before }
}

/// Whether the sensors were read: each fan has the highest of its temperatures.
pub open spec fn read_done(
    before: TempLoop,
    after: TempLoop,
    fans: Seq<FanController>,
    readings: SensorReadings,
) -> bool {
    &&& after.step == Step::Smooth
    &&& after.trackers == before.trackers
    &&& after.was_long_sleep == before.was_long_sleep
    &&& after.any_changed == before.any_changed
    &&& after.temps.len() == fans.len()
    &&& forall|i: int| #![trigger after.temps@[i]]
        0 <= i < fans.len() ==> is_highest(readings, fans[i].indices(), after.temps@[i])
}

/// Whether the temperatures were smoothed: each fan has the one that its speed follows, with the
/// place of that on the fan's curve.
pub open spec fn smooth_done(
    before: TempLoop,
    after: TempLoop,
    fans: Seq<FanController>,
    new_emas: Seq<u8>,
    points: Seq<Option<CurvePoint>>,
) -> bool {
    &&& after.step == Step::Speed
    &&& after.was_long_sleep == before.was_long_sleep
    &&& after.any_changed == before.any_changed
    &&& after.trackers.len() == before.trackers.len()
    &&& after.temps.len() == before.temps.len()
    &&& points.len() == fans.len()
    &&& forall|i: int| #![trigger after.temps@[i]]
        0 <= i < fans.len() ==> after.temps@[i] == effective_temp(
            before.temps@[i],
            before.trackers@[i].ema,
            new_emas[i],
        )
    &&& forall|i: int| #![trigger after.trackers@[i]]
        0 <= i < fans.len() ==> after.trackers@[i] == (FanTempTracker {
            ema: Some(smoothed(before.temps@[i], before.trackers@[i].ema, new_emas[i])),
            last_pwm: before.trackers@[i].last_pwm,
        })
    &&& forall|i: int| #![trigger points[i]]
        0 <= i < fans.len() ==> fans[i].lies_at(after.temps@[i], points[i])
}

/// The speed that a fan should have in this tick, where the curve adds this to its least speed.
pub open spec fn wanted(
    state: TempLoop,
    fans: Seq<FanController>,
    shares: Seq<u32>,
    i: int,
) -> u32 {
    fans[i].speed_at(state.temps@[i], shares[i]) as u32
}

/// Whether the speeds were decided: each fan has what sets its speed, where that has to be set.
pub open spec fn speed_done(
    before: TempLoop,
    after: TempLoop,
    fans: Seq<FanController>,
    shares: Seq<u32>,
    writes_out: Seq<Option<FanWrite>>,
) -> bool {
    &&& after.step == Step::Sleep
    &&& after.was_long_sleep == before.was_long_sleep
    &&& after.temps == before.temps
    &&& after.trackers.len() == before.trackers.len()
    &&& writes_out.len() == fans.len()
    &&& forall|i: int| #![trigger writes_out[i]]
        0 <= i < fans.len() ==> sets_speed(
            writes_out[i],
            before.trackers@[i],
            fans[i],
            wanted(before, fans, shares, i),
        )
    &&& forall|i: int| #![trigger after.trackers@[i]]
        0 <= i < fans.len() ==> after.trackers@[i] == after_speed(
            before.trackers@[i],
            fans[i],
            wanted(before, fans, shares, i),
        )
    &&& after.any_changed <==> before.any_changed || exists|i: int|
        0 <= i < fans.len() && (#[trigger] writes_out[i]) is Some
}

impl TempLoop {
    /// The loop is about these fans, and has a temperature for each where it needs one.
    pub open spec fn is_about(self, fans: Seq<FanController>) -> bool {
        &&& self.trackers.len() == fans.len()
        &&& self.step == Step::Smooth || self.step == Step::Speed ==> self.temps.len() == fans.len()
    }

    /// The loop before its first tick.
    pub fn new(fans: &nonempty::NonEmpty<FanController>) -> (r: TempLoop)
        ensures
            r.is_about(fan_list(*fans)),
            r.trackers@ == Seq::new(
                fan_list(*fans).len(),
                |i: int| (FanTempTracker { ema: None, last_pwm: 0 }),
            ),
            !r.was_long_sleep,
            !r.any_changed,
            r.step == Step::Begin,
    {
        let n: usize = fan_count(fans);
        let mut trackers: Vec<FanTempTracker> = Vec::new();
        let mut i: usize = 0;
        while i < n
            invariant
                i <= n,
                trackers.len() == i,
                forall|j: int|
                    0 <= j < i ==> (#[trigger] trackers@[j]) == (FanTempTracker {
                        ema: None,
                        last_pwm: 0,
                    }),
            decreases n - i,
        {
            trackers.push(FanTempTracker::new());
            i = i + 1;
        }
        TempLoop {
            trackers,
            temps: Vec::new(),
            was_long_sleep: false,
            any_changed: false,
            step: Step::Begin,
        }
    }

    /// Begins a tick: a signal to stop comes before one to reload, and a reload before the sensors.
    pub fn begin(&mut self, stop: bool, reload: bool) -> (r: Step)
        requires
            old(self).step == Step::Begin,
        ensures
            *final(self) == begun(*old(self), stop, reload),
            r == after_signals(stop, reload),
    {
        self.step = if stop {
            Step::Stop
        } else if reload {
            Step::Reload
        } else {
            Step::Read
        };
        self.step
    }

    /// Takes what loading the configuration came to, and gives the fans what they can have of it.
    /// Whatever that comes to, the loop goes on with the sensors, and remembers what it did.
    pub fn reload(
        &mut self,
        fans: &mut nonempty::NonEmpty<FanController>,
        auto_pattern: &Vec<bool>,
        loaded: Result<Vec<FanConfig>, Error>,
    ) -> (r: Result<(), Error>)
        requires
            old(self).step == Step::Reload,
        ensures
            *final(self) == reloaded(*old(self)),
            match loaded {
                Ok(configs) => reload_result(
                    r,
                    fan_list(*old(fans)),
                    fan_list(*final(fans)),
                    auto_pattern@,
                    config_views(configs@),
                ),
                Err(e) => {
                    &&& r == Err::<(), Error>(e)
                    &&& *final(fans) == *old(fans)
                },
            },
            r is Err ==> fan_list(*final(fans)) == fan_list(*old(fans)),
            fan_list(*final(fans)).len() == fan_list(*old(fans)).len(),
    {
        self.step = Step::Read;
        match loaded {
            Ok(configs) => try_reload_curves(fans, auto_pattern, &configs),
            Err(e) => Err(e),
        }
    }

    /// Takes the readings of this tick.
    pub fn read(&mut self, fans: &nonempty::NonEmpty<FanController>, readings: &SensorReadings)
        requires
            old(self).step == Step::Read,
            old(self).is_about(fan_list(*fans)),
            all_find_all(fan_list(*fans), *readings),
        ensures
            final(self).is_about(fan_list(*fans)),
            read_done(*old(self), *final(self), fan_list(*fans), *readings),
    {
        self.temps = fan_temps(fans, readings);
        self.step = Step::Smooth;
    }

    /// The weight of a new temperature in the smoothed one, in hundredths. It goes with the last
    /// sleep, so that a temperature fades as fast whichever way the daemon slept.
    pub fn alpha(&self) -> (r: u8)
        ensures
            r == weight_after(self.was_long_sleep),
            self.was_long_sleep ==> r == 18,
            !self.was_long_sleep ==> r == 2,
    {
        if self.was_long_sleep {
            ALPHA_LONG
        } else {
            ALPHA_SHORT
        }
    }

    /// Takes what smoothing made of the temperatures, and gives the places on the curves of the
    /// temperatures that the speeds follow.
    pub fn smooth(
        &mut self,
        fans: &nonempty::NonEmpty<FanController>,
        new_emas: &Vec<u8>,
    ) -> (r: Vec<Option<CurvePoint>>)
        requires
            old(self).step == Step::Smooth,
            old(self).is_about(fan_list(*fans)),
            new_emas.len() == fan_list(*fans).len(),
            all_limits_ordered(fan_list(*fans)),
        ensures
            final(self).is_about(fan_list(*fans)),
            smooth_done(*old(self), *final(self), fan_list(*fans), new_emas@, r@),
    {
        let n: usize = self.trackers.len();
        let mut i: usize = 0;
        while i < n
            invariant
                i <= n,
                n == old(self).trackers.len(),
                n == old(self).temps.len(),
                n == new_emas.len(),
                self.trackers.len() == n,
                self.temps.len() == n,
                forall|j: int| #![trigger self.temps@[j]]
                    0 <= j < n ==> self.temps@[j] == (if j < i {
                        effective_temp(
                            old(self).temps@[j],
                            old(self).trackers@[j].ema,
                            new_emas@[j],
                        )
                    } else {
                        old(self).temps@[j]
                    }),
                forall|j: int| #![trigger self.trackers@[j]]
                    0 <= j < n ==> self.trackers@[j] == (if j < i {
                        FanTempTracker {
                            ema: Some(
                                smoothed(
                                    old(self).temps@[j],
                                    old(self).trackers@[j].ema,
                                    new_emas@[j],
                                ),
                            ),
                            last_pwm: old(self).trackers@[j].last_pwm,
                        }
                    } else {
                        old(self).trackers@[j]
                    }),
                self.was_long_sleep == old(self).was_long_sleep,
                self.any_changed == old(self).any_changed,
            decreases n - i,
        {
            let mut tracker: FanTempTracker = self.trackers[i];
            let temp: u8 = tracker.follow(self.temps[i], new_emas[i]);
            self.trackers.set(i, tracker);
            self.temps.set(i, temp);
            i = i + 1;
        }
        self.step = Step::Speed;
        curve_points(fans, &self.temps)
    }

    /// Whether every speed that a curve gives can be held.
    pub fn has_room_for(
        &self,
        fans: &nonempty::NonEmpty<FanController>,
        shares: &Vec<u32>,
    ) -> (r: bool)
        requires
            self.step == Step::Speed,
            self.is_about(fan_list(*fans)),
            shares.len() == fan_list(*fans).len(),
        ensures
            r == all_speeds_fit(fan_list(*fans), self.temps@, shares@),
    {
        let n: usize = fan_count(fans);
        let mut i: usize = 0;
        while i < n
            invariant
                i <= n,
                n == self.temps.len(),
                n == shares.len(),
                n == fan_list(*fans).len(),
                forall|j: int|
                    0 <= j < i ==> (#[trigger] fan_list(*fans)[j]).on_curve(self.temps@[j])
                        ==> fan_list(*fans)[j].min() + shares@[j] <= u32::MAX,
            decreases n - i,
        {
            if let Some(fan) = fan_at(fans, i) {
                if fan.is_on_curve(self.temps[i]) && fan.min_speed() > u32::MAX - shares[i] {
                    return false;
                }
            }
            i = i + 1;
        }
        true
    }

    /// Takes what the curves add to the least speeds, and gives what sets each speed that has to be
    /// set.
    pub fn speed(
        &mut self,
        fans: &nonempty::NonEmpty<FanController>,
        shares: &Vec<u32>,
    ) -> (r: Vec<Option<FanWrite>>)
        requires
            old(self).step == Step::Speed,
            old(self).is_about(fan_list(*fans)),
            shares.len() == fan_list(*fans).len(),
            all_limits_ordered(fan_list(*fans)),
            all_speeds_fit(fan_list(*fans), old(self).temps@, shares@),
        ensures
            final(self).is_about(fan_list(*fans)),
            speed_done(*old(self), *final(self), fan_list(*fans), shares@, r@),
    {
        let n: usize = fan_count(fans);
        let ghost list = fan_list(*fans);
        let mut r: Vec<Option<FanWrite>> = Vec::new();
        let mut i: usize = 0;
        while i < n
            invariant
                i <= n,
                list == fan_list(*fans),
                n == list.len(),
                n == self.temps.len(),
                n == shares.len(),
                n == old(self).trackers.len(),
                self.temps == old(self).temps,
                self.trackers.len() == n,
                r.len() == i,
                all_limits_ordered(list),
                all_speeds_fit(list, self.temps@, shares@),
                forall|j: int| #![trigger r@[j]]
                    0 <= j < i ==> sets_speed(
                        r@[j],
                        old(self).trackers@[j],
                        list[j],
                        wanted(*old(self), list, shares@, j),
                    ),
                forall|j: int| #![trigger self.trackers@[j]]
                    0 <= j < n ==> self.trackers@[j] == (if j < i {
                        after_speed(
                            old(self).trackers@[j],
                            list[j],
                            wanted(*old(self), list, shares@, j),
                        )
                    } else {
                        old(self).trackers@[j]
                    }),
                self.any_changed <==> old(self).any_changed || exists|j: int|
                    0 <= j < i && (#[trigger] r@[j]) is Some,
                self.was_long_sleep == old(self).was_long_sleep,
            decreases n - i,
        {
            let ghost writes_before = r@;
            let ghost changed_before = self.any_changed;
            assert(list[i as int].min() <= list[i as int].max());
            if let Some(fan) = fan_at(fans, i) {
                let speed: u32 = fan.calc_speed(self.temps[i], shares[i]);
                let mut tracker: FanTempTracker = self.trackers[i];
                let write: Option<FanWrite> = tracker.set(fan, speed);
                self.trackers.set(i, tracker);
                if write.is_some() {
                    self.any_changed = true;
                }
                r.push(write);
            }
            proof {
                assert(r@[i as int] is Some ==> self.any_changed);
                if changed_before && !old(self).any_changed {
                    let j = choose|j: int|
                        0 <= j < i && (#[trigger] writes_before[j]) is Some;
                    assert(r@[j] is Some);
                }
                if !self.any_changed {
                    assert forall|j: int| 0 <= j < i + 1 implies (#[trigger] r@[j]) is None by {
                        if j < i {
                            assert(writes_before[j] is None);
                        }
                    }
                }
            }
            i = i + 1;
        }
        self.step = Step::Sleep;
        r
    }

    /// Ends the tick, and gives how long to sleep, in milliseconds: briefly as long as speeds
    /// change.
    pub fn end_tick(&mut self) -> (r: u64)
        requires
            old(self).step == Step::Sleep,
        ensures
            r == sleep_after(old(self).any_changed),
            old(self).any_changed ==> r == 100,
            !old(self).any_changed ==> r == 1000,
            *final(self) == (TempLoop {
                was_long_sleep: !old(self).any_changed,
                any_changed: false,
                step: Step::Begin,
                ..*old(self)
            }),
            *final(self) == ended(*old(self)),
    {
        let changed: bool = self.any_changed;
        self.was_long_sleep = !changed;
        self.any_changed = false;
        self.step = Step::Begin;
        if changed {
            SHORT_SLEEP_MS
        } else {
            LONG_SLEEP_MS
        }
    }
}

/// A signal to reload changes nothing of the loop but that the configuration is read before the
/// sensors: whatever that comes to, the loop goes on from where it would have been without the
/// signal, with the same smoothed temperatures and the same speeds set last.
pub proof fn reload_does_not_disturb_the_loop(state: TempLoop)
    ensures
        begun(state, false, true).step == Step::Reload,
        reloaded(begun(state, false, true)) == begun(state, false, false),
        begun(state, false, false).step == Step::Read,
{
}

/// What a tick makes of the readings: each fan's speed is the one at the temperature that follows
/// the highest of the fan's temperatures, and is set where it has to be.
pub proof fn tick_sets_the_speed_for_the_readings(
    start: TempLoop,
    read: TempLoop,
    followed: TempLoop,
    end: TempLoop,
    fans: Seq<FanController>,
    readings: SensorReadings,
    new_emas: Seq<u8>,
    points: Seq<Option<CurvePoint>>,
    shares: Seq<u32>,
    writes_out: Seq<Option<FanWrite>>,
    i: int,
)
    requires
        start.is_about(fans),
        read_done(start, read, fans, readings),
        smooth_done(read, followed, fans, new_emas, points),
        speed_done(followed, end, fans, shares, writes_out),
        0 <= i < fans.len(),
    ensures
        ({
            let ema = start.trackers@[i].ema;
            let fan_temp = read.temps@[i];
            let temp = effective_temp(fan_temp, ema, new_emas[i]);
            let speed = fans[i].speed_at(temp, shares[i]) as u32;
            &&& is_highest(readings, fans[i].indices(), fan_temp)
            &&& fans[i].lies_at(temp, points[i])
            &&& sets_speed(writes_out[i], start.trackers@[i], fans[i], speed)
            &&& end.trackers@[i].ema == Some(smoothed(fan_temp, ema, new_emas[i]))
            &&& end.trackers@[i].last_pwm == after_speed(
                start.trackers@[i],
                fans[i],
                speed,
            ).last_pwm
        }),
{
    assert(is_highest(readings, fans[i].indices(), read.temps@[i]));
    assert(followed.temps@[i] == effective_temp(
        read.temps@[i],
        read.trackers@[i].ema,
        new_emas[i],
    ));
    assert(followed.trackers@[i].last_pwm == read.trackers@[i].last_pwm);
    assert(fans[i].lies_at(followed.temps@[i], points[i]));
    assert(sets_speed(
        writes_out[i],
        followed.trackers@[i],
        fans[i],
        wanted(followed, fans, shares, i),
    ));
    assert(end.trackers@[i] == after_speed(
        followed.trackers@[i],
        fans[i],
        wanted(followed, fans, shares, i),
    ));
}

/// The first tick sets the speed of a fan exactly where that is far enough from zero, as none was
/// set before; so whatever the temperature is, where even the least speed is far enough.
pub proof fn first_tick_sets_the_speed(fan: FanController, temp: u8, share: u32)
    requires
        fan.min() <= fan.max(),
        fan.on_curve(temp) ==> fan.min() + share <= u32::MAX,
    ensures
        has_to_be_set(fan.min(), fan.max(), 0, fan.speed_at(temp, share) as u32)
            <==> fan.speed_at(temp, share) >= pwm_threshold(fan.min(), fan.max()),
        pwm_threshold(fan.min(), fan.max()) <= fan.min() ==> has_to_be_set(
            fan.min(),
            fan.max(),
            0,
            fan.speed_at(temp, share) as u32,
        ),
{
}

/// A speed that was just set is not set again.
pub proof fn steady_speed_is_not_set_again(min: u32, max: u32, speed: u32)
    requires
        min <= max,
    ensures
        !has_to_be_set(min, max, speed, speed),
{
}

/// After a tick, the speed that was set last is close to the one that the fan should have.
pub proof fn set_speed_stays_close(min: u32, max: u32, last: u32, speed: u32)
    requires
        min <= max,
    ensures
        ({
            let now = if has_to_be_set(min, max, last, speed) {
                speed
            } else {
                last
            };
            distance(speed, now) < pwm_threshold(min, max)
        }),
{
}

/// The speed follows the temperature itself on a rising edge, and the smoothed temperature
/// otherwise; falling temperatures are never followed at once.
pub proof fn rising_edge_is_followed(fan_temp: u8, ema: u8, new_ema: u8)
    ensures
        fan_temp > ema + SPIKE_THRESHOLD_C ==> effective_temp(fan_temp, Some(ema), new_ema)
            == fan_temp,
        fan_temp <= ema ==> effective_temp(fan_temp, Some(ema), new_ema) == new_ema,
        effective_temp(fan_temp, None, new_ema) == fan_temp,
{
}

/// A smoothed temperature between the one before and the fan's temperature keeps what the speed
/// follows between these two.
pub proof fn followed_temp_is_between(fan_temp: u8, ema: u8, new_ema: u8)
    requires
        ema <= new_ema <= fan_temp || fan_temp <= new_ema <= ema,
    ensures
        ({
            let temp = effective_temp(fan_temp, Some(ema), new_ema);
            ema <= temp <= fan_temp || fan_temp <= temp <= ema
        }),
{
}

/// The speed follows the temperature itself where that is more than five degrees above the smoothed
/// one, or where there is none yet; and the smoothed one in every other case.
pub proof fn only_a_rise_of_more_than_five_degrees_is_followed(fan_temp: u8, ema: u8, new_ema: u8)
    ensures
        fan_temp > ema + 5 ==> effective_temp(fan_temp, Some(ema), new_ema) == fan_temp,
        fan_temp <= ema + 5 ==> effective_temp(fan_temp, Some(ema), new_ema) == new_ema,
        effective_temp(fan_temp, None, new_ema) == fan_temp,
        smoothed(fan_temp, Some(ema), new_ema) == new_ema,
        smoothed(fan_temp, None, new_ema) == fan_temp,
{
}

/// A speed is set where it is away from the one set last, up or down, by a hundredth of the range
/// at least, and by five at least.
pub proof fn speed_is_set_after_a_hundredth_of_the_range(min: u32, max: u32, last: u32, speed: u32)
    requires
        min <= max,
    ensures
        ({
            let t = pwm_threshold(min, max);
            &&& t >= 5
            &&& t > 5 ==> 100 * t <= max - min
            &&& 100 * (t + 1) > max - min
            &&& has_to_be_set(min, max, last, speed) <==> speed >= last + t || last >= speed + t
        }),
{
}

/// A speed that has to be set is written as a number within the limits, into the fan's target, and
/// is the one to go by from then on; with any other nothing is written and nothing changes.
pub proof fn speed_is_written_or_nothing_changes(
    write: Option<FanWrite>,
    tracker: FanTempTracker,
    fan: FanController,
    speed: u32,
)
    requires
        fan.min() <= fan.max(),
        sets_speed(write, tracker, fan, speed),
    ensures
        ({
            let t = pwm_threshold(fan.min(), fan.max());
            let far = speed >= tracker.last_pwm + t || tracker.last_pwm >= speed + t;
            &&& write is Some <==> far
            &&& far ==> after_speed(tracker, fan, speed).last_pwm == speed
            &&& !far ==> after_speed(tracker, fan, speed) == tracker
            &&& after_speed(tracker, fan, speed).ema == tracker.ema
            &&& write matches Some(w) ==> w.path@ == fan.target_file() && exists|written: nat|
                {
                    &&& w.text@ == #[trigger] decimal(written)
                    &&& fan.min() <= written <= fan.max()
                    &&& fan.min() <= speed <= fan.max() ==> written == speed
                    &&& speed < fan.min() ==> written == fan.min()
                    &&& speed > fan.max() ==> written == fan.max()
                }
        }),
{
    if let Some(w) = write {
        let written = clamped(speed, fan.min(), fan.max()) as nat;
        assert(w.text@ == decimal(written));
    }
}

/// A signal to stop ends the loop whatever else came; one to reload comes before the sensors; else
/// the sensors are read. None of them touches what the loop remembers.
pub proof fn signals_touch_nothing(state: TempLoop, stop: bool, reload: bool)
    ensures
        stop ==> begun(state, stop, reload).step == Step::Stop,
        !stop && reload ==> begun(state, stop, reload).step == Step::Reload,
        !stop && !reload ==> begun(state, stop, reload).step == Step::Read,
        reloaded(state).step == Step::Read,
        begun(state, stop, reload).trackers == state.trackers,
        begun(state, stop, reload).temps == state.temps,
        begun(state, stop, reload).was_long_sleep == state.was_long_sleep,
        begun(state, stop, reload).any_changed == state.any_changed,
        reloaded(state).trackers == state.trackers,
        reloaded(state).temps == state.temps,
        reloaded(state).was_long_sleep == state.was_long_sleep,
        reloaded(state).any_changed == state.any_changed,
{
}

/// From one tick to the next: a fan whose temperatures, smoothed temperature and curve stay the
/// same is not set again.
pub proof fn steady_fan_is_left_alone(
    tracker: FanTempTracker,
    fan: FanController,
    speed: u32,
    again: Option<FanWrite>,
)
    requires
        fan.min() <= fan.max(),
        sets_speed(again, after_speed(tracker, fan, speed), fan, speed),
    ensures
        again is None,
{
}

/// After a tick in which some fan was set, the loop sleeps briefly and lets new temperatures count
/// little; after a quiet one it sleeps long and lets them count more.
pub proof fn sleep_and_weight_go_together(changed: bool)
    ensures
        sleep_after(changed) == (if changed {
            100u64
        } else {
            1000u64
        }),
        weight_after(!changed) == (if changed {
            2u8
        } else {
            18u8
        }),
{
}

/// A tick reads, then smooths, then sets the speeds, then sleeps. On the way it does not forget how
/// long it slept, nor that a fan was set, and says that one was exactly where there is a write.
pub proof fn each_step_leads_to_the_next(
    a: TempLoop,
    b: TempLoop,
    fans: Seq<FanController>,
    readings: SensorReadings,
    emas: Seq<u8>,
    points: Seq<Option<CurvePoint>>,
    shares: Seq<u32>,
    writes_out: Seq<Option<FanWrite>>,
)
    ensures
        read_done(a, b, fans, readings) ==> {
            &&& b.step == Step::Smooth
            &&& b.trackers == a.trackers
            &&& b.was_long_sleep == a.was_long_sleep
            &&& b.any_changed == a.any_changed
        },
        smooth_done(a, b, fans, emas, points) ==> {
            &&& b.step == Step::Speed
            &&& b.was_long_sleep == a.was_long_sleep
            &&& b.any_changed == a.any_changed
            &&& b.trackers.len() == a.trackers.len()
            &&& points.len() == fans.len()
        },
        speed_done(a, b, fans, shares, writes_out) ==> {
            &&& b.step == Step::Sleep
            &&& b.was_long_sleep == a.was_long_sleep
            &&& b.temps == a.temps
            &&& writes_out.len() == fans.len()
            &&& !b.any_changed <==> !a.any_changed && forall|i: int|
                0 <= i < fans.len() ==> (#[trigger] writes_out[i]) is None
        },
{
}

/// What is asked of all fans is asked of each: that its temperatures are there, that its limits are
/// in order, that the speed on its curve can be written down.
pub proof fn all_fans_are_asked(
    fans: Seq<FanController>,
    readings: SensorReadings,
    temps: Seq<u8>,
    shares: Seq<u32>,
)
    ensures
        all_find_all(fans, readings) <==> forall|i: int, j: int|
            #![trigger fans[i].indices()[j]]
            0 <= i < fans.len() && 0 <= j < fans[i].indices().len() ==> has_reading(
                readings,
                fans[i].indices()[j],
            ),
        all_limits_ordered(fans) <==> forall|i: int|
            0 <= i < fans.len() ==> !((#[trigger] fans[i]).max() < fans[i].min()),
        all_speeds_fit(fans, temps, shares) <==> forall|i: int| #![trigger fans[i]]
            0 <= i < fans.len() && !fans[i].settings().always_full_speed
                && fans[i].settings().low_temp < temps[i] < fans[i].settings().high_temp
                ==> shares[i] <= u32::MAX - fans[i].min(),
{
    if all_find_all(fans, readings) {
        assert forall|i: int, j: int|
            #![trigger fans[i].indices()[j]]
            0 <= i < fans.len() && 0 <= j < fans[i].indices().len() implies has_reading(
            readings,
            fans[i].indices()[j],
        ) by {
            assert(fans[i].finds_all(readings));
        }
    }
}

/// The tick after one in which some fan was set lets new temperatures count little, the tick after a
/// quiet one more; either begins with no fan set yet, and with all that is known of the fans.
pub proof fn next_tick_knows_what_the_last_one_did(state: TempLoop)
    ensures
        state.any_changed ==> weight_after(ended(state).was_long_sleep) == 2,
        !state.any_changed ==> weight_after(ended(state).was_long_sleep) == 18,
        !ended(state).any_changed,
        ended(state).step == Step::Begin,
        ended(state).trackers == state.trackers,
        ended(state).temps == state.temps,
{
}

} // verus!
