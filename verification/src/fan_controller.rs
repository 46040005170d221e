//! A fan under the daemon's control: its limits, its temperature and its speed.

use crate::config::{FanConfig, FanConfigView, SpeedCurve};
use crate::decimal::{is_worth, Decimal};
use crate::error::{Error, IoCause};
use crate::paths::{file_name, stripped, suffix_goes_to_the_name, suffixed, with_suffix};
use crate::sensors::{has_reading, reading, SensorIdx, SensorReadings};
use crate::text::{
    decimal, decimal_reads_back, decimal_text, number, number_fault, read_number, trim, trim_end,
    trim_end_text, trim_text,
};
use vstd::prelude::*;

verus! {

/// What reading one of a fan's speed limits came to.
#[derive(Debug)]
pub enum SpeedRead {
    /// The limit could not be read.
    Failed(IoCause),
    Text(String),
}

/// The least and the greatest speed of a fan, or the first fault in them. White space may stand
/// around the least speed, and after the greatest.
pub open spec fn speed_limits(min: SpeedRead, max: SpeedRead) -> Result<(u32, u32), Error> {
    match min {
        SpeedRead::Failed(cause) => Err(Error::MinSpeedRead(cause)),
        SpeedRead::Text(lo) => match number(trim(lo@), 10, u32::MAX as nat) {
            None => Err(Error::MinSpeedParse(number_fault(trim(lo@), 10, u32::MAX as nat)->0)),
            Some(lo) => match max {
                SpeedRead::Failed(cause) => Err(Error::MaxSpeedRead(cause)),
                SpeedRead::Text(hi) => match number(trim_end(hi@), 10, u32::MAX as nat) {
                    None => Err(
                        Error::MaxSpeedParse(number_fault(trim_end(hi@), 10, u32::MAX as nat)->0),
                    ),
                    Some(hi) => Ok((lo as u32, hi as u32)),
                },
            },
        },
    }
}

/// Reads the speed limits of a fan.
fn parse_limits(min: &SpeedRead, max: &SpeedRead) -> (r: Result<(u32, u32), Error>)
    ensures
        r == speed_limits(*min, *max),
{
    let lo: u32 = match min {
        SpeedRead::Failed(cause) => return Err(Error::MinSpeedRead(*cause)),
        SpeedRead::Text(s) => match read_number(trim_text(s.as_str()), 10, u32::MAX) {
            Ok(lo) => lo,
            Err(fault) => return Err(Error::MinSpeedParse(fault)),
        },
    };
    let hi: u32 = match max {
        SpeedRead::Failed(cause) => return Err(Error::MaxSpeedRead(*cause)),
        SpeedRead::Text(s) => match read_number(trim_end_text(s.as_str()), 10, u32::MAX) {
            Ok(hi) => hi,
            Err(fault) => return Err(Error::MaxSpeedParse(fault)),
        },
    };
    Ok((lo, hi))
}

/// What opening the file that sets a fan's speed came to.
#[derive(Clone, Copy, Debug, PartialEq, Eq, Structural)]
pub enum TargetOpen {
    Opened,
    /// The kernel does not let the file be written: fan control is switched off.
    Denied,
    /// The file could not be opened for another reason.
    Failed(IoCause),
}

/// Why a fan cannot be set, where it cannot.
pub open spec fn target_fault(target: TargetOpen) -> Option<Error> {
    match target {
        TargetOpen::Opened => None,
        TargetOpen::Denied => Some(Error::FanControlDisabled),
        TargetOpen::Failed(cause) => Some(Error::FanOpen(cause)),
    }
}

/// A text to write into one of a fan's files.
#[derive(Debug)]
pub struct FanWrite {
    pub path: String,
    pub text: String,
}

/// Whether this is what has to be written, and where.
pub open spec fn writes(write: FanWrite, path: Seq<char>, text: Seq<char>) -> bool {
    write.path@ == path && write.text@ == text
}

/// The file of a fan that sets its speed; a zero in it gives the fan back to the SMC.
pub fn target_path(fan: &str) -> (r: Option<String>)
    ensures
        match r {
            Some(file) => suffixed(fan@, "_target"@) == Some(file@),
            None => file_name(fan@) is None,
        },
{
    with_suffix(fan, "_target")
}

/// The file of a fan with its least speed.
pub fn min_path(fan: &str) -> (r: Option<String>)
    ensures
        match r {
            Some(file) => suffixed(fan@, "_min"@) == Some(file@),
            None => file_name(fan@) is None,
        },
{
    with_suffix(fan, "_min")
}

/// The file of a fan with its greatest speed.
pub fn max_path(fan: &str) -> (r: Option<String>)
    ensures
        match r {
            Some(file) => suffixed(fan@, "_max"@) == Some(file@),
            None => file_name(fan@) is None,
        },
{
    with_suffix(fan, "_max")
}

/// Whether a fan is given back to the SMC; what names no file is no fan.
pub open spec fn gives_back(release: Result<FanWrite, Error>, fan: Seq<char>) -> bool {
    match suffixed(fan, "_target"@) {
        Some(file) => release matches Ok(write) && writes(write, file, "0"@),
        None => release == Err::<FanWrite, Error>(Error::NoFan),
    }
}

/// What gives a fan back to the SMC.
pub fn release_fan_to_smc(fan: &str) -> (r: Result<FanWrite, Error>)
    ensures
        gives_back(r, fan@),
{
    match target_path(fan) {
        Some(path) => Ok(FanWrite { path, text: "0".to_owned() }),
        None => Err(Error::NoFan),
    }
}

/// A speed brought between the limits. Where the limits are the wrong way round, the least speed
/// comes first.
pub open spec fn clamped(speed: u32, min: u32, max: u32) -> u32 {
    if speed < min {
        min
    } else if speed > max {
        max
    } else {
        speed
    }
}

/// Whether `temp` is the highest of these sensors' temperatures, or zero where there are none.
pub open spec fn is_highest(readings: SensorReadings, sensors: Seq<SensorIdx>, temp: u8) -> bool {
    &&& forall|i: int|
        0 <= i < sensors.len() ==> reading(readings, #[trigger] sensors[i]) <= temp
    &&& temp == 0 || exists|i: int|
        0 <= i < sensors.len() && reading(readings, #[trigger] sensors[i]) == temp
}

/// Where a temperature lies on a fan's speed curve.
#[derive(Debug)]
pub struct CurvePoint {
    pub curve: SpeedCurve,
    /// Exponent of the exponential curve; three for any other.
    pub exp_pow: Decimal,
    /// Degrees above the low temperature.
    pub above: u32,
    /// Degrees from the low to the high temperature.
    pub span: u32,
    /// From the least to the greatest speed.
    pub range: u32,
}

/// What a [`CurvePoint`] says.
pub struct CurvePointView {
    pub curve: SpeedCurve,
    pub exp_pow: Seq<char>,
    pub above: int,
    pub span: int,
    pub range: int,
}

impl View for CurvePoint {
    type V = CurvePointView;

    open spec fn view(&self) -> CurvePointView {
        CurvePointView {
            curve: self.curve,
            exp_pow: self.exp_pow@,
            above: self.above as int,
            span: self.span as int,
            range: self.range as int,
        }
    }
}

/// The curve that a configuration asks for, with its exponent. The exponential curve with an
/// exponent of one is the linear curve, and only the exponential curve has a use for an exponent.
pub open spec fn curve_in_use(config: FanConfigView) -> (SpeedCurve, Seq<char>) {
    match config.speed_curve {
        SpeedCurve::Exponential => if is_worth(config.exp_pow, 1) {
            (SpeedCurve::Linear, "3"@)
        } else {
            (SpeedCurve::Exponential, config.exp_pow)
        },
        curve => (curve, "3"@),
    }
}

/// A fan and what drives it.
#[derive(Debug)]
pub struct FanController {
    /// The file that sets the fan's speed.
    target: String,
    /// The file that takes the fan out of the SMC's hands.
    manual: String,
    config: FanConfig,
    min_speed: u32,
    max_speed: u32,
    sensors: Vec<SensorIdx>,
}

impl FanController {
    /// The file that sets the fan's speed.
    pub closed spec fn target_file(self) -> Seq<char> {
        self.target@
    }

    /// The file that takes the fan out of the SMC's hands.
    pub closed spec fn manual_file(self) -> Seq<char> {
        self.manual@
    }

    /// How the fan is configured.
    pub closed spec fn settings(self) -> FanConfig {
        self.config
    }

    /// The least speed.
    pub closed spec fn min(self) -> u32 {
        self.min_speed
    }

    /// The greatest speed.
    pub closed spec fn max(self) -> u32 {
        self.max_speed
    }

    /// Where the fan finds its temperatures.
    pub closed spec fn indices(self) -> Seq<SensorIdx> {
        self.sensors@
    }

    /// Whether this is the same fan, whatever its configuration: the same files, the same limits
    /// and the same temperatures.
    pub open spec fn same_fan(self, other: FanController) -> bool {
        &&& self.target_file() == other.target_file()
        &&& self.manual_file() == other.manual_file()
        &&& self.indices() == other.indices()
        &&& self.min() == other.min()
        &&& self.max() == other.max()
    }

    /// Whether the speed at this temperature lies on the curve between the limits.
    pub open spec fn on_curve(self, temp: u8) -> bool {
        let config = self.settings();
        !config.always_full_speed && config.low_temp < temp < config.high_temp
    }

    /// Where the temperature lies on the fan's speed curve; nowhere, where the speed is one of the
    /// limits.
    pub open spec fn place_at(self, temp: u8) -> Option<CurvePointView> {
        let config = self.settings()@;
        if self.on_curve(temp) {
            Some(
                CurvePointView {
                    curve: curve_in_use(config).0,
                    exp_pow: curve_in_use(config).1,
                    above: temp - config.low_temp,
                    span: config.high_temp - config.low_temp,
                    range: self.max() - self.min(),
                },
            )
        } else {
            None
        }
    }

    /// Whether this is where the temperature lies on the fan's speed curve.
    pub open spec fn lies_at(self, temp: u8, point: Option<CurvePoint>) -> bool {
        match point {
            Some(point) => self.place_at(temp) == Some(point@),
            None => self.place_at(temp) is None,
        }
    }

    /// The speed at this temperature, where the curve adds `share` to the least speed.
    pub open spec fn speed_at(self, temp: u8, share: u32) -> int {
        let config = self.settings();
        if config.always_full_speed {
            self.max() as int
        } else if temp <= config.low_temp {
            self.min() as int
        } else if temp >= config.high_temp {
            self.max() as int
        } else {
            self.min() + share
        }
    }

    /// Takes a fan under control, out of what reading its limits and opening the file that sets its
    /// speed came to. There is no controller for a fan that cannot be set.
    pub fn new(
        path: &str,
        config: FanConfig,
        sensors: Vec<SensorIdx>,
        min: &SpeedRead,
        max: &SpeedRead,
        target: TargetOpen,
    ) -> (r: Result<FanController, Error>)
        requires
            file_name(path@) is Some,
        ensures
            match (speed_limits(*min, *max), target_fault(target)) {
                (Err(e), _) => r == Err::<FanController, Error>(e),
                (Ok(_), Some(e)) => r == Err::<FanController, Error>(e),
                (Ok((lo, hi)), None) => {
                    &&& r is Ok
                    &&& suffixed(path@, "_target"@) == Some(r->Ok_0.target_file())
                    &&& suffixed(path@, "_manual"@) == Some(r->Ok_0.manual_file())
                    &&& r->Ok_0.settings() == config
                    &&& r->Ok_0.indices() == sensors@
                    &&& r->Ok_0.min() == lo
                    &&& r->Ok_0.max() == hi
                },
            },
    {
        let (min_speed, max_speed): (u32, u32) = match parse_limits(min, max) {
            Ok(limits) => limits,
            Err(e) => return Err(e),
        };
        match target {
            TargetOpen::Opened => {},
            TargetOpen::Denied => return Err(Error::FanControlDisabled),
            TargetOpen::Failed(cause) => return Err(Error::FanOpen(cause)),
        }
        match (with_suffix(path, "_target"), with_suffix(path, "_manual")) {
            (Some(target), Some(manual)) => Ok(
                FanController { target, manual, config, min_speed, max_speed, sensors },
            ),
            _ => Err(Error::NoFan),
        }
    }

    /// The least speed.
    pub fn min_speed(&self) -> (r: u32)
        ensures
            r == self.min(),
    {
        self.min_speed
    }

    /// The greatest speed.
    pub fn max_speed(&self) -> (r: u32)
        ensures
            r == self.max(),
    {
        self.max_speed
    }

    /// How the fan is configured.
    pub fn config(&self) -> (r: &FanConfig)
        ensures
            *r == self.settings(),
    {
        &self.config
    }

    /// Configures the fan anew; its limits and where it finds its temperatures stay.
    pub fn set_config(&mut self, config: FanConfig)
        ensures
            final(self).settings() == config,
            final(self).same_fan(*old(self)),
    {
        self.config = config;
    }

    /// Whether the readings hold all of the fan's temperatures.
    pub open spec fn finds_all(self, readings: SensorReadings) -> bool {
        forall|i: int|
            0 <= i < self.indices().len() ==> has_reading(readings, #[trigger] self.indices()[i])
    }

    /// Whether the readings hold all of the fan's temperatures.
    pub fn has_all(&self, readings: &SensorReadings) -> (r: bool)
        ensures
            r == self.finds_all(*readings),
    {
        let mut i: usize = 0;
        while i < self.sensors.len()
            invariant
                i <= self.sensors.len(),
                self.indices() == self.sensors@,
                forall|j: int|
                    0 <= j < i ==> has_reading(*readings, #[trigger] self.indices()[j]),
            decreases self.sensors.len() - i,
        {
            let found: bool = match self.sensors[i] {
                SensorIdx::Cpu => readings.cpu.is_some(),
                SensorIdx::Hwmon(k) => k < readings.hwmons.len(),
                SensorIdx::Nvidia(k) => k < readings.nvidia.len(),
            };
            assert(found == has_reading(*readings, self.indices()[i as int]));
            if !found {
                return false;
            }
            i = i + 1;
        }
        true
    }

    /// The highest temperature across the fan's sensors.
    pub fn compute_max_temp(&self, readings: &SensorReadings) -> (r: u8)
        requires
            self.finds_all(*readings),
        ensures
            is_highest(*readings, self.indices(), r),
    {
        let mut max_temp: u8 = 0;
        let mut i: usize = 0;
        while i < self.sensors.len()
            invariant
                i <= self.sensors.len(),
                self.indices() == self.sensors@,
                self.finds_all(*readings),
                is_highest(*readings, self.sensors@.take(i as int), max_temp),
            decreases self.sensors.len() - i,
        {
            assert(has_reading(*readings, self.indices()[i as int]));
            let temp: u8 = match self.sensors[i] {
                SensorIdx::Cpu => match readings.cpu {
                    Some(temp) => temp,
                    None => 0,
                },
                SensorIdx::Hwmon(k) => readings.hwmons[k],
                SensorIdx::Nvidia(k) => readings.nvidia[k],
            };
            let ghost seen = self.sensors@.take(i as int);
            let ghost now = self.sensors@.take(i + 1);
            assert(now =~= seen.push(self.sensors@[i as int]));
            let ghost before = max_temp;
            if temp > max_temp {
                max_temp = temp;
            }
            assert(is_highest(*readings, now, max_temp)) by {
                assert forall|j: int| 0 <= j < now.len() implies reading(
                    *readings,
                    #[trigger] now[j],
                ) <= max_temp by {
                    if j < seen.len() {
                        assert(reading(*readings, seen[j]) <= before);
                    }
                }
                if max_temp == temp {
                    assert(reading(*readings, now[i as int]) == max_temp);
                } else if max_temp != 0 {
                    let j = choose|j: int|
                        0 <= j < seen.len() && reading(*readings, #[trigger] seen[j]) == before;
                    assert(now[j] == seen[j]);
                }
            }
            i = i + 1;
        }
        assert(self.sensors@.take(i as int) =~= self.sensors@);
        max_temp
    }

    /// What takes the fan out of the SMC's hands, or gives it back.
    pub fn set_manual(&self, enabled: bool) -> (r: FanWrite)
        ensures
            writes(
                r,
                self.manual_file(),
                if enabled {
                    "1"@
                } else {
                    "0"@
                },
            ),
    {
        let text: &str = if enabled {
            "1"
        } else {
            "0"
        };
        FanWrite { path: self.manual.clone(), text: text.to_owned() }
    }

    /// What sets the fan's speed, within its limits.
    pub fn set_speed(&self, speed: u32) -> (r: FanWrite)
        ensures
            writes(
                r,
                self.target_file(),
                decimal(clamped(speed, self.min(), self.max()) as nat),
            ),
    {
        let within: u32 = if speed < self.min_speed {
            self.min_speed
        } else if speed > self.max_speed {
            self.max_speed
        } else {
            speed
        };
        FanWrite { path: self.target.clone(), text: decimal_text(within as u64) }
    }

    /// What gives the fan back to the SMC.
    pub fn release_to_auto(&self) -> (r: FanWrite)
        ensures
            writes(r, self.target_file(), "0"@),
    {
        FanWrite { path: self.target.clone(), text: "0".to_owned() }
    }

    /// Whether the speed at this temperature lies on the curve between the limits.
    pub fn is_on_curve(&self, temp: u8) -> (r: bool)
        ensures
            r == self.on_curve(temp),
    {
        let config: &FanConfig = &self.config;
        !config.always_full_speed && config.low_temp < temp && temp < config.high_temp
    }

    /// Where the temperature lies on the fan's speed curve; `None` where the speed is one of the
    /// limits.
    pub fn curve_point(&self, temp: u8) -> (r: Option<CurvePoint>)
        requires
            self.on_curve(temp) ==> self.min() <= self.max(),
        ensures
            self.lies_at(temp, r),
    {
        let low_temp: u8 = self.config.low_temp;
        let high_temp: u8 = self.config.high_temp;
        if !self.is_on_curve(temp) {
            return None;
        }
        let (curve, exp_pow): (SpeedCurve, Decimal) = match self.config.speed_curve {
            SpeedCurve::Exponential => if self.config.exp_pow.equals(1) {
                (SpeedCurve::Linear, Decimal::three())
            } else {
                (SpeedCurve::Exponential, self.config.exp_pow.clone())
            },
            curve => (curve, Decimal::three()),
        };
        Some(
            CurvePoint {
                curve,
                exp_pow,
                above: (temp - low_temp) as u32,
                span: (high_temp - low_temp) as u32,
                range: self.max_speed - self.min_speed,
            },
        )
    }

    /// The speed at a temperature. Where that lies on the curve, `share` is what the curve adds to
    /// the least speed there.
    pub fn calc_speed(&self, temp: u8, share: u32) -> (r: u32)
        requires
            self.on_curve(temp) ==> self.min() + share <= u32::MAX,
        ensures
            r == self.speed_at(temp, share),
            self.settings().always_full_speed ==> r == self.max(),
            !self.settings().always_full_speed && temp <= self.settings().low_temp ==> r
                == self.min(),
            !self.settings().always_full_speed && temp > self.settings().low_temp && temp
                >= self.settings().high_temp ==> r == self.max(),
            !self.settings().always_full_speed && self.settings().low_temp < temp
                < self.settings().high_temp ==> r == self.min() + share,
    {
        if self.config.always_full_speed {
            return self.max_speed;
        }
        if temp <= self.config.low_temp {
            return self.min_speed;
        }
        if temp >= self.config.high_temp {
            return self.max_speed;
        }
        share + self.min_speed
    }
}

/// A speed that was brought between the limits lies between them, stays where it is when it is
/// brought there again, and is no other speed where it was between them to begin with.
pub proof fn written_speed_is_within_limits(speed: u32, min: u32, max: u32)
    requires
        min <= max,
    ensures
        min <= clamped(speed, min, max) <= max,
        clamped(clamped(speed, min, max), min, max) == clamped(speed, min, max),
        min <= speed <= max ==> clamped(speed, min, max) == speed,
{
}

/// A curve that stays within the range of a fan's speeds never leaves the fan's limits: at every
/// temperature the speed lies between them.
pub proof fn speed_is_within_limits(fan: FanController, temp: u8, share: u32)
    requires
        fan.min() <= fan.max(),
        share <= fan.max() - fan.min(),
    ensures
        fan.min() <= fan.speed_at(temp, share) <= fan.max(),
{
}

/// A fan that is always at full speed has its greatest speed at every temperature.
pub proof fn full_speed_ignores_the_temperature(fan: FanController, temp: u8, share: u32)
    requires
        fan.settings().always_full_speed,
    ensures
        fan.speed_at(temp, share) == fan.max(),
{
}

/// A hotter fan is no slower, as long as the curve itself falls nowhere.
pub proof fn hotter_is_no_slower(
    fan: FanController,
    cool: u8,
    cool_share: u32,
    hot: u8,
    hot_share: u32,
)
    requires
        cool <= hot,
        cool_share <= hot_share,
        hot_share <= fan.max() - fan.min(),
    ensures
        fan.speed_at(cool, cool_share) <= fan.speed_at(hot, hot_share),
{
}

/// Whether two fans are alike but for the curve and the exponent that they are configured with.
pub open spec fn alike_but_for_the_curve(f: FanController, g: FanController) -> bool {
    &&& f.min() == g.min()
    &&& f.max() == g.max()
    &&& f.settings().low_temp == g.settings().low_temp
    &&& f.settings().high_temp == g.settings().high_temp
    &&& f.settings().always_full_speed == g.settings().always_full_speed
}

/// The exponent has no effect off the exponential curve: two fans that differ in nothing else are
/// at the same place of the same curve at every temperature, and have the same speed there.
pub proof fn exponent_is_for_the_exponential_curve(
    f: FanController,
    g: FanController,
    temp: u8,
    share: u32,
)
    requires
        alike_but_for_the_curve(f, g),
        f.settings().speed_curve == g.settings().speed_curve,
        f.settings().speed_curve != SpeedCurve::Exponential,
    ensures
        f.place_at(temp) == g.place_at(temp),
        f.speed_at(temp, share) == g.speed_at(temp, share),
{
}

/// An exponent of one makes the exponential curve the linear one: a fan with it and one with the
/// linear curve are at the same place of the same curve at every temperature, and have the same
/// speed there.
pub proof fn exponent_of_one_is_linear(
    f: FanController,
    g: FanController,
    temp: u8,
    share: u32,
)
    requires
        alike_but_for_the_curve(f, g),
        f.settings().speed_curve == SpeedCurve::Exponential,
        is_worth(f.settings().exp_pow@, 1),
        g.settings().speed_curve == SpeedCurve::Linear,
    ensures
        f.place_at(temp) == g.place_at(temp),
        f.speed_at(temp, share) == g.speed_at(temp, share),
{
}

/// Of two fans that are alike but for the curve, the one whose curve adds less is no faster, and
/// off the curve both have the same speed.
pub proof fn smaller_share_is_no_faster(
    f: FanController,
    g: FanController,
    temp: u8,
    f_share: u32,
    g_share: u32,
)
    requires
        alike_but_for_the_curve(f, g),
        g_share <= f_share,
    ensures
        g.speed_at(temp, g_share) <= f.speed_at(temp, f_share),
        !f.on_curve(temp) ==> g.speed_at(temp, g_share) == f.speed_at(temp, f_share),
{
}

/// There is one highest temperature.
pub proof fn highest_is_unique(
    readings: SensorReadings,
    sensors: Seq<SensorIdx>,
    a: u8,
    b: u8,
)
    requires
        is_highest(readings, sensors, a),
        is_highest(readings, sensors, b),
    ensures
        a == b,
{
}

/// Up to the low temperature a fan has its least speed, from the high one on its greatest, and in
/// between exactly what the curve adds to the least: no more than that, however near the high
/// temperature is.
pub proof fn speed_is_the_limits_and_the_curve_between(fan: FanController, temp: u8, share: u32)
    requires
        !fan.settings().always_full_speed,
    ensures
        temp <= fan.settings().low_temp ==> fan.speed_at(temp, share) == fan.min(),
        temp > fan.settings().low_temp && temp >= fan.settings().high_temp ==> fan.speed_at(
            temp,
            share,
        ) == fan.max(),
        fan.settings().low_temp < temp < fan.settings().high_temp ==> fan.speed_at(temp, share)
            == fan.min() + share,
        fan.on_curve(temp) <==> fan.settings().low_temp < temp < fan.settings().high_temp,
{
}

/// On the curve, one more that the curve adds is one more in speed.
pub proof fn speed_goes_with_the_share(fan: FanController, temp: u8, a: u32, b: u32)
    requires
        !fan.settings().always_full_speed,
        fan.settings().low_temp < temp < fan.settings().high_temp,
    ensures
        fan.speed_at(temp, a) - fan.speed_at(temp, b) == a - b,
{
}

/// The place on the curve: how far above the low temperature, how far the low temperature is from
/// the high one, and how far the least speed is from the greatest. The curve and the exponent are
/// those of the configuration where they matter.
pub proof fn place_is_measured_from_the_low_temperature(fan: FanController, temp: u8)
    ensures
        ({
            let config = fan.settings()@;
            match fan.place_at(temp) {
                None => config.always_full_speed || temp <= config.low_temp || temp
                    >= config.high_temp,
                Some(point) => {
                    &&& !config.always_full_speed
                    &&& 0 < point.above < point.span
                    &&& config.low_temp + point.above == temp
                    &&& config.low_temp + point.span == config.high_temp
                    &&& fan.min() + point.range == fan.max()
                    &&& config.speed_curve == SpeedCurve::Linear ==> point.curve
                        == SpeedCurve::Linear
                    &&& config.speed_curve == SpeedCurve::Logarithmic ==> point.curve
                        == SpeedCurve::Logarithmic
                    &&& config.speed_curve == SpeedCurve::Exponential && !is_worth(
                        config.exp_pow,
                        1,
                    ) ==> point.curve == SpeedCurve::Exponential && point.exp_pow == config.exp_pow
                },
            }
        }),
{
}

/// A speed outside the limits is brought to the nearer one; none between them is changed.
pub proof fn speed_is_brought_to_the_nearer_limit(speed: u32, min: u32, max: u32)
    requires
        min <= max,
    ensures
        speed <= min ==> clamped(speed, min, max) == min,
        speed >= max ==> clamped(speed, min, max) == max,
        min <= speed <= max ==> clamped(speed, min, max) == speed,
{
}

/// Limits in decimal are read as what they say: white space may stand around the least speed, and
/// after the greatest.
pub proof fn limits_are_read_as_written(min: SpeedRead, max: SpeedRead, lo: u32, hi: u32)
    requires
        min matches SpeedRead::Text(s) && trim(s@) == decimal(lo as nat),
        max matches SpeedRead::Text(s) && trim_end(s@) == decimal(hi as nat),
    ensures
        speed_limits(min, max) == Ok::<(u32, u32), Error>((lo, hi)),
{
    decimal_reads_back(lo as nat, u32::MAX as nat);
    decimal_reads_back(hi as nat, u32::MAX as nat);
}

/// The least speed is looked at before the greatest; a limit that could not be read or that stands
/// for no number is the fault.
pub proof fn fault_of_the_limits_is_the_first(min: SpeedRead, max: SpeedRead)
    ensures
        min matches SpeedRead::Failed(c) ==> speed_limits(min, max) == Err::<(u32, u32), Error>(
            Error::MinSpeedRead(c),
        ),
        min matches SpeedRead::Text(s) ==> (number(trim(s@), 10, u32::MAX as nat) is None ==> (
        speed_limits(min, max) matches Err(Error::MinSpeedParse(_)))),
        min matches SpeedRead::Text(s) ==> (number(trim(s@), 10, u32::MAX as nat) is Some ==> {
            &&& max matches SpeedRead::Failed(c) ==> speed_limits(min, max) == Err::<
                (u32, u32),
                Error,
            >(Error::MaxSpeedRead(c))
            &&& max matches SpeedRead::Text(t) ==> (number(trim_end(t@), 10, u32::MAX as nat) is None
                ==> (speed_limits(min, max) matches Err(Error::MaxSpeedParse(_))))
            &&& max matches SpeedRead::Text(t) ==> (number(trim_end(t@), 10, u32::MAX as nat) is Some
                ==> speed_limits(min, max) is Ok)
        }),
{
}

/// No temperature of a fan's sensors is above the highest, and the highest is one of them, or zero.
pub proof fn no_sensor_is_hotter_than_the_highest(
    readings: SensorReadings,
    sensors: Seq<SensorIdx>,
    temp: u8,
    i: int,
)
    requires
        is_highest(readings, sensors, temp),
        0 <= i < sensors.len(),
    ensures
        sensors[i] == SensorIdx::Cpu ==> readings.cpu->0 <= temp,
        sensors[i] matches SensorIdx::Hwmon(k) ==> readings.hwmons@[k as int] <= temp,
        sensors[i] matches SensorIdx::Nvidia(k) ==> readings.nvidia@[k as int] <= temp,
        temp != 0 ==> exists|j: int| #![trigger sensors[j]]
            0 <= j < sensors.len() && match sensors[j] {
                SensorIdx::Cpu => readings.cpu->0 == temp,
                SensorIdx::Hwmon(k) => readings.hwmons@[k as int] == temp,
                SensorIdx::Nvidia(k) => readings.nvidia@[k as int] == temp,
            },
{
    assert(reading(readings, sensors[i]) <= temp);
    if temp != 0 {
        let j = choose|j: int|
            0 <= j < sensors.len() && reading(readings, #[trigger] sensors[j]) == temp;
        assert(sensors[j] == sensors[j]);
    }
}

/// A fan finds all of its temperatures exactly where the readings hold each of them.
pub proof fn every_temperature_of_a_fan_is_there(fan: FanController, readings: SensorReadings)
    ensures
        fan.finds_all(readings) <==> forall|i: int| #![trigger fan.indices()[i]]
            0 <= i < fan.indices().len() ==> match fan.indices()[i] {
                SensorIdx::Cpu => readings.cpu is Some,
                SensorIdx::Hwmon(k) => k < readings.hwmons@.len(),
                SensorIdx::Nvidia(k) => k < readings.nvidia@.len(),
            },
{
    if fan.finds_all(readings) {
        assert forall|i: int| #![trigger fan.indices()[i]]
            0 <= i < fan.indices().len() implies match fan.indices()[i] {
            SensorIdx::Cpu => readings.cpu is Some,
            SensorIdx::Hwmon(k) => k < readings.hwmons@.len(),
            SensorIdx::Nvidia(k) => k < readings.nvidia@.len(),
        } by {
            assert(has_reading(readings, fan.indices()[i]));
        }
    }
}

/// A fan that cannot be opened for writing is refused: for want of fan control where the kernel
/// denies it, and with the cause of any other failure.
pub proof fn fan_that_cannot_be_set_has_a_fault(target: TargetOpen)
    ensures
        target_fault(target) is None <==> target == TargetOpen::Opened,
        target == TargetOpen::Denied ==> target_fault(target) == Some(Error::FanControlDisabled),
        target matches TargetOpen::Failed(cause) ==> target_fault(target) == Some(
            Error::FanOpen(cause),
        ),
{
}

/// A fan in a directory is given back by a zero in its `_target` file there.
pub proof fn fan_is_given_back_by_a_zero(
    release: Result<FanWrite, Error>,
    dir: Seq<char>,
    name: Seq<char>,
)
    requires
        gives_back(release, dir + "/"@ + name),
        dir.len() > 0,
        dir.last() != '/',
        stripped(dir) == dir,
        name.len() > 0,
        name.last() != '.',
        forall|i: int| 0 <= i < name.len() ==> (#[trigger] name[i]) != '/',
    ensures
        release matches Ok(write) && write.path@ == dir + "/"@ + name + "_target"@ && write.text@
            == "0"@,
{
    suffix_goes_to_the_name(dir, name, "_target"@);
}

/// However the limits are written, with a sign or zeros before them, they are read as the numbers
/// that they are.
pub proof fn any_numbers_are_limits(min: SpeedRead, max: SpeedRead, lo: u32, hi: u32)
    requires
        min matches SpeedRead::Text(s) && number(trim(s@), 10, u32::MAX as nat) == Some(lo as nat),
        max matches SpeedRead::Text(s) && number(trim_end(s@), 10, u32::MAX as nat) == Some(
            hi as nat,
        ),
    ensures
        speed_limits(min, max) == Ok::<(u32, u32), Error>((lo, hi)),
{
}

/// A place that was found on a fan's curve is measured in the fan's own degrees and speeds; and none
/// is found only where the fan is off its curve.
pub proof fn found_place_is_the_fans_own(fan: FanController, temp: u8, point: Option<CurvePoint>)
    requires
        fan.lies_at(temp, point),
    ensures
        point is None <==> fan.settings().always_full_speed || temp <= fan.settings().low_temp
            || temp >= fan.settings().high_temp,
        point matches Some(p) ==> {
            &&& fan.settings().low_temp + p.above == temp
            &&& fan.settings().low_temp + p.span == fan.settings().high_temp
            &&& fan.min() + p.range == fan.max()
            &&& fan.settings().speed_curve != SpeedCurve::Exponential ==> p.curve
                == fan.settings().speed_curve
            &&& fan.settings().speed_curve == SpeedCurve::Exponential && !is_worth(
                fan.settings().exp_pow@,
                1,
            ) ==> p.curve == SpeedCurve::Exponential && p.exp_pow@ == fan.settings().exp_pow@
        },
{
}

} // verus!
