//! What the configuration says of each fan, and how it is read and written.

use crate::decimal::{is_decimal, is_worth, Decimal};
use crate::error::Error;
use crate::ini_file::{first_value, ini_get, ini_properties, ini_sections, ini_set, with_pair};
use crate::text::{
    concat, decimal, decimal_reads_back, decimal_text, joined_with, number, parse_number,
    pieces_of_two_texts, same_text, split_on, split_text, starts_with, strip_prefix,
    text_without_the_separator_is_one_piece, texts, trim, trim_text,
};
use vstd::prelude::*;
use vstd::string::*;

verus! {

/// How a fan's speed grows between its low and its high temperature.
#[derive(Clone, Copy, Debug, PartialEq, Eq, Structural)]
pub enum SpeedCurve {
    Linear,
    Exponential,
    Logarithmic,
}

/// The name of a curve in the configuration.
pub open spec fn curve_name(curve: SpeedCurve) -> Seq<char> {
    match curve {
        SpeedCurve::Linear => "linear"@,
        SpeedCurve::Exponential => "exponential"@,
        SpeedCurve::Logarithmic => "logarithmic"@,
    }
}

/// The curve that a name stands for.
pub open spec fn named_curve(name: Seq<char>) -> Option<SpeedCurve> {
    if name == "linear"@ {
        Some(SpeedCurve::Linear)
    } else if name == "exponential"@ {
        Some(SpeedCurve::Exponential)
    } else if name == "logarithmic"@ {
        Some(SpeedCurve::Logarithmic)
    } else {
        None
    }
}

impl SpeedCurve {
    /// The curve's name.
    pub fn to_string(&self) -> (r: String)
        ensures
            r@ == curve_name(*self),
    {
        match self {
            SpeedCurve::Linear => "linear".to_owned(),
            SpeedCurve::Exponential => "exponential".to_owned(),
            SpeedCurve::Logarithmic => "logarithmic".to_owned(),
        }
    }

    /// The curve with this name.
    pub fn from_str(s: &str) -> (r: Result<SpeedCurve, ()>)
        ensures
            r is Ok <==> named_curve(s@) is Some,
            r is Ok ==> r->Ok_0 == named_curve(s@)->0,
    {
        if same_text(s, "linear") {
            Ok(SpeedCurve::Linear)
        } else if same_text(s, "exponential") {
            Ok(SpeedCurve::Exponential)
        } else if same_text(s, "logarithmic") {
            Ok(SpeedCurve::Logarithmic)
        } else {
            Err(())
        }
    }
}

/// A curve is found again by its name.
pub proof fn curve_name_reads_back(curve: SpeedCurve)
    ensures
        named_curve(curve_name(curve)) == Some(curve),
{
    reveal_strlit("linear");
    reveal_strlit("exponential");
    reveal_strlit("logarithmic");
    assert("linear"@.len() == 6);
    assert("exponential"@.len() == 11 && "exponential"@[0] == 'e');
    assert("logarithmic"@.len() == 11 && "logarithmic"@[0] == 'l');
}

/// A temperature sensor that drives a fan.
#[derive(Debug)]
pub enum SensorSpec {
    /// The CPU's sensor.
    Cpu,
    /// The sensors of the GPUs in this physical slot.
    Slot(String),
}

/// What a [`SensorSpec`] says.
pub enum SensorSpecView {
    Cpu,
    Slot(Seq<char>),
}

impl View for SensorSpec {
    type V = SensorSpecView;

    open spec fn view(&self) -> SensorSpecView {
        match self {
            SensorSpec::Cpu => SensorSpecView::Cpu,
            SensorSpec::Slot(n) => SensorSpecView::Slot(n@),
        }
    }
}

impl Clone for SensorSpec {
    fn clone(&self) -> (r: Self)
        ensures
            r@ == self@,
    {
        match self {
            SensorSpec::Cpu => SensorSpec::Cpu,
            SensorSpec::Slot(n) => SensorSpec::Slot(n.clone()),
        }
    }
}

/// What a list of sensors says.
pub open spec fn sensor_views(v: Seq<SensorSpec>) -> Seq<SensorSpecView> {
    Seq::new(v.len(), |i: int| v[i]@)
}

/// The sensor that one entry of the `sensors` list names: `cpu`, or `slot:` and a slot.
pub open spec fn sensor_entry(s: Seq<char>) -> Option<SensorSpecView> {
    if s == "cpu"@ {
        Some(SensorSpecView::Cpu)
    } else if starts_with(s, "slot:"@) && s.len() > "slot:"@.len() {
        Some(SensorSpecView::Slot(s.skip("slot:"@.len() as int)))
    } else {
        None
    }
}

/// How a sensor is written in the `sensors` list.
pub open spec fn sensor_text(sensor: SensorSpecView) -> Seq<char> {
    match sensor {
        SensorSpecView::Cpu => "cpu"@,
        SensorSpecView::Slot(n) => "slot:"@ + n,
    }
}

impl SensorSpec {
    /// Reads one entry of the `sensors` list.
    pub fn parse(s: &str) -> (r: Option<SensorSpec>)
        ensures
            r is Some <==> sensor_entry(s@) is Some,
            r is Some ==> r->0@ == sensor_entry(s@)->0,
    {
        if same_text(s, "cpu") {
            return Some(SensorSpec::Cpu);
        }
        match strip_prefix(s, "slot:") {
            Some(slot) => if slot.is_empty() {
                None
            } else {
                Some(SensorSpec::Slot(slot.to_owned()))
            },
            None => None,
        }
    }

    /// How the sensor is written in the `sensors` list.
    pub fn to_text(&self) -> (r: String)
        ensures
            r@ == sensor_text(self@),
    {
        match self {
            SensorSpec::Cpu => "cpu".to_owned(),
            SensorSpec::Slot(n) => concat("slot:", n.as_str()),
        }
    }

    /// Whether two entries name the same sensor.
    pub fn same(&self, other: &SensorSpec) -> (r: bool)
        ensures
            r == (self@ == other@),
    {
        match (self, other) {
            (SensorSpec::Cpu, SensorSpec::Cpu) => true,
            (SensorSpec::Slot(a), SensorSpec::Slot(b)) => same_text(a.as_str(), b.as_str()),
            _ => false,
        }
    }
}

/// The sensors that the pieces of a `sensors` list name, white space around a piece and empty
/// pieces left out; `None` where a piece names no sensor.
pub open spec fn sensor_entries(pieces: Seq<Seq<char>>) -> Option<Seq<SensorSpecView>>
    decreases pieces.len(),
{
    if pieces.len() == 0 {
        Some(Seq::empty())
    } else {
        let before = sensor_entries(pieces.drop_last());
        let piece = trim(pieces.last());
        if piece.len() == 0 {
            before
        } else {
            match (before, sensor_entry(piece)) {
                (Some(sensors), Some(sensor)) => Some(sensors.push(sensor)),
                _ => None,
            }
        }
    }
}

/// The sensors that a comma-separated list names.
pub open spec fn sensor_list(s: Seq<char>) -> Option<Seq<SensorSpecView>> {
    sensor_entries(split_on(s, ','))
}

/// One bad entry spoils the list.
proof fn lemma_entries_fail(pieces: Seq<Seq<char>>, k: int)
    requires
        0 <= k <= pieces.len(),
        sensor_entries(pieces.take(k)) is None,
    ensures
        sensor_entries(pieces) is None,
    decreases pieces.len() - k,
{
    if k == pieces.len() {
        assert(pieces.take(k) =~= pieces);
    } else {
        assert(pieces.take(k + 1).drop_last() =~= pieces.take(k));
        lemma_entries_fail(pieces, k + 1);
    }
}

/// Reads a comma-separated list of sensors.
pub fn parse_sensors(s: &str) -> (r: Option<Vec<SensorSpec>>)
    ensures
        r is Some <==> sensor_list(s@) is Some,
        r is Some ==> sensor_views(r->0@) == sensor_list(s@)->0,
{
    let pieces: Vec<String> = split_text(s, ',');
    let ghost all = texts(pieces@);
    let mut sensors: Vec<SensorSpec> = Vec::new();
    let mut i: usize = 0;
    assert(all.take(0) =~= Seq::<Seq<char>>::empty());
    assert(sensor_views(sensors@) =~= Seq::<SensorSpecView>::empty());
    while i < pieces.len()
        invariant
            i <= pieces.len(),
            all == texts(pieces@),
            all == split_on(s@, ','),
            sensor_entries(all.take(i as int)) == Some(sensor_views(sensors@)),
        decreases pieces.len() - i,
    {
        let piece: &str = trim_text(pieces[i].as_str());
        assert(all.take(i + 1).drop_last() =~= all.take(i as int));
        assert(all.take(i + 1).last() == pieces@[i as int]@);
        if !piece.is_empty() {
            match SensorSpec::parse(piece) {
                Some(sensor) => {
                    let ghost before = sensor_views(sensors@);
                    sensors.push(sensor);
                    assert(sensor_views(sensors@) =~= before.push(sensor@));
                },
                None => {
                    proof {
                        lemma_entries_fail(all, i + 1);
                    }
                    return None;
                },
            }
        }
        i = i + 1;
    }
    assert(all.take(i as int) =~= all);
    Some(sensors)
}

/// What the configuration says of one fan.
#[derive(Debug)]
pub struct FanConfig {
    /// The fan is left under the SMC's control.
    pub auto: bool,
    pub low_temp: u8,
    pub high_temp: u8,
    pub speed_curve: SpeedCurve,
    pub always_full_speed: bool,
    /// The sensors that drive the fan.
    pub sensors: Vec<SensorSpec>,
    /// Exponent for the exponential speed curve. Only used when `speed_curve` is `Exponential`.
    /// Defaults to 3.
    pub exp_pow: Decimal,
}

/// What a [`FanConfig`] says.
pub struct FanConfigView {
    pub auto: bool,
    pub low_temp: u8,
    pub high_temp: u8,
    pub speed_curve: SpeedCurve,
    pub always_full_speed: bool,
    pub sensors: Seq<SensorSpecView>,
    pub exp_pow: Seq<char>,
}

impl View for FanConfig {
    type V = FanConfigView;

    open spec fn view(&self) -> FanConfigView {
        FanConfigView {
            auto: self.auto,
            low_temp: self.low_temp,
            high_temp: self.high_temp,
            speed_curve: self.speed_curve,
            always_full_speed: self.always_full_speed,
            sensors: sensor_views(self.sensors@),
            exp_pow: self.exp_pow@,
        }
    }
}

/// What a list of configurations says.
pub open spec fn config_views(v: Seq<FanConfig>) -> Seq<FanConfigView> {
    Seq::new(v.len(), |i: int| v[i]@)
}

/// The configuration that a fan has to begin with. It names no sensors, and a fan without sensors
/// cannot be controlled: so the fan is left to the SMC until it is given some.
pub open spec fn default_config() -> FanConfigView {
    FanConfigView {
        auto: true,
        low_temp: 55,
        high_temp: 75,
        speed_curve: SpeedCurve::Linear,
        always_full_speed: false,
        sensors: Seq::empty(),
        exp_pow: "3"@,
    }
}

impl Default for FanConfig {
    fn default() -> (r: Self)
        ensures
            r@ == default_config(),
    {
        let r: FanConfig = FanConfig {
            auto: true,
            low_temp: 55,
            high_temp: 75,
            speed_curve: SpeedCurve::Linear,
            always_full_speed: false,
            sensors: Vec::new(),
            exp_pow: Decimal::three(),
        };
        assert(r@.sensors =~= Seq::<SensorSpecView>::empty());
        r
    }
}

impl Clone for FanConfig {
    fn clone(&self) -> (r: Self)
        ensures
            r@ == self@,
    {
        let mut sensors: Vec<SensorSpec> = Vec::new();
        let mut i: usize = 0;
        while i < self.sensors.len()
            invariant
                i <= self.sensors.len(),
                sensors.len() == i,
                forall|j: int| 0 <= j < i ==> (#[trigger] sensors@[j])@ == self.sensors@[j]@,
            decreases self.sensors.len() - i,
        {
            sensors.push(self.sensors[i].clone());
            i = i + 1;
        }
        assert(sensor_views(sensors@) =~= sensor_views(self.sensors@));
        FanConfig {
            auto: self.auto,
            low_temp: self.low_temp,
            high_temp: self.high_temp,
            speed_curve: self.speed_curve,
            always_full_speed: self.always_full_speed,
            sensors,
            exp_pow: self.exp_pow.clone(),
        }
    }
}

/// The values that a fan's section has, as they are written.
#[derive(Debug)]
pub struct SectionValues {
    pub auto: Option<String>,
    pub low_temp: Option<String>,
    pub high_temp: Option<String>,
    pub speed_curve: Option<String>,
    pub always_full_speed: Option<String>,
    pub sensors: Option<String>,
    pub exp_pow: Option<String>,
}

/// What [`SectionValues`] holds.
pub struct SectionValuesView {
    pub auto: Option<Seq<char>>,
    pub low_temp: Option<Seq<char>>,
    pub high_temp: Option<Seq<char>>,
    pub speed_curve: Option<Seq<char>>,
    pub always_full_speed: Option<Seq<char>>,
    pub sensors: Option<Seq<char>>,
    pub exp_pow: Option<Seq<char>>,
}

/// The text that is there, if any.
pub open spec fn text_of(s: Option<String>) -> Option<Seq<char>> {
    match s {
        Some(s) => Some(s@),
        None => None,
    }
}

impl View for SectionValues {
    type V = SectionValuesView;

    open spec fn view(&self) -> SectionValuesView {
        SectionValuesView {
            auto: text_of(self.auto),
            low_temp: text_of(self.low_temp),
            high_temp: text_of(self.high_temp),
            speed_curve: text_of(self.speed_curve),
            always_full_speed: text_of(self.always_full_speed),
            sensors: text_of(self.sensors),
            exp_pow: text_of(self.exp_pow),
        }
    }
}

/// The values that a section's pairs give.
pub open spec fn values_of(properties: Seq<(Seq<char>, Seq<char>)>) -> SectionValuesView {
    SectionValuesView {
        auto: first_value(properties, "auto"@),
        low_temp: first_value(properties, "low_temp"@),
        high_temp: first_value(properties, "high_temp"@),
        speed_curve: first_value(properties, "speed_curve"@),
        always_full_speed: first_value(properties, "always_full_speed"@),
        sensors: first_value(properties, "sensors"@),
        exp_pow: first_value(properties, "exp_pow"@),
    }
}

/// A value that must be there and be usable.
pub open spec fn required<T>(
    value: Option<Seq<char>>,
    read: spec_fn(Seq<char>) -> Option<T>,
    key: &'static str,
) -> Result<T, Error> {
    match value {
        None => Err(Error::MissingConfigValue(key)),
        Some(s) => match read(s) {
            Some(v) => Ok(v),
            None => Err(Error::InvalidConfigValue(key)),
        },
    }
}

/// A value that may be missing, but must be usable where it is there.
pub open spec fn optional<T>(
    value: Option<Seq<char>>,
    read: spec_fn(Seq<char>) -> Option<T>,
    default: T,
    key: &'static str,
) -> Result<T, Error> {
    match value {
        None => Ok(default),
        Some(s) => required(Some(s), read, key),
    }
}

/// `true` or `false`.
pub open spec fn boolean(s: Seq<char>) -> Option<bool> {
    if s == "true"@ {
        Some(true)
    } else if s == "false"@ {
        Some(false)
    } else {
        None
    }
}

/// How a truth value is written.
pub open spec fn boolean_name(b: bool) -> Seq<char> {
    if b {
        "true"@
    } else {
        "false"@
    }
}

/// A whole number of degrees that fits a byte.
pub open spec fn degrees(s: Seq<char>) -> Option<u8> {
    match number(s, 10, 255) {
        Some(n) => Some(n as u8),
        None => None,
    }
}

/// A decimal number.
pub open spec fn exponent(s: Seq<char>) -> Option<Seq<char>> {
    if is_decimal(s) {
        Some(s)
    } else {
        None
    }
}

/// The sensors that a section gives: a list that names none is a missing list.
pub open spec fn sensors_value(value: Option<Seq<char>>) -> Result<Seq<SensorSpecView>, Error> {
    match required(value, |s: Seq<char>| sensor_list(s), "sensors") {
        Ok(sensors) => if sensors.len() == 0 {
            Err(Error::MissingConfigValue("sensors"))
        } else {
            Ok(sensors)
        },
        Err(e) => Err(e),
    }
}

/// The configuration that a section's values give, or the first fault in them. A fan that is left
/// to the SMC has the default for everything else, whatever the section says; any other fan has
/// to have sensors.
pub open spec fn config_of(values: SectionValuesView) -> Result<FanConfigView, Error> {
    match optional(values.auto, |s: Seq<char>| boolean(s), false, "auto") {
        Err(e) => Err(e),
        Ok(true) => Ok(default_config()),
        Ok(false) => match optional(
            values.exp_pow,
            |s: Seq<char>| exponent(s),
            "3"@,
            "exp_pow",
        ) {
            Err(e) => Err(e),
            Ok(exp_pow) => curve_of(values, exp_pow),
        },
    }
}

/// The configuration that the values of a section give with this exponent. What drives the fan is
/// looked at last.
pub open spec fn curve_of(
    values: SectionValuesView,
    exp_pow: Seq<char>,
) -> Result<FanConfigView, Error> {
    match required(values.low_temp, |s: Seq<char>| degrees(s), "low_temp") {
        Err(e) => Err(e),
        Ok(low_temp) => match required(values.high_temp, |s: Seq<char>| degrees(s), "high_temp") {
            Err(e) => Err(e),
            Ok(high_temp) => match required(
                values.speed_curve,
                |s: Seq<char>| named_curve(s),
                "speed_curve",
            ) {
                Err(e) => Err(e),
                Ok(speed_curve) => match required(
                    values.always_full_speed,
                    |s: Seq<char>| boolean(s),
                    "always_full_speed",
                ) {
                    Err(e) => Err(e),
                    Ok(always_full_speed) => match sensors_value(values.sensors) {
                        Err(e) => Err(e),
                        Ok(sensors) => Ok(
                            FanConfigView {
                                auto: false,
                                low_temp,
                                high_temp,
                                speed_curve,
                                always_full_speed,
                                sensors,
                                exp_pow,
                            },
                        ),
                    },
                },
            },
        },
    }
}

/// Reads a truth value that must be usable.
fn parse_boolean(s: &str, key: &'static str) -> (r: Result<bool, Error>)
    ensures
        r == required(Some(s@), |s: Seq<char>| boolean(s), key),
{
    if same_text(s, "true") {
        Ok(true)
    } else if same_text(s, "false") {
        Ok(false)
    } else {
        Err(Error::InvalidConfigValue(key))
    }
}

/// Reads a temperature that must be there.
fn require_degrees(value: &Option<String>, key: &'static str) -> (r: Result<u8, Error>)
    ensures
        r == required(text_of(*value), |s: Seq<char>| degrees(s), key),
{
    match value {
        None => Err(Error::MissingConfigValue(key)),
        Some(s) => match parse_number(s.as_str(), 10, 255) {
            Some(n) => Ok(n as u8),
            None => Err(Error::InvalidConfigValue(key)),
        },
    }
}

/// Reads the sensors, which must be there.
fn require_sensors(value: &Option<String>) -> (r: Result<Vec<SensorSpec>, Error>)
    ensures
        match r {
            Ok(sensors) => sensors_value(text_of(*value)) == Ok::<Seq<SensorSpecView>, Error>(
                sensor_views(sensors@),
            ),
            Err(e) => sensors_value(text_of(*value)) == Err::<Seq<SensorSpecView>, Error>(e),
        },
{
    match value {
        None => Err(Error::MissingConfigValue("sensors")),
        Some(s) => match parse_sensors(s.as_str()) {
            Some(sensors) => if sensors.len() == 0 {
                Err(Error::MissingConfigValue("sensors"))
            } else {
                Ok(sensors)
            },
            None => Err(Error::InvalidConfigValue("sensors")),
        },
    }
}

/// Whether a reading of a configuration came out as `expected`.
pub open spec fn config_result(
    r: Result<FanConfig, Error>,
    expected: Result<FanConfigView, Error>,
) -> bool {
    match r {
        Ok(config) => expected == Ok::<FanConfigView, Error>(config@),
        Err(e) => expected == Err::<FanConfigView, Error>(e),
    }
}

impl FanConfig {
    /// Reads the configuration of one fan out of its section's values.
    pub fn from_values(values: &SectionValues) -> (r: Result<FanConfig, Error>)
        ensures
            config_result(r, config_of(values@)),
    {
        let auto: bool = match &values.auto {
            None => false,
            Some(s) => match parse_boolean(s.as_str(), "auto") {
                Ok(b) => b,
                Err(e) => return Err(e),
            },
        };
        if auto {
            return Ok(FanConfig::default());
        }
        let exp_pow: Decimal = match &values.exp_pow {
            None => Decimal::three(),
            Some(s) => match Decimal::parse(s.as_str()) {
                Some(d) => d,
                None => return Err(Error::InvalidConfigValue("exp_pow")),
            },
        };
        let low_temp: u8 = match require_degrees(&values.low_temp, "low_temp") {
            Ok(t) => t,
            Err(e) => return Err(e),
        };
        let high_temp: u8 = match require_degrees(&values.high_temp, "high_temp") {
            Ok(t) => t,
            Err(e) => return Err(e),
        };
        let speed_curve: SpeedCurve = match &values.speed_curve {
            None => return Err(Error::MissingConfigValue("speed_curve")),
            Some(s) => match SpeedCurve::from_str(s.as_str()) {
                Ok(curve) => curve,
                Err(_) => return Err(Error::InvalidConfigValue("speed_curve")),
            },
        };
        let always_full_speed: bool = match &values.always_full_speed {
            None => return Err(Error::MissingConfigValue("always_full_speed")),
            Some(s) => match parse_boolean(s.as_str(), "always_full_speed") {
                Ok(b) => b,
                Err(e) => return Err(e),
            },
        };
        let sensors: Vec<SensorSpec> = match require_sensors(&values.sensors) {
            Ok(sensors) => sensors,
            Err(e) => return Err(e),
        };
        Ok(
            FanConfig {
                auto: false,
                low_temp,
                high_temp,
                speed_curve,
                always_full_speed,
                sensors,
                exp_pow,
            },
        )
    }

    /// Reads the configuration of one fan out of its section.
    pub fn try_from(properties: &ini::Properties) -> (r: Result<FanConfig, Error>)
        ensures
            config_result(r, config_of(values_of(ini_properties(*properties)))),
    {
        let values: SectionValues = SectionValues {
            auto: own(ini_get(properties, "auto")),
            low_temp: own(ini_get(properties, "low_temp")),
            high_temp: own(ini_get(properties, "high_temp")),
            speed_curve: own(ini_get(properties, "speed_curve")),
            always_full_speed: own(ini_get(properties, "always_full_speed")),
            sensors: own(ini_get(properties, "sensors")),
            exp_pow: own(ini_get(properties, "exp_pow")),
        };
        assert(values@ == values_of(ini_properties(*properties)));
        FanConfig::from_values(&values)
    }

    /// The pairs of the section for this configuration.
    fn pairs(&self) -> (r: Vec<(&'static str, String)>)
        ensures
            pair_views(r@) == config_pairs(self@),
    {
        let mut r: Vec<(&'static str, String)> = Vec::new();
        if self.auto {
            r.push(("auto", "true".to_owned()));
        }
        r.push(("low_temp", decimal_text(self.low_temp as u64)));
        r.push(("high_temp", decimal_text(self.high_temp as u64)));
        r.push(("speed_curve", self.speed_curve.to_string()));
        r.push(("always_full_speed", boolean_text(self.always_full_speed)));
        if self.sensors.len() > 0 {
            r.push(("sensors", join_sensors(&self.sensors)));
        }
        let exponential: bool = match self.speed_curve {
            SpeedCurve::Exponential => true,
            _ => false,
        };
        if exponential && !self.exp_pow.equals(3) {
            r.push(("exp_pow", self.exp_pow.as_text().to_owned()));
        }
        assert(pair_views(r@) =~= config_pairs(self@));
        r
    }

    /// Writes the configuration into a section of a file.
    pub fn write_property(&self, file: &mut ini::Ini, section: &str)
        ensures
            ini_sections(*final(file)) == with_pairs(
                ini_sections(*old(file)),
                section@,
                config_pairs(self@),
            ),
    {
        let pairs: Vec<(&'static str, String)> = self.pairs();
        let ghost all = pair_views(pairs@);
        let ghost before = ini_sections(*file);
        let mut i: usize = 0;
        assert(all.take(0) =~= Seq::<(Seq<char>, Seq<char>)>::empty());
        while i < pairs.len()
            invariant
                i <= pairs.len(),
                all == pair_views(pairs@),
                ini_sections(*file) == with_pairs(before, section@, all.take(i as int)),
            decreases pairs.len() - i,
        {
            ini_set(file, section, pairs[i].0, pairs[i].1.as_str());
            assert(all.take(i + 1).drop_last() =~= all.take(i as int));
            i = i + 1;
        }
        assert(all.take(i as int) =~= all);
    }
}

/// A text that is there, owned.
fn own(s: Option<&str>) -> (r: Option<String>)
    ensures
        r is Some <==> s is Some,
        r is Some ==> r->0@ == s->0@,
{
    match s {
        Some(s) => Some(s.to_owned()),
        None => None,
    }
}

/// Writes a truth value.
fn boolean_text(b: bool) -> (r: String)
    ensures
        r@ == boolean_name(b),
{
    if b {
        "true".to_owned()
    } else {
        "false".to_owned()
    }
}

/// How a list of sensors is written: with commas between.
pub open spec fn sensors_text(sensors: Seq<SensorSpecView>) -> Seq<char>
    decreases sensors.len(),
{
    if sensors.len() == 0 {
        Seq::empty()
    } else if sensors.len() == 1 {
        sensor_text(sensors[0])
    } else {
        sensors_text(sensors.drop_last()) + seq![','] + sensor_text(sensors.last())
    }
}

/// Writes a list of sensors.
fn join_sensors(sensors: &Vec<SensorSpec>) -> (r: String)
    ensures
        r@ == sensors_text(sensor_views(sensors@)),
{
    let ghost all = sensor_views(sensors@);
    let mut r: String = String::new();
    let mut i: usize = 0;
    assert(all.take(0) =~= Seq::<SensorSpecView>::empty());
    while i < sensors.len()
        invariant
            i <= sensors.len(),
            all == sensor_views(sensors@),
            r@ == sensors_text(all.take(i as int)),
        decreases sensors.len() - i,
    {
        let entry: String = sensors[i].to_text();
        assert(all.take(i + 1).drop_last() =~= all.take(i as int));
        if i > 0 {
            proof {
                reveal_strlit(",");
                assert(","@ =~= seq![',']);
            }
            r.append(",");
        }
        r.append(entry.as_str());
        assert(i == 0 ==> r@ =~= entry@);
        i = i + 1;
    }
    assert(all.take(i as int) =~= all);
    r
}

/// The key-value pairs that a list holds.
pub open spec fn pair_views(v: Seq<(&'static str, String)>) -> Seq<(Seq<char>, Seq<char>)> {
    Seq::new(v.len(), |i: int| (v[i].0@, v[i].1@))
}

/// The key-value pairs that a configuration is written as. What has its default is left out where
/// a section may lack it.
pub open spec fn config_pairs(config: FanConfigView) -> Seq<(Seq<char>, Seq<char>)> {
    let auto = if config.auto {
        seq![("auto"@, "true"@)]
    } else {
        Seq::empty()
    };
    let curve = seq![
        ("low_temp"@, decimal(config.low_temp as nat)),
        ("high_temp"@, decimal(config.high_temp as nat)),
        ("speed_curve"@, curve_name(config.speed_curve)),
        ("always_full_speed"@, boolean_name(config.always_full_speed)),
    ];
    let sensors = if config.sensors.len() > 0 {
        seq![("sensors"@, sensors_text(config.sensors))]
    } else {
        Seq::empty()
    };
    let exp_pow = if config.speed_curve == SpeedCurve::Exponential && !is_worth(config.exp_pow, 3) {
        seq![("exp_pow"@, config.exp_pow)]
    } else {
        Seq::empty()
    };
    auto + curve + sensors + exp_pow
}

/// The sections after each pair was set in the section with this name, one after the other.
pub open spec fn with_pairs(
    sections: Seq<(Option<Seq<char>>, Seq<(Seq<char>, Seq<char>)>)>,
    name: Seq<char>,
    pairs: Seq<(Seq<char>, Seq<char>)>,
) -> Seq<(Option<Seq<char>>, Seq<(Seq<char>, Seq<char>)>)>
    decreases pairs.len(),
{
    if pairs.len() == 0 {
        sections
    } else {
        with_pair(
            with_pairs(sections, name, pairs.drop_last()),
            name,
            pairs.last().0,
            pairs.last().1,
        )
    }
}

/// Whatever else the sections say, two fans that are left to the SMC are configured alike.
pub proof fn auto_ignores_the_rest(a: SectionValuesView, b: SectionValuesView)
    requires
        a.auto == Some("true"@),
        b.auto == Some("true"@),
    ensures
        config_of(a) == config_of(b),
        config_of(a) is Ok,
        config_of(a)->Ok_0.auto,
{
}

/// A fan that is not left to the SMC is refused without sensors.
pub proof fn sensors_are_mandatory(values: SectionValuesView)
    ensures
        config_of(values) matches Ok(config) ==> config.auto || config.sensors.len() > 0,
        (values.auto is None || values.auto == Some("false"@)) && sensors_value(
            values.sensors,
        ) is Err ==> config_of(values) is Err,
{
    reveal_strlit("true");
    reveal_strlit("false");
    assert("true"@.len() == 4 && "false"@.len() == 5);
}

/// Where nothing is wrong with a section but that it says of no sensor that it drives the fan, that
/// is the fault.
pub proof fn missing_sensors_are_named(values: SectionValuesView, list: Seq<char>)
    requires
        values.sensors is None,
        config_of(SectionValuesView { sensors: Some(list), ..values }) matches Ok(config)
            && !config.auto,
    ensures
        config_of(values) == Err::<FanConfigView, Error>(Error::MissingConfigValue("sensors")),
{
}

/// The curves have the names of the configuration's documentation, and no other text names one.
pub proof fn curves_have_three_names(name: Seq<char>)
    ensures
        curve_name(SpeedCurve::Linear) == "linear"@,
        curve_name(SpeedCurve::Exponential) == "exponential"@,
        curve_name(SpeedCurve::Logarithmic) == "logarithmic"@,
        named_curve(name) matches Some(curve) ==> name == curve_name(curve),
        named_curve(name) is None ==> name != "linear"@ && name != "exponential"@ && name
            != "logarithmic"@,
{
}

/// An entry is `cpu`, or `slot:` with the name of a slot after it; nothing else is one.
pub proof fn entry_is_the_cpu_or_a_slot(s: Seq<char>, n: Seq<char>)
    requires
        n.len() > 0,
    ensures
        sensor_entry("cpu"@) == Some(SensorSpecView::Cpu),
        sensor_entry("slot:"@ + n) == Some(SensorSpecView::Slot(n)),
        sensor_entry("slot:"@) is None,
        sensor_entry(s) == Some(SensorSpecView::Cpu) ==> s == "cpu"@,
        sensor_entry(s) matches Some(SensorSpecView::Slot(m)) ==> s == "slot:"@ + m && m.len() > 0,
{
    reveal_strlit("cpu");
    reveal_strlit("slot:");
    let t = "slot:"@ + n;
    assert(t.take(5) =~= "slot:"@);
    assert(t.skip(5) =~= n);
    assert(t[0] == 's' && "cpu"@[0] == 'c');
    assert("slot:"@.len() == 5 && "cpu"@.len() == 3);
    if let Some(SensorSpecView::Slot(m)) = sensor_entry(s) {
        assert(s =~= s.take(5) + s.skip(5));
    }
}

/// A list without a comma is one entry, with white space around it left out, or none.
pub proof fn list_without_a_comma_is_one_entry(s: Seq<char>)
    requires
        forall|i: int| 0 <= i < s.len() ==> (#[trigger] s[i]) != ',',
    ensures
        trim(s).len() == 0 ==> sensor_list(s) == Some(Seq::<SensorSpecView>::empty()),
        trim(s).len() > 0 ==> match sensor_entry(trim(s)) {
            Some(sensor) => sensor_list(s) == Some(seq![sensor]),
            None => sensor_list(s) is None,
        },
{
    text_without_the_separator_is_one_piece(s, ',');
    let pieces = seq![s];
    assert(pieces.drop_last() =~= Seq::<Seq<char>>::empty());
    assert(pieces.last() == s);
    assert(sensor_entries(pieces.drop_last()) == Some(Seq::<SensorSpecView>::empty()));
    if let Some(sensor) = sensor_entry(trim(s)) {
        assert(Seq::<SensorSpecView>::empty().push(sensor) =~= seq![sensor]);
    }
}

/// The entries of some pieces and then of others.
proof fn lemma_entries_concat(a: Seq<Seq<char>>, b: Seq<Seq<char>>)
    ensures
        sensor_entries(a + b) == (match (sensor_entries(a), sensor_entries(b)) {
            (Some(x), Some(y)) => Some(x + y),
            _ => None,
        }),
    decreases b.len(),
{
    if b.len() == 0 {
        assert(a + b =~= a);
        if let Some(x) = sensor_entries(a) {
            assert(x + Seq::<SensorSpecView>::empty() =~= x);
        }
    } else {
        lemma_entries_concat(a, b.drop_last());
        assert((a + b).drop_last() =~= a + b.drop_last());
        if let (Some(x), Some(y), Some(z)) = (
            sensor_entries(a),
            sensor_entries(b.drop_last()),
            sensor_entry(trim(b.last())),
        ) {
            assert((x + y).push(z) =~= x + y.push(z));
        }
    }
}

/// A list goes on after a comma: the entries before it come first, those after it follow, and a
/// wrong entry on either side spoils the whole.
pub proof fn list_goes_on_after_a_comma(a: Seq<char>, b: Seq<char>)
    ensures
        sensor_list(a + seq![','] + b) == (match (sensor_list(a), sensor_list(b)) {
            (Some(x), Some(y)) => Some(x + y),
            _ => None,
        }),
{
    pieces_of_two_texts(a, b, ',');
    lemma_entries_concat(split_on(a, ','), split_on(b, ','));
}

/// A list of sensors is written as the texts of its entries with commas between them.
pub proof fn sensors_are_written_with_commas(sensors: Seq<SensorSpecView>)
    ensures
        sensors_text(sensors) == joined_with(
            sensors.map_values(|s: SensorSpecView| sensor_text(s)),
            ',',
        ),
        forall|n: Seq<char>| #![trigger sensor_text(SensorSpecView::Slot(n))]
            sensor_text(SensorSpecView::Slot(n)) == "slot:"@ + n,
        sensor_text(SensorSpecView::Cpu) == "cpu"@,
    decreases sensors.len(),
{
    let all = sensors.map_values(|s: SensorSpecView| sensor_text(s));
    if sensors.len() > 1 {
        sensors_are_written_with_commas(sensors.drop_last());
        assert(all.drop_last() =~= sensors.drop_last().map_values(
            |s: SensorSpecView| sensor_text(s),
        ));
    }
}

/// Each value of a section is looked up under its own key.
pub proof fn each_value_has_its_own_key(p: Seq<(Seq<char>, Seq<char>)>)
    ensures
        values_of(p).auto == first_value(p, "auto"@),
        values_of(p).low_temp == first_value(p, "low_temp"@),
        values_of(p).high_temp == first_value(p, "high_temp"@),
        values_of(p).speed_curve == first_value(p, "speed_curve"@),
        values_of(p).always_full_speed == first_value(p, "always_full_speed"@),
        values_of(p).sensors == first_value(p, "sensors"@),
        values_of(p).exp_pow == first_value(p, "exp_pow"@),
{
}

/// A configuration that a section gives says what the section says: the fan is left to the SMC
/// exactly where `auto` is `true`, and any other fan has each value as it stands there.
pub proof fn configuration_says_what_the_section_says(values: SectionValuesView)
    ensures
        config_of(values) matches Ok(config) ==> {
            &&& config.auto <==> values.auto == Some("true"@)
            &&& !config.auto ==> {
                &&& values.auto is None || values.auto == Some("false"@)
                &&& values.low_temp is Some && number(values.low_temp->0, 10, 255) == Some(
                    config.low_temp as nat,
                )
                &&& values.high_temp is Some && number(values.high_temp->0, 10, 255) == Some(
                    config.high_temp as nat,
                )
                &&& values.speed_curve == Some(curve_name(config.speed_curve))
                &&& values.always_full_speed == Some(
                    if config.always_full_speed {
                        "true"@
                    } else {
                        "false"@
                    },
                )
                &&& values.sensors is Some && sensor_list(values.sensors->0) == Some(config.sensors)
                &&& config.sensors.len() > 0
                &&& values.exp_pow is None ==> config.exp_pow == "3"@
                &&& values.exp_pow matches Some(e) ==> config.exp_pow == e && is_decimal(e)
            }
        },
{
    reveal_strlit("true");
    reveal_strlit("false");
    assert("true"@.len() == 4 && "false"@.len() == 5);
    if let Some(name) = values.speed_curve {
        curves_have_three_names(name);
    }
}

/// A section with a usable value under each key that has to be there is read, and gives the values
/// as they stand there.
pub proof fn good_section_is_read(
    values: SectionValuesView,
    lo: u8,
    hi: u8,
    curve: SpeedCurve,
    full: bool,
    sensors: Seq<SensorSpecView>,
)
    requires
        values.auto is None || values.auto == Some("false"@),
        values.low_temp == Some(decimal(lo as nat)),
        values.high_temp == Some(decimal(hi as nat)),
        values.speed_curve == Some(curve_name(curve)),
        values.always_full_speed == Some(
            if full {
                "true"@
            } else {
                "false"@
            },
        ),
        values.sensors is Some && sensor_list(values.sensors->0) == Some(sensors),
        sensors.len() > 0,
        values.exp_pow matches Some(e) ==> is_decimal(e),
    ensures
        config_of(values) == Ok::<FanConfigView, Error>(
            FanConfigView {
                auto: false,
                low_temp: lo,
                high_temp: hi,
                speed_curve: curve,
                always_full_speed: full,
                sensors,
                exp_pow: match values.exp_pow {
                    Some(e) => e,
                    None => "3"@,
                },
            },
        ),
{
    reveal_strlit("true");
    reveal_strlit("false");
    assert("true"@.len() == 4 && "false"@.len() == 5);
    decimal_reads_back(lo as nat, 255);
    decimal_reads_back(hi as nat, 255);
    curve_name_reads_back(curve);
}

/// A fan that is left to the SMC has the defaults: 55 and 75 degrees, the linear curve, not always
/// at full speed, no sensors, and an exponent of three.
pub proof fn auto_fan_has_the_defaults(values: SectionValuesView)
    requires
        values.auto == Some("true"@),
    ensures
        config_of(values) matches Ok(c) && c.auto && c.low_temp == 55 && c.high_temp == 75
            && c.speed_curve == SpeedCurve::Linear && !c.always_full_speed && c.sensors.len() == 0
            && c.exp_pow == "3"@,
        config_of(values) == Ok::<FanConfigView, Error>(default_config()),
{
}

/// The first value that is missing or cannot be used is the fault of the section, in the order of
/// the keys: `auto`, `exp_pow`, the temperatures, the curve, the full speed, the sensors.
pub proof fn first_bad_value_is_the_fault(values: SectionValuesView)
    ensures
        ({
            let low_ok = values.low_temp is Some && number(values.low_temp->0, 10, 255) is Some;
            let high_ok = values.high_temp is Some && number(values.high_temp->0, 10, 255) is Some;
            let curve_ok = values.speed_curve is Some && (values.speed_curve->0 == "linear"@
                || values.speed_curve->0 == "exponential"@ || values.speed_curve->0
                == "logarithmic"@);
            let full_ok = values.always_full_speed == Some("true"@) || values.always_full_speed
                == Some("false"@);
            let exp_ok = values.exp_pow matches Some(e) ==> is_decimal(e);
            let auto_ok = values.auto is None || values.auto == Some("false"@);
            let r = config_of(values);
            &&& !auto_ok && values.auto != Some("true"@) ==> r == Err::<FanConfigView, Error>(
                Error::InvalidConfigValue("auto"),
            )
            &&& auto_ok && !exp_ok ==> r == Err::<FanConfigView, Error>(
                Error::InvalidConfigValue("exp_pow"),
            )
            &&& auto_ok && exp_ok && !low_ok ==> r == Err::<FanConfigView, Error>(
                if values.low_temp is None {
                    Error::MissingConfigValue("low_temp")
                } else {
                    Error::InvalidConfigValue("low_temp")
                },
            )
            &&& auto_ok && exp_ok && low_ok && !high_ok ==> r == Err::<FanConfigView, Error>(
                if values.high_temp is None {
                    Error::MissingConfigValue("high_temp")
                } else {
                    Error::InvalidConfigValue("high_temp")
                },
            )
            &&& auto_ok && exp_ok && low_ok && high_ok && !curve_ok ==> r == Err::<
                FanConfigView,
                Error,
            >(
                if values.speed_curve is None {
                    Error::MissingConfigValue("speed_curve")
                } else {
                    Error::InvalidConfigValue("speed_curve")
                },
            )
            &&& auto_ok && exp_ok && low_ok && high_ok && curve_ok && !full_ok ==> r == Err::<
                FanConfigView,
                Error,
            >(
                if values.always_full_speed is None {
                    Error::MissingConfigValue("always_full_speed")
                } else {
                    Error::InvalidConfigValue("always_full_speed")
                },
            )
            &&& auto_ok && exp_ok && low_ok && high_ok && curve_ok && full_ok ==> (
            match values.sensors {
                None => r == Err::<FanConfigView, Error>(Error::MissingConfigValue("sensors")),
                Some(list) => match sensor_list(list) {
                    None => r == Err::<FanConfigView, Error>(Error::InvalidConfigValue("sensors")),
                    Some(sensors) => if sensors.len() == 0 {
                        r == Err::<FanConfigView, Error>(Error::MissingConfigValue("sensors"))
                    } else {
                        r is Ok
                    },
                },
            })
        }),
{
    reveal_strlit("true");
    reveal_strlit("false");
    assert("true"@.len() == 4 && "false"@.len() == 5);
}

/// What is said of a configuration is said of the values in it, and of a list of configurations or
/// sensors place by place.
pub proof fn views_show_the_values(
    config: FanConfig,
    name: String,
    configs: Seq<FanConfig>,
    sensors: Seq<SensorSpec>,
    i: int,
)
    ensures
        config@.auto == config.auto,
        config@.low_temp == config.low_temp,
        config@.high_temp == config.high_temp,
        config@.speed_curve == config.speed_curve,
        config@.always_full_speed == config.always_full_speed,
        config@.exp_pow == config.exp_pow@,
        config@.sensors == sensor_views(config.sensors@),
        SensorSpec::Cpu@ == SensorSpecView::Cpu,
        SensorSpec::Slot(name)@ == SensorSpecView::Slot(name@),
        text_of(Some(name)) == Some(name@),
        text_of(None) is None,
        config_views(configs).len() == configs.len(),
        0 <= i < configs.len() ==> config_views(configs)[i] == configs[i]@,
        sensor_views(sensors).len() == sensors.len(),
        0 <= i < sensors.len() ==> sensor_views(sensors)[i] == sensors[i]@,
{
}

/// A reading that is as expected has the expected values, or the expected fault.
pub proof fn reading_is_as_expected(
    r: Result<FanConfig, Error>,
    expected: Result<FanConfigView, Error>,
)
    requires
        config_result(r, expected),
    ensures
        r is Ok <==> expected is Ok,
        expected matches Ok(config) ==> r->Ok_0@ == config,
        expected matches Err(e) ==> r->Err_0 == e,
{
}

} // verus!
