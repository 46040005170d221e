//! The configuration file: one section for each fan.

use crate::config::{
    boolean, boolean_name, config_of, config_pairs, config_views, curve_name,
    curve_name_reads_back, default_config, sensor_entries, sensor_entry, sensor_list, sensor_text,
    sensors_are_mandatory, sensors_text, values_of, with_pairs, FanConfig, FanConfigView,
    SensorSpecView, SpeedCurve,
};
use crate::decimal::{is_decimal, is_worth, lemma_three};
use crate::error::{Error, IoCause};
use crate::ini_file::{
    all_unescaped, first_section, first_value, ini_load, ini_loaded, ini_new, ini_section,
    ini_sections, ini_text, layout, other_key, plain, plain_char, simple, with_pair, with_value,
    word, word_char,
};
use crate::text::{
    all_digits, concat, decimal, decimal_reads_back, decimal_text, is_white_space,
    lemma_decimal_digits, lemma_split_append, lemma_split_nonempty, split_on, trim, unsigned_body,
};
use vstd::prelude::*;
use vstd::string::*;

verus! {

/// The name of the section for the fan with this number; fans are counted from one.
pub open spec fn fan_name(number: nat) -> Seq<char> {
    "Fan"@ + decimal(number)
}

/// The name of a fan's section.
fn fan_section(number: usize) -> (r: String)
    ensures
        r@ == fan_name(number as nat),
{
    concat("Fan", decimal_text(number as u64).as_str())
}

/// The configurations of the first `count` fans, or the first fault in them.
pub open spec fn configs_of(
    sections: Seq<(Option<Seq<char>>, Seq<(Seq<char>, Seq<char>)>)>,
    count: nat,
) -> Result<Seq<FanConfigView>, Error>
    decreases count,
{
    if count == 0 {
        Ok(Seq::empty())
    } else {
        match configs_of(sections, (count - 1) as nat) {
            Err(e) => Err(e),
            Ok(configs) => match first_section(sections, fan_name(count)) {
                None => Err(Error::MissingFanConfig(count as usize)),
                Some(properties) => match config_of(values_of(properties)) {
                    Err(e) => Err(e),
                    Ok(config) => Ok(configs.push(config)),
                },
            },
        }
    }
}

/// Whether a reading of configurations came out as `expected`.
pub open spec fn configs_result(
    r: Result<Vec<FanConfig>, Error>,
    expected: Result<Seq<FanConfigView>, Error>,
) -> bool {
    match r {
        Ok(configs) => expected == Ok::<Seq<FanConfigView>, Error>(config_views(configs@)),
        Err(e) => expected == Err::<Seq<FanConfigView>, Error>(e),
    }
}

/// A file that is read has a configuration for each fan, and each fan that is not left to the SMC
/// has sensors.
pub proof fn each_fan_is_configured(
    sections: Seq<(Option<Seq<char>>, Seq<(Seq<char>, Seq<char>)>)>,
    count: nat,
)
    ensures
        configs_of(sections, count) matches Ok(configs) ==> {
            &&& configs.len() == count
            &&& forall|i: int|
                0 <= i < count ==> (#[trigger] configs[i]).auto || configs[i].sensors.len() > 0
        },
    decreases count,
{
    if count > 0 {
        each_fan_is_configured(sections, (count - 1) as nat);
        if let Some(properties) = first_section(sections, fan_name(count)) {
            sensors_are_mandatory(values_of(properties));
        }
    }
}

/// A fault among the first fans is the fault of the file.
proof fn lemma_fault_stays(
    sections: Seq<(Option<Seq<char>>, Seq<(Seq<char>, Seq<char>)>)>,
    k: nat,
    count: nat,
)
    requires
        k <= count,
        configs_of(sections, k) is Err,
    ensures
        configs_of(sections, count) == configs_of(sections, k),
    decreases count,
{
    if k < count {
        lemma_fault_stays(sections, k, (count - 1) as nat);
    }
}

/// Reads the configurations of the first `fan_count` fans out of a file.
pub fn read_sections(file: &ini::Ini, fan_count: usize) -> (r: Result<Vec<FanConfig>, Error>)
    ensures
        configs_result(r, configs_of(ini_sections(*file), fan_count as nat)),
{
    let ghost sections = ini_sections(*file);
    let mut configs: Vec<FanConfig> = Vec::new();
    let mut i: usize = 0;
    assert(config_views(configs@) =~= Seq::<FanConfigView>::empty());
    while i < fan_count
        invariant
            i <= fan_count,
            sections == ini_sections(*file),
            configs_of(sections, i as nat) == Ok::<Seq<FanConfigView>, Error>(
                config_views(configs@),
            ),
        decreases fan_count - i,
    {
        let name: String = fan_section(i + 1);
        let properties: &ini::Properties = match ini_section(file, name.as_str()) {
            Some(properties) => properties,
            None => {
                proof {
                    lemma_fault_stays(sections, (i + 1) as nat, fan_count as nat);
                }
                return Err(Error::MissingFanConfig(i + 1));
            },
        };
        match FanConfig::try_from(properties) {
            Ok(config) => {
                let ghost before = config_views(configs@);
                configs.push(config);
                assert(config_views(configs@) =~= before.push(config@));
            },
            Err(e) => {
                proof {
                    lemma_fault_stays(sections, (i + 1) as nat, fan_count as nat);
                }
                return Err(e);
            },
        }
        i = i + 1;
    }
    Ok(configs)
}

/// The sections of a file that holds these configurations.
pub open spec fn config_sections(configs: Seq<FanConfigView>) -> Seq<
    (Option<Seq<char>>, Seq<(Seq<char>, Seq<char>)>),
> {
    seq![(None::<Seq<char>>, Seq::<(Seq<char>, Seq<char>)>::empty())] + Seq::new(
        configs.len(),
        |i: int| (Some(fan_name((i + 1) as nat)), config_pairs(configs[i])),
    )
}

/// The text of a file that holds these configurations.
pub open spec fn config_text(configs: Seq<FanConfigView>) -> Seq<char> {
    layout(config_sections(configs))
}

/// A slot's name that is read as it is written in the `sensors` list: it is there, holds no comma,
/// and has no white space at its end.
pub open spec fn listable_name(s: Seq<char>) -> bool {
    &&& s.len() > 0
    &&& !is_white_space(s.last())
    &&& forall|i: int| 0 <= i < s.len() ==> (#[trigger] s[i]) != ','
}

/// Sensors that are read as they are written in the `sensors` list.
pub open spec fn listable_sensors(sensors: Seq<SensorSpecView>) -> bool {
    forall|i: int| #![trigger sensors[i]]
        0 <= i < sensors.len() ==> match sensors[i] {
            SensorSpecView::Cpu => true,
            SensorSpecView::Slot(n) => listable_name(n),
        }
}

/// A configuration that can be read once it is in a section: it has sensors, unless the fan is left
/// to the SMC.
pub open spec fn listable(config: FanConfigView) -> bool {
    config.auto || {
        &&& listable_sensors(config.sensors)
        &&& is_decimal(config.exp_pow)
        &&& config.sensors.len() > 0
    }
}

/// Every configuration can be read once it is in a section.
pub open spec fn all_listable(configs: Seq<FanConfigView>) -> bool {
    forall|i: int| 0 <= i < configs.len() ==> listable(#[trigger] configs[i])
}

/// A slot's name that a file holds as it is: one or more letters, digits and signs that neither end
/// an entry nor a line.
pub open spec fn slot_name(s: Seq<char>) -> bool {
    plain(s) && forall|i: int| 0 <= i < s.len() ==> (#[trigger] s[i]) != ','
}

/// Sensors that a file holds as they are.
pub open spec fn readable_sensors(sensors: Seq<SensorSpecView>) -> bool {
    forall|i: int| #![trigger sensors[i]]
        0 <= i < sensors.len() ==> match sensors[i] {
            SensorSpecView::Cpu => true,
            SensorSpecView::Slot(n) => slot_name(n),
        }
}

/// A configuration that can be read once it is in a file: it has sensors, unless the fan is left to
/// the SMC.
pub open spec fn readable(config: FanConfigView) -> bool {
    &&& readable_sensors(config.sensors)
    &&& is_decimal(config.exp_pow)
    &&& config.auto || config.sensors.len() > 0
}

/// Every configuration can be read once it is in a file.
pub open spec fn all_readable(configs: Seq<FanConfigView>) -> bool {
    forall|i: int| 0 <= i < configs.len() ==> readable(#[trigger] configs[i])
}

/// What is left of a configuration once it is written and read again: all that it has a use for. A
/// fan that is left to the SMC has a use for nothing else, and only the exponential curve for an
/// exponent, which is the default where it is worth as much.
pub open spec fn as_written(config: FanConfigView) -> FanConfigView {
    if config.auto {
        default_config()
    } else if config.speed_curve == SpeedCurve::Exponential && !is_worth(config.exp_pow, 3) {
        config
    } else {
        FanConfigView { exp_pow: "3"@, ..config }
    }
}

/// What is left of each configuration once it is written and read again.
pub open spec fn all_as_written(configs: Seq<FanConfigView>) -> Seq<FanConfigView> {
    Seq::new(configs.len(), |i: int| as_written(configs[i]))
}

/// What a file holds as it is can be read from a section.
proof fn lemma_readable_listable(config: FanConfigView)
    requires
        readable(config),
    ensures
        listable(config),
{
    assert forall|i: int| #![trigger config.sensors[i]]
        0 <= i < config.sensors.len() implies match config.sensors[i] {
        SensorSpecView::Cpu => true,
        SensorSpecView::Slot(n) => listable_name(n),
    } by {
        if let SensorSpecView::Slot(n) = config.sensors[i] {
            assert(plain_char(n[n.len() - 1]));
        }
    }
}

/// A text whose pieces are digits is made of digits and separators.
proof fn lemma_digit_pieces(s: Seq<char>, sep: char)
    requires
        forall|i: int|
            0 <= i < split_on(s, sep).len() ==> all_digits(#[trigger] split_on(s, sep)[i]),
    ensures
        forall|i: int|
            0 <= i < s.len() ==> 48 <= (#[trigger] s[i]) as u32 <= 57 || s[i] == sep,
    decreases s.len(),
{
    if s.len() > 0 {
        let rest = s.drop_last();
        let before = split_on(rest, sep);
        let after = split_on(s, sep);
        lemma_split_nonempty(rest, sep);
        assert forall|i: int| 0 <= i < before.len() implies all_digits(#[trigger] before[i]) by {
            if s.last() == sep {
                assert(after[i] == before[i]);
            } else if i < before.len() - 1 {
                assert(after[i] == before[i]);
            } else {
                let joined = before.last().push(s.last());
                assert(after[i] == joined);
                assert forall|j: int| 0 <= j < before[i].len() implies 48 <= (
                #[trigger] before[i][j]) as u32 <= 57 by {
                    assert(joined[j] == before[i][j]);
                }
            }
        }
        lemma_digit_pieces(rest, sep);
        if s.last() != sep {
            let joined = before.last().push(s.last());
            assert(after[before.len() - 1] == joined);
            assert(joined[joined.len() - 1] == s.last());
        }
        assert forall|i: int| 0 <= i < s.len() implies 48 <= (#[trigger] s[i]) as u32 <= 57 || s[i]
            == sep by {
            if i < s.len() - 1 {
                assert(rest[i] == s[i]);
            }
        }
    }
}

/// A decimal number is plain text.
proof fn lemma_decimal_plain(s: Seq<char>)
    requires
        is_decimal(s),
    ensures
        plain(s),
{
    let body = unsigned_body(s);
    lemma_digit_pieces(body, '.');
    assert(s.len() > 0) by {
        if s.len() == 0 {
            assert(split_on(body, '.') =~= seq![Seq::<char>::empty()]);
        }
    }
    assert forall|i: int| 0 <= i < s.len() implies plain_char(#[trigger] s[i]) by {
        if s[0] == '+' {
            if i > 0 {
                assert(body[i - 1] == s[i]);
            }
        } else {
            assert(body[i] == s[i]);
        }
    }
}

/// A whole number is a word.
proof fn lemma_number_word(n: nat)
    ensures
        word(decimal(n)),
        plain(decimal(n)),
{
    lemma_decimal_digits(n);
}

/// What is written for one readable sensor is plain.
proof fn lemma_sensor_text_plain(sensor: SensorSpecView)
    requires
        readable_sensors(seq![sensor]),
    ensures
        plain(sensor_text(sensor)),
{
    reveal_strlit("cpu");
    reveal_strlit("slot:");
    assert(seq![sensor][0] == sensor);
    if let SensorSpecView::Slot(n) = sensor {
        let s = sensor_text(sensor);
        assert forall|i: int| 0 <= i < s.len() implies plain_char(#[trigger] s[i]) by {
            if i >= 5 {
                assert(s[i] == n[i - 5]);
            }
        }
    }
}

/// What is written for one sensor is one entry of the list, and is read as the sensor.
proof fn lemma_sensor_entry(sensor: SensorSpecView)
    requires
        listable_sensors(seq![sensor]),
    ensures
        sensor_entry(sensor_text(sensor)) == Some(sensor),
        sensor_text(sensor).len() > 0,
        trim(sensor_text(sensor)) == sensor_text(sensor),
        forall|i: int|
            0 <= i < sensor_text(sensor).len() ==> (#[trigger] sensor_text(sensor)[i]) != ',',
{
    reveal_strlit("cpu");
    reveal_strlit("slot:");
    assert(seq![sensor][0] == sensor);
    let s = sensor_text(sensor);
    if let SensorSpecView::Slot(n) = sensor {
        assert(s.take(5) =~= "slot:"@);
        assert(s.skip(5) =~= n);
        assert(s[0] == 's' && "cpu"@[0] == 'c');
        assert(s.last() == n.last());
        assert forall|i: int| 0 <= i < s.len() implies (#[trigger] s[i]) != ',' by {
            if i >= 5 {
                assert(s[i] == n[i - 5]);
            }
        }
    }
    assert(!is_white_space(s.last()) && !is_white_space(s.first()));
}

/// What is written for readable sensors is plain.
proof fn lemma_sensors_text_plain(sensors: Seq<SensorSpecView>)
    requires
        readable_sensors(sensors),
        sensors.len() > 0,
    ensures
        plain(sensors_text(sensors)),
    decreases sensors.len(),
{
    lemma_sensor_text_plain(sensors.last());
    if sensors.len() > 1 {
        lemma_sensors_text_plain(sensors.drop_last());
    }
}

/// Sensors are read as they are written.
proof fn lemma_sensors_read_back(sensors: Seq<SensorSpecView>)
    requires
        listable_sensors(sensors),
        sensors.len() > 0,
    ensures
        sensor_list(sensors_text(sensors)) == Some(sensors),
    decreases sensors.len(),
{
    let last = sensor_text(sensors.last());
    lemma_sensor_entry(sensors.last());
    let none = Seq::<char>::empty();
    if sensors.len() == 1 {
        lemma_split_append(none, last, ',');
        assert(none + last =~= last);
        let pieces = split_on(last, ',');
        assert(pieces =~= seq![last]);
        assert(pieces.drop_last() =~= Seq::<Seq<char>>::empty());
        assert(sensor_entries(pieces.drop_last()) == Some(Seq::<SensorSpecView>::empty()));
        assert(pieces.last() == last);
        assert(sensor_entries(pieces) == Some(Seq::<SensorSpecView>::empty().push(sensors[0])));
        assert(Seq::<SensorSpecView>::empty().push(sensors[0]) =~= sensors);
    } else {
        let rest = sensors_text(sensors.drop_last());
        lemma_sensors_read_back(sensors.drop_last());
        let head = rest + seq![','];
        assert(head.drop_last() =~= rest);
        lemma_split_append(head, last, ',');
        let before = split_on(rest, ',');
        assert(split_on(head, ',') == before.push(none));
        assert(none + last =~= last);
        assert(before.push(none).drop_last() =~= before);
        let pieces = split_on(head + last, ',');
        assert(pieces == before.push(last));
        assert(pieces.drop_last() =~= before);
        assert(sensors.drop_last().push(sensors.last()) =~= sensors);
    }
}

/// A key of a fan's section.
spec fn is_key(s: Seq<char>) -> bool {
    ||| s == "auto"@
    ||| s == "low_temp"@
    ||| s == "high_temp"@
    ||| s == "speed_curve"@
    ||| s == "always_full_speed"@
    ||| s == "sensors"@
    ||| s == "exp_pow"@
}

/// The keys are words, and no two of them are the same.
proof fn lemma_keys()
    ensures
        forall|s: Seq<char>| #[trigger] is_key(s) ==> word(s),
        "auto"@.len() == 4,
        "low_temp"@.len() == 8,
        "high_temp"@.len() == 9,
        "speed_curve"@.len() == 11,
        "always_full_speed"@.len() == 17,
        "sensors"@.len() == 7,
        "exp_pow"@.len() == 7,
        "sensors"@[0] == 's',
        "exp_pow"@[0] == 'e',
{
    reveal_strlit("auto");
    reveal_strlit("low_temp");
    reveal_strlit("high_temp");
    reveal_strlit("speed_curve");
    reveal_strlit("always_full_speed");
    reveal_strlit("sensors");
    reveal_strlit("exp_pow");
    assert(word("auto"@));
    assert(word("low_temp"@));
    assert(word("high_temp"@));
    assert(word("speed_curve"@));
    assert(word("always_full_speed"@));
    assert(word("sensors"@));
    assert(word("exp_pow"@));
}

/// A configuration whose text is plain.
spec fn plainly_written(config: FanConfigView) -> bool {
    &&& readable_sensors(config.sensors)
    &&& is_decimal(config.exp_pow)
}

/// What a plainly written configuration is written as.
proof fn lemma_pairs_plain(config: FanConfigView)
    requires
        plainly_written(config),
    ensures
        forall|j: int| #![trigger config_pairs(config)[j]]
            0 <= j < config_pairs(config).len() ==> word(config_pairs(config)[j].0) && plain(
                config_pairs(config)[j].1,
            ),
{
    lemma_keys();
    reveal_strlit("true");
    reveal_strlit("false");
    reveal_strlit("linear");
    reveal_strlit("exponential");
    reveal_strlit("logarithmic");
    assert(plain("true"@));
    assert(plain("false"@));
    assert(plain(curve_name(config.speed_curve)));
    lemma_number_word(config.low_temp as nat);
    lemma_number_word(config.high_temp as nat);
    lemma_decimal_plain(config.exp_pow);
    if config.sensors.len() > 0 {
        lemma_sensors_text_plain(config.sensors);
    }
    assert forall|j: int| #![trigger config_pairs(config)[j]]
        0 <= j < config_pairs(config).len() implies is_key(config_pairs(config)[j].0) && plain(
        config_pairs(config)[j].1,
    ) by {}
}

/// A fan's section has a word for its name.
proof fn lemma_fan_name_word(number: nat)
    ensures
        word(fan_name(number)),
{
    reveal_strlit("Fan");
    lemma_decimal_digits(number);
    let s = fan_name(number);
    assert forall|i: int| 0 <= i < s.len() implies word_char(#[trigger] s[i]) by {
        if i >= 3 {
            assert(s[i] == decimal(number)[i - 3]);
        }
    }
}

/// Two fans have two names.
proof fn lemma_fan_names_differ(a: nat, b: nat)
    requires
        a != b,
    ensures
        fan_name(a) != fan_name(b),
{
    reveal_strlit("Fan");
    let max = a + b;
    decimal_reads_back(a, max);
    decimal_reads_back(b, max);
    assert(fan_name(a).skip(3) =~= decimal(a));
    assert(fan_name(b).skip(3) =~= decimal(b));
}

/// The file for plainly written configurations is a simple one.
proof fn lemma_sections_simple(configs: Seq<FanConfigView>)
    requires
        forall|i: int| 0 <= i < configs.len() ==> plainly_written(#[trigger] configs[i]),
    ensures
        simple(config_sections(configs)),
{
    let sections = config_sections(configs);
    assert forall|i: int| #![trigger sections[i]] 1 <= i < sections.len() implies {
        &&& sections[i].0 is Some
        &&& word(sections[i].0->0)
        &&& forall|j: int| #![trigger sections[i].1[j]]
            0 <= j < sections[i].1.len() ==> word(sections[i].1[j].0) && plain(sections[i].1[j].1)
    } by {
        assert(sections[i] == (Some(fan_name(i as nat)), config_pairs(configs[i - 1])));
        lemma_fan_name_word(i as nat);
        lemma_pairs_plain(configs[i - 1]);
    }
}

/// Nothing in a simple file is escaped.
proof fn lemma_simple_unescaped(
    sections: Seq<(Option<Seq<char>>, Seq<(Seq<char>, Seq<char>)>)>,
)
    requires
        simple(sections),
    ensures
        all_unescaped(sections),
{
}

/// Where no section has the name, a pair for it starts a section at the end.
proof fn lemma_pair_starts_section(
    sections: Seq<(Option<Seq<char>>, Seq<(Seq<char>, Seq<char>)>)>,
    name: Seq<char>,
    key: Seq<char>,
    value: Seq<char>,
)
    requires
        forall|i: int| 0 <= i < sections.len() ==> (#[trigger] sections[i]).0 != Some(name),
    ensures
        with_pair(sections, name, key, value) == sections.push((Some(name), seq![(key, value)])),
    decreases sections.len(),
{
    let grown = sections.push((Some(name), seq![(key, value)]));
    if sections.len() > 0 {
        let rest = sections.drop_first();
        assert forall|i: int| 0 <= i < rest.len() implies (#[trigger] rest[i]).0 != Some(name) by {
            assert(rest[i] == sections[i + 1]);
        }
        lemma_pair_starts_section(rest, name, key, value);
    }
    assert(with_pair(sections, name, key, value) =~= grown);
}

/// Where the last section is the only one with the name, a pair for it goes there.
proof fn lemma_pair_joins_section(
    sections: Seq<(Option<Seq<char>>, Seq<(Seq<char>, Seq<char>)>)>,
    name: Seq<char>,
    properties: Seq<(Seq<char>, Seq<char>)>,
    key: Seq<char>,
    value: Seq<char>,
)
    requires
        forall|i: int| 0 <= i < sections.len() ==> (#[trigger] sections[i]).0 != Some(name),
    ensures
        with_pair(sections.push((Some(name), properties)), name, key, value) == sections.push(
            (Some(name), with_value(properties, key, value)),
        ),
    decreases sections.len(),
{
    let before = sections.push((Some(name), properties));
    let after = sections.push((Some(name), with_value(properties, key, value)));
    if sections.len() > 0 {
        let rest = sections.drop_first();
        assert forall|i: int| 0 <= i < rest.len() implies (#[trigger] rest[i]).0 != Some(name) by {
            assert(rest[i] == sections[i + 1]);
        }
        lemma_pair_joins_section(rest, name, properties, key, value);
        assert(before.drop_first() =~= rest.push((Some(name), properties)));
        assert(before[0] == sections[0]);
    }
    assert(with_pair(before, name, key, value) =~= after);
}

/// Where no pair has the key, giving it a value adds a pair.
proof fn lemma_value_added(
    properties: Seq<(Seq<char>, Seq<char>)>,
    key: Seq<char>,
    value: Seq<char>,
)
    requires
        forall|i: int| 0 <= i < properties.len() ==> (#[trigger] properties[i]).0 != key,
    ensures
        with_value(properties, key, value) == properties.push((key, value)),
    decreases properties.len(),
{
    reveal(Seq::filter);
    if properties.len() > 0 {
        let rest = properties.drop_last();
        lemma_value_added(rest, key, value);
        let kept = rest.filter(other_key(key));
        assert(kept =~= with_value(rest, key, value).drop_last());
        assert(kept =~= rest);
        assert(properties.last().0 != key);
        assert(rest.push(properties.last()) =~= properties);
    }
    assert(with_value(properties, key, value) =~= properties.push((key, value)));
}

/// Pairs with distinct keys, set for a new name, become a section at the end.
proof fn lemma_pairs_make_section(
    sections: Seq<(Option<Seq<char>>, Seq<(Seq<char>, Seq<char>)>)>,
    name: Seq<char>,
    pairs: Seq<(Seq<char>, Seq<char>)>,
)
    requires
        forall|i: int| 0 <= i < sections.len() ==> (#[trigger] sections[i]).0 != Some(name),
        forall|i: int, j: int|
            0 <= i < j < pairs.len() ==> (#[trigger] pairs[i]).0 != (#[trigger] pairs[j]).0,
        pairs.len() > 0,
    ensures
        with_pairs(sections, name, pairs) == sections.push((Some(name), pairs)),
    decreases pairs.len(),
{
    let rest = pairs.drop_last();
    let last = pairs.last();
    if pairs.len() == 1 {
        assert(with_pairs(sections, name, rest) == sections);
        lemma_pair_starts_section(sections, name, last.0, last.1);
        assert(pairs =~= seq![(last.0, last.1)]);
    } else {
        lemma_pairs_make_section(sections, name, rest);
        lemma_pair_joins_section(sections, name, rest, last.0, last.1);
        lemma_value_added(rest, last.0, last.1);
        assert(pairs =~= rest.push((last.0, last.1)));
    }
}

/// The keys that a configuration is written with are distinct.
proof fn lemma_pairs_distinct(config: FanConfigView)
    ensures
        config_pairs(config).len() > 0,
        forall|i: int, j: int|
            0 <= i < j < config_pairs(config).len() ==> (#[trigger] config_pairs(config)[i]).0 != (
            #[trigger] config_pairs(config)[j]).0,
{
    lemma_keys();
}

/// One more configuration is one more section.
proof fn lemma_sections_grow(configs: Seq<FanConfigView>, config: FanConfigView)
    ensures
        with_pairs(
            config_sections(configs),
            fan_name((configs.len() + 1) as nat),
            config_pairs(config),
        ) == config_sections(configs.push(config)),
{
    let sections = config_sections(configs);
    let name = fan_name((configs.len() + 1) as nat);
    assert forall|i: int| 0 <= i < sections.len() implies (#[trigger] sections[i]).0 != Some(
        name,
    ) by {
        if i > 0 {
            lemma_fan_names_differ(i as nat, (configs.len() + 1) as nat);
        }
    }
    lemma_pairs_distinct(config);
    lemma_pairs_make_section(sections, name, config_pairs(config));
    assert(config_sections(configs.push(config)) =~= sections.push(
        (Some(name), config_pairs(config)),
    ));
}

/// The default configuration for each of `count` fans.
pub open spec fn default_configs(count: nat) -> Seq<FanConfigView> {
    Seq::new(count, |i: int| default_config())
}

/// The defaults can be read once they are in a file, and are then what they were: the file that is
/// written at first gives the fans of the next start the configurations of this one.
pub proof fn defaults_read_back(count: nat)
    ensures
        all_readable(default_configs(count)),
        all_as_written(default_configs(count)) == default_configs(count),
        configs_of(config_sections(default_configs(count)), count) == Ok::<
            Seq<FanConfigView>,
            Error,
        >(default_configs(count)),
{
    let all = default_configs(count);
    lemma_three();
    assert(all_as_written(all) =~= all);
    configs_read_back(all, count);
    assert(all.take(count as int) =~= all);
}

/// The configurations for `fan_count` fans that have none yet, and the text of the file that
/// holds them. The file gives them back.
pub fn generate_config_file(fan_count: usize) -> (r: (Vec<FanConfig>, String))
    ensures
        config_views(r.0@) == default_configs(fan_count as nat),
        r.1@ == config_text(config_views(r.0@)),
        all_readable(config_views(r.0@)),
        all_as_written(config_views(r.0@)) == config_views(r.0@),
{
    let mut file: ini::Ini = ini_new();
    let mut configs: Vec<FanConfig> = Vec::new();
    let mut i: usize = 0;
    assert(config_sections(default_configs(0)) =~= ini_sections(file));
    assert(config_views(configs@) =~= default_configs(0));
    while i < fan_count
        invariant
            i <= fan_count,
            config_views(configs@) == default_configs(i as nat),
            ini_sections(file) == config_sections(default_configs(i as nat)),
        decreases fan_count - i,
    {
        let config: FanConfig = FanConfig::default();
        config.write_property(&mut file, fan_section(i + 1).as_str());
        proof {
            lemma_sections_grow(default_configs(i as nat), default_config());
            assert(default_configs(i as nat).push(default_config()) =~= default_configs(
                (i + 1) as nat,
            ));
        }
        let ghost before = config_views(configs@);
        configs.push(config);
        assert(config_views(configs@) =~= before.push(config@));
        i = i + 1;
    }
    proof {
        let all = default_configs(fan_count as nat);
        defaults_read_back(fan_count as nat);
        lemma_readable_simple(all);
        lemma_simple_unescaped(config_sections(all));
    }
    let text: String = ini_text(&file);
    (configs, text)
}

/// Among pairs with distinct keys, a key's value is found where it stands.
proof fn lemma_value_found(pairs: Seq<(Seq<char>, Seq<char>)>, k: int)
    requires
        forall|i: int, j: int|
            0 <= i < j < pairs.len() ==> (#[trigger] pairs[i]).0 != (#[trigger] pairs[j]).0,
        0 <= k < pairs.len(),
    ensures
        first_value(pairs, pairs[k].0) == Some(pairs[k].1),
    decreases pairs.len(),
{
    if k > 0 {
        let rest = pairs.drop_first();
        assert forall|i: int, j: int| 0 <= i < j < rest.len() implies (#[trigger] rest[i]).0 != (
        #[trigger] rest[j]).0 by {
            assert(rest[i] == pairs[i + 1] && rest[j] == pairs[j + 1]);
        }
        lemma_value_found(rest, k - 1);
        assert(rest[k - 1] == pairs[k]);
        assert(pairs[0].0 != pairs[k].0);
    }
}

/// A key that no pair has is given no value.
proof fn lemma_value_absent(pairs: Seq<(Seq<char>, Seq<char>)>, key: Seq<char>)
    requires
        forall|i: int| 0 <= i < pairs.len() ==> (#[trigger] pairs[i]).0 != key,
    ensures
        first_value(pairs, key) is None,
    decreases pairs.len(),
{
    if pairs.len() > 0 {
        let rest = pairs.drop_first();
        assert forall|i: int| 0 <= i < rest.len() implies (#[trigger] rest[i]).0 != key by {
            assert(rest[i] == pairs[i + 1]);
        }
        lemma_value_absent(rest, key);
    }
}

/// A truth value is read as it is written.
proof fn lemma_boolean_reads_back(b: bool)
    ensures
        boolean(boolean_name(b)) == Some(b),
{
    reveal_strlit("true");
    reveal_strlit("false");
    assert("true"@.len() == 4 && "false"@.len() == 5);
}

/// A configuration, written into a section and read from it again, is the same configuration, as
/// far as it has a use.
pub proof fn config_reads_back(config: FanConfigView)
    requires
        listable(config),
    ensures
        config_of(values_of(config_pairs(config))) == Ok::<FanConfigView, Error>(
            as_written(config),
        ),
{
    let pairs = config_pairs(config);
    lemma_keys();
    lemma_pairs_distinct(config);
    lemma_boolean_reads_back(config.always_full_speed);
    lemma_boolean_reads_back(true);
    if config.auto {
        assert(pairs[0] == ("auto"@, "true"@));
        lemma_value_found(pairs, 0);
    } else {
        lemma_value_absent(pairs, "auto"@);
        lemma_value_found(pairs, 0);
        lemma_value_found(pairs, 1);
        lemma_value_found(pairs, 2);
        lemma_value_found(pairs, 3);
        lemma_value_found(pairs, 4);
        lemma_sensors_read_back(config.sensors);
        decimal_reads_back(config.low_temp as nat, 255);
        decimal_reads_back(config.high_temp as nat, 255);
        curve_name_reads_back(config.speed_curve);
        lemma_three();
        if config.speed_curve == SpeedCurve::Exponential && !is_worth(config.exp_pow, 3) {
            lemma_value_found(pairs, 5);
        } else {
            lemma_value_absent(pairs, "exp_pow"@);
        }
    }
}

/// The section of a file with these configurations that has a fan's name is that fan's section.
proof fn lemma_section_found(
    sections: Seq<(Option<Seq<char>>, Seq<(Seq<char>, Seq<char>)>)>,
    k: int,
    name: Seq<char>,
)
    requires
        0 <= k < sections.len(),
        sections[k].0 == Some(name),
        forall|i: int| 0 <= i < k ==> (#[trigger] sections[i]).0 != Some(name),
    ensures
        first_section(sections, name) == Some(sections[k].1),
    decreases k,
{
    if k > 0 {
        let rest = sections.drop_first();
        assert(rest[k - 1] == sections[k]);
        assert forall|i: int| 0 <= i < k - 1 implies (#[trigger] rest[i]).0 != Some(name) by {
            assert(rest[i] == sections[i + 1]);
        }
        lemma_section_found(rest, k - 1, name);
        assert(sections[0].0 != Some(name));
    }
}

/// Configurations, written as sections, are read from them again, as far as they have a use.
pub proof fn configs_read_back(configs: Seq<FanConfigView>, count: nat)
    requires
        all_listable(configs),
        count <= configs.len(),
    ensures
        configs_of(config_sections(configs), count) == Ok::<Seq<FanConfigView>, Error>(
            all_as_written(configs.take(count as int)),
        ),
    decreases count,
{
    let sections = config_sections(configs);
    if count == 0 {
        assert(all_as_written(configs.take(0)) =~= Seq::<FanConfigView>::empty());
    } else {
        configs_read_back(configs, (count - 1) as nat);
        let config = configs[count - 1];
        assert forall|i: int| 0 <= i < count implies (#[trigger] sections[i]).0 != Some(
            fan_name(count),
        ) by {
            if i > 0 {
                lemma_fan_names_differ(i as nat, count);
            }
        }
        lemma_section_found(sections, count as int, fan_name(count));
        config_reads_back(config);
        assert(all_as_written(configs.take(count - 1)).push(as_written(config)) =~= all_as_written(
            configs.take(count as int),
        ));
    }
}

/// What a configuration file's text says of the first `fan_count` fans. A text that lays out
/// readable configurations gives them back, as far as they have a use.
pub fn parse_config_file(file_raw: &str, fan_count: usize) -> (r: Result<Vec<FanConfig>, Error>)
    ensures
        match ini_loaded(file_raw@) {
            Ok(sections) => configs_result(r, configs_of(sections, fan_count as nat)),
            Err(mistake) => r matches Err(Error::ConfigParse(e)) && e@ == mistake,
        },
        forall|configs: Seq<FanConfigView>|
            file_raw@ == #[trigger] config_text(configs) && configs.len() == fan_count
                && all_readable(configs) ==> r is Ok && config_views(r->Ok_0@) == all_as_written(
                configs,
            ),
{
    match ini_load(file_raw) {
        Ok(file) => {
            proof {
                assert forall|configs: Seq<FanConfigView>|
                    file_raw@ == #[trigger] config_text(configs) && configs.len() == fan_count
                        && all_readable(configs) implies configs_of(
                    ini_sections(file),
                    fan_count as nat,
                ) == Ok::<Seq<FanConfigView>, Error>(all_as_written(configs)) by {
                    lemma_readable_simple(configs);
                    assert forall|i: int| 0 <= i < configs.len() implies listable(
                        #[trigger] configs[i],
                    ) by {
                        lemma_readable_listable(configs[i]);
                    }
                    assert(ini_sections(file) == config_sections(configs));
                    configs_read_back(configs, fan_count as nat);
                    assert(configs.take(fan_count as int) =~= configs);
                }
            }
            read_sections(&file, fan_count)
        },
        Err(e) => {
            proof {
                assert forall|configs: Seq<FanConfigView>|
                    file_raw@ == #[trigger] config_text(configs) && configs.len() == fan_count
                        && all_readable(configs) implies false by {
                    lemma_readable_simple(configs);
                }
            }
            Err(Error::ConfigParse(e))
        },
    }
}

/// The file for readable configurations is a simple one.
proof fn lemma_readable_simple(configs: Seq<FanConfigView>)
    requires
        all_readable(configs),
    ensures
        simple(config_sections(configs)),
{
    lemma_three();
    lemma_sections_simple(configs);
}

/// What reading the configuration file came to.
#[derive(Debug)]
pub enum ConfigFile {
    /// The file's text.
    Contents(String),
    /// There is no file.
    Missing,
    /// The file is there and could not be read.
    Unreadable(IoCause),
}

/// The configurations of all fans.
#[derive(Debug)]
pub struct LoadedConfigs {
    pub configs: Vec<FanConfig>,
    /// The text of the configuration file that is still to be written.
    pub new_file: Option<String>,
}

impl LoadedConfigs {
    /// The configurations, once the file that was still to be written is written; `written` says
    /// what that came to.
    pub fn settle(self, written: Result<(), IoCause>) -> (r: Result<Vec<FanConfig>, Error>)
        ensures
            match written {
                Err(cause) if self.new_file is Some => {
                    r == Err::<Vec<FanConfig>, Error>(Error::ConfigCreate(cause))
                },
                _ => r == Ok::<Vec<FanConfig>, Error>(self.configs),
            },
    {
        match written {
            Err(cause) if self.new_file.is_some() => Err(Error::ConfigCreate(cause)),
            _ => Ok(self.configs),
        }
    }
}

/// The configurations of `fan_count` fans: out of the file, or new ones where there is no file.
pub fn load_fan_configs(file: ConfigFile, fan_count: usize) -> (r: Result<LoadedConfigs, Error>)
    ensures
        match file {
            ConfigFile::Contents(text) => {
                &&& r matches Ok(loaded) ==> {
                    &&& loaded.new_file is None
                    &&& ini_loaded(text@) is Ok
                    &&& configs_of(ini_loaded(text@)->Ok_0, fan_count as nat) == Ok::<
                        Seq<FanConfigView>,
                        Error,
                    >(config_views(loaded.configs@))
                }
                &&& r matches Err(e) ==> match ini_loaded(text@) {
                    Ok(sections) => configs_of(sections, fan_count as nat) == Err::<
                        Seq<FanConfigView>,
                        Error,
                    >(e),
                    Err(mistake) => e matches Error::ConfigParse(s) && s@ == mistake,
                }
                &&& forall|configs: Seq<FanConfigView>|
                    text@ == #[trigger] config_text(configs) && configs.len() == fan_count
                        && all_readable(configs) ==> r is Ok && config_views(r->Ok_0.configs@)
                        == all_as_written(configs)
            },
            ConfigFile::Missing => {
                &&& r is Ok
                &&& config_views(r->Ok_0.configs@) == default_configs(fan_count as nat)
                &&& forall|i: int| #![trigger r->Ok_0.configs@[i]]
                    0 <= i < fan_count ==> r->Ok_0.configs@[i].auto
                        || r->Ok_0.configs@[i].sensors.len() > 0
                &&& r->Ok_0.new_file is Some
                &&& r->Ok_0.new_file->0@ == config_text(config_views(r->Ok_0.configs@))
                &&& all_readable(config_views(r->Ok_0.configs@))
                &&& all_as_written(config_views(r->Ok_0.configs@)) == config_views(
                    r->Ok_0.configs@,
                )
            },
            ConfigFile::Unreadable(cause) => {
                r == Err::<LoadedConfigs, Error>(Error::ConfigRead(cause))
            },
        },
{
    match file {
        ConfigFile::Contents(text) => match parse_config_file(text.as_str(), fan_count) {
            Ok(configs) => Ok(LoadedConfigs { configs, new_file: None }),
            Err(e) => Err(e),
        },
        ConfigFile::Missing => {
            let (configs, text): (Vec<FanConfig>, String) = generate_config_file(fan_count);
            assert forall|i: int| #![trigger configs@[i]]
                0 <= i < fan_count implies configs@[i].auto || configs@[i].sensors.len() > 0 by {
                assert(config_views(configs@)[i] == default_config());
            }
            Ok(LoadedConfigs { configs, new_file: Some(text) })
        },
        ConfigFile::Unreadable(cause) => Err(Error::ConfigRead(cause)),
    }
}

/// The section of a fan is named `Fan` and its number.
pub proof fn section_is_named_by_the_number(n: nat)
    ensures
        fan_name(n) == "Fan"@ + decimal(n),
        decimal(1) == seq!['1'],
{
    assert(decimal(1) =~= seq!['1']);
}

/// The fan at each place has the configuration in the section with its number, counted from one.
pub proof fn each_fan_has_the_section_with_its_number(
    sections: Seq<(Option<Seq<char>>, Seq<(Seq<char>, Seq<char>)>)>,
    count: nat,
    i: int,
)
    requires
        0 <= i < count,
        configs_of(sections, count) is Ok,
    ensures
        configs_of(sections, count)->Ok_0.len() == count,
        first_section(sections, "Fan"@ + decimal((i + 1) as nat)) is Some,
        config_of(values_of(first_section(sections, "Fan"@ + decimal((i + 1) as nat))->0)) == Ok::<
            FanConfigView,
            Error,
        >(configs_of(sections, count)->Ok_0[i]),
    decreases count,
{
    let before = (count - 1) as nat;
    assert("Fan"@ + decimal(count) == fan_name(count));
    if i < before {
        each_fan_has_the_section_with_its_number(sections, before, i);
    } else if before > 0 {
        each_fan_has_the_section_with_its_number(sections, before, 0);
    }
}

/// The first fan without a section, or with a fault in it, is the fault of the file.
pub proof fn first_bad_section_is_the_fault_of_the_file(
    sections: Seq<(Option<Seq<char>>, Seq<(Seq<char>, Seq<char>)>)>,
    count: nat,
    k: nat,
)
    requires
        1 <= k <= count,
        count <= usize::MAX,
        forall|i: nat|
            1 <= i < k ==> {
                &&& first_section(sections, "Fan"@ + #[trigger] decimal(i)) is Some
                &&& config_of(values_of(first_section(sections, "Fan"@ + decimal(i))->0)) is Ok
            },
    ensures
        first_section(sections, "Fan"@ + decimal(k)) is None ==> configs_of(sections, count)
            == Err::<Seq<FanConfigView>, Error>(Error::MissingFanConfig(k as usize)),
        first_section(sections, "Fan"@ + decimal(k)) matches Some(properties) ==> (config_of(
            values_of(properties),
        ) matches Err(e) ==> configs_of(sections, count) == Err::<Seq<FanConfigView>, Error>(e)),
    decreases count,
{
    assert("Fan"@ + decimal(count) == fan_name(count));
    if k < count {
        first_bad_section_is_the_fault_of_the_file(sections, (count - 1) as nat, k);
    } else {
        lemma_good_sections_are_read(sections, (count - 1) as nat);
    }
}

/// Sections that are all there and good are all read.
proof fn lemma_good_sections_are_read(
    sections: Seq<(Option<Seq<char>>, Seq<(Seq<char>, Seq<char>)>)>,
    count: nat,
)
    requires
        forall|i: nat|
            1 <= i <= count ==> {
                &&& first_section(sections, "Fan"@ + #[trigger] decimal(i)) is Some
                &&& config_of(values_of(first_section(sections, "Fan"@ + decimal(i))->0)) is Ok
            },
    ensures
        configs_of(sections, count) is Ok,
    decreases count,
{
    if count > 0 {
        lemma_good_sections_are_read(sections, (count - 1) as nat);
        assert("Fan"@ + decimal(count) == fan_name(count));
    }
}

/// Where each fan has a section and each of these is good, the file is read.
pub proof fn file_with_all_sections_is_read(
    sections: Seq<(Option<Seq<char>>, Seq<(Seq<char>, Seq<char>)>)>,
    count: nat,
)
    requires
        forall|i: nat|
            1 <= i <= count ==> {
                &&& first_section(sections, "Fan"@ + #[trigger] decimal(i)) is Some
                &&& config_of(values_of(first_section(sections, "Fan"@ + decimal(i))->0)) is Ok
            },
    ensures
        configs_of(sections, count) matches Ok(configs) && configs.len() == count,
{
    lemma_good_sections_are_read(sections, count);
    if count > 0 {
        each_fan_has_the_section_with_its_number(sections, count, 0);
    }
}

/// What is left of a configuration once it is written and read again is all that it has a use for.
pub proof fn nothing_of_use_is_lost(config: FanConfigView)
    ensures
        ({
            let again = as_written(config);
            &&& again.auto == config.auto
            &&& !config.auto ==> {
                &&& again.low_temp == config.low_temp
                &&& again.high_temp == config.high_temp
                &&& again.speed_curve == config.speed_curve
                &&& again.always_full_speed == config.always_full_speed
                &&& again.sensors == config.sensors
                &&& config.speed_curve == SpeedCurve::Exponential && !is_worth(config.exp_pow, 3)
                    ==> again.exp_pow == config.exp_pow
                &&& is_worth(config.exp_pow, 3) ==> is_worth(again.exp_pow, 3)
            }
        }),
{
    lemma_three();
}

/// Each value of a configuration is written under its own key, and nothing else is.
pub proof fn each_value_is_written_under_its_key(config: FanConfigView)
    ensures
        ({
            let pairs = config_pairs(config);
            let auto: int = if config.auto {
                1
            } else {
                0
            };
            let sensors: int = if config.sensors.len() > 0 {
                1
            } else {
                0
            };
            let exponent: int = if first_value(pairs, "exp_pow"@) is Some {
                1
            } else {
                0
            };
            &&& pairs.len() == 4 + auto + sensors + exponent
            &&& first_value(pairs, "low_temp"@) == Some(decimal(config.low_temp as nat))
            &&& first_value(pairs, "high_temp"@) == Some(decimal(config.high_temp as nat))
            &&& first_value(pairs, "speed_curve"@) == Some(curve_name(config.speed_curve))
            &&& first_value(pairs, "always_full_speed"@) == Some(
                if config.always_full_speed {
                    "true"@
                } else {
                    "false"@
                },
            )
            &&& first_value(pairs, "auto"@) == (if config.auto {
                Some("true"@)
            } else {
                None
            })
            &&& first_value(pairs, "sensors"@) == (if config.sensors.len() > 0 {
                Some(sensors_text(config.sensors))
            } else {
                None
            })
            &&& first_value(pairs, "exp_pow"@) == (if config.speed_curve
                == SpeedCurve::Exponential && !is_worth(config.exp_pow, 3) {
                Some(config.exp_pow)
            } else {
                None
            })
        }),
{
    let pairs = config_pairs(config);
    let a: int = if config.auto {
        1
    } else {
        0
    };
    let s: int = if config.sensors.len() > 0 {
        1
    } else {
        0
    };
    lemma_keys();
    lemma_pairs_distinct(config);
    lemma_value_found(pairs, a);
    lemma_value_found(pairs, a + 1);
    lemma_value_found(pairs, a + 2);
    lemma_value_found(pairs, a + 3);
    if config.auto {
        lemma_value_found(pairs, 0);
    } else {
        lemma_value_absent(pairs, "auto"@);
    }
    if config.sensors.len() > 0 {
        lemma_value_found(pairs, a + 4);
    } else {
        lemma_value_absent(pairs, "sensors"@);
    }
    if config.speed_curve == SpeedCurve::Exponential && !is_worth(config.exp_pow, 3) {
        lemma_value_found(pairs, a + 4 + s);
    } else {
        lemma_value_absent(pairs, "exp_pow"@);
    }
}

/// A file has one section for each fan, with the fan's number in its name, and nothing before them.
pub proof fn file_has_one_section_for_each_fan(configs: Seq<FanConfigView>, i: int)
    requires
        0 <= i < configs.len(),
    ensures
        config_sections(configs).len() == configs.len() + 1,
        config_sections(configs)[0].0 is None,
        config_sections(configs)[0].1.len() == 0,
        config_sections(configs)[i + 1].0 == Some("Fan"@ + decimal((i + 1) as nat)),
        config_sections(configs)[i + 1].1 == config_pairs(configs[i]),
{
}

/// A reading of configurations that is as expected has the expected ones, in their order, or the
/// expected fault.
pub proof fn readings_are_as_expected(
    r: Result<Vec<FanConfig>, Error>,
    expected: Result<Seq<FanConfigView>, Error>,
    i: int,
)
    requires
        configs_result(r, expected),
    ensures
        r is Ok <==> expected is Ok,
        expected matches Ok(configs) ==> {
            &&& r->Ok_0@.len() == configs.len()
            &&& 0 <= i < configs.len() ==> r->Ok_0@[i]@ == configs[i]
        },
        expected matches Err(e) ==> r->Err_0 == e,
{
}

/// A configuration that is written under a name without a section becomes a section of its own at
/// the end; the other sections stay as they are.
pub proof fn configuration_is_written_as_one_section(
    sections: Seq<(Option<Seq<char>>, Seq<(Seq<char>, Seq<char>)>)>,
    name: Seq<char>,
    config: FanConfigView,
)
    requires
        forall|i: int| 0 <= i < sections.len() ==> (#[trigger] sections[i]).0 != Some(name),
    ensures
        with_pairs(sections, name, config_pairs(config)) == sections.push(
            (Some(name), config_pairs(config)),
        ),
{
    lemma_pairs_distinct(config);
    lemma_pairs_make_section(sections, name, config_pairs(config));
}

} // verus!
