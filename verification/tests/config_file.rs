use t2fanrd::config::{FanConfig, SensorSpec, SpeedCurve};
use t2fanrd::config_file::{
    generate_config_file, load_fan_configs, parse_config_file, read_sections, ConfigFile,
};
use t2fanrd::error::{Error, IoCause};

const EXAMPLE: &str = "# Rear exhaust fan
[Fan1]
auto=true

# Front intake fan - bottom
[Fan2]
auto=false
low_temp=50
high_temp=85
speed_curve=exponential
always_full_speed=false
sensors=slot:1
exp_pow=3.0

# Front intake fan - middle
[Fan3]
auto=false
low_temp=50
high_temp=85
speed_curve=exponential
always_full_speed=false
sensors=slot:3
exp_pow=3.0

# Front intake fan - top
[Fan4]
auto=false
low_temp=55
high_temp=80
speed_curve=exponential
always_full_speed=false
sensors=cpu
";

#[test]
fn example_is_read() {
    let configs = parse_config_file(EXAMPLE, 4).unwrap();
    assert_eq!(configs.len(), 4);
    assert!(configs[0].auto);
    assert!(configs[1..].iter().all(|c| !c.auto));
    assert_eq!(configs[1].low_temp, 50);
    assert_eq!(configs[1].high_temp, 85);
    assert_eq!(configs[1].speed_curve, SpeedCurve::Exponential);
    assert!(!configs[1].always_full_speed);
    assert!(matches!(&configs[1].sensors[0], SensorSpec::Slot(n) if n == "1"));
    assert!(configs[1].exp_pow.equals(3));
    assert!(matches!(&configs[2].sensors[0], SensorSpec::Slot(n) if n == "3"));
    assert!(matches!(configs[3].sensors[0], SensorSpec::Cpu));
    assert_eq!(configs[3].exp_pow.as_text(), "3");
}

#[test]
fn missing_section_is_named() {
    assert!(matches!(parse_config_file(EXAMPLE, 5), Err(Error::MissingFanConfig(5))));
    assert!(matches!(parse_config_file("", 1), Err(Error::MissingFanConfig(1))));
}

#[test]
fn fault_in_a_section_is_reported() {
    let text = "[Fan1]\nlow_temp=50\nhigh_temp=60\nspeed_curve=linear\nalways_full_speed=false\n";
    assert!(matches!(parse_config_file(text, 1), Err(Error::MissingConfigValue("sensors"))));
}

#[test]
fn syntax_error_is_located() {
    match parse_config_file("[Fan1\n", 1) {
        Err(Error::ConfigParse(e)) => {
            assert!(e.line > 0);
            assert!(!e.msg.is_empty());
        }
        other => panic!("{other:?}"),
    }
}

#[test]
fn new_file_holds_the_defaults() {
    let (configs, text) = generate_config_file(2);
    assert_eq!(configs.len(), 2);
    assert!(configs.iter().all(|c| c.auto));
    assert_eq!(configs[1].low_temp, 55);
    let section =
        "auto=true\nlow_temp=55\nhigh_temp=75\nspeed_curve=linear\nalways_full_speed=false\n";
    assert_eq!(text, format!("[Fan1]\n{section}\n[Fan2]\n{section}"));
}

#[test]
fn new_file_reads_back() {
    for count in 1..12 {
        let (configs, text) = generate_config_file(count);
        let read = parse_config_file(&text, count).unwrap();
        assert_eq!(read.len(), count);
        for (a, b) in configs.iter().zip(&read) {
            assert!(a.auto && b.auto);
            assert_eq!(a.low_temp, b.low_temp);
            assert_eq!(a.high_temp, b.high_temp);
            assert_eq!(a.speed_curve, b.speed_curve);
            assert_eq!(a.always_full_speed, b.always_full_speed);
            assert_eq!(a.sensors.len(), b.sensors.len());
            assert_eq!(a.exp_pow.as_text(), b.exp_pow.as_text());
        }
    }
}

#[test]
fn written_configurations_read_back() {
    let mut file = ini::Ini::new();
    let mut first = FanConfig::default();
    first.auto = false;
    first.sensors.push(SensorSpec::Cpu);
    first.sensors.push(SensorSpec::Slot("1-2".to_owned()));
    first.low_temp = 0;
    first.high_temp = 255;
    let second = FanConfig::default();
    first.write_property(&mut file, "Fan1");
    second.write_property(&mut file, "Fan2");
    let mut buffer = Vec::new();
    file.write_to(&mut buffer).unwrap();
    let text = String::from_utf8(buffer).unwrap();
    let configs = parse_config_file(&text, 2).unwrap();
    assert_eq!(configs[0].low_temp, 0);
    assert_eq!(configs[0].high_temp, 255);
    assert!(configs[0].sensors[1].same(&first.sensors[1]));
    assert!(configs[1].auto);
    assert_eq!(read_sections(&file, 2).unwrap().len(), 2);
}

#[test]
fn any_slot_reads_back_from_a_section() {
    let mut config = FanConfig::default();
    config.auto = false;
    config.sensors.push(SensorSpec::Slot(" # \"é=".to_owned()));
    let mut file = ini::Ini::new();
    config.write_property(&mut file, "Fan1");
    let read = read_sections(&file, 1).unwrap();
    assert!(read[0].sensors[0].same(&config.sensors[0]));
}

#[test]
fn unused_exponent_is_not_kept() {
    let mut config = FanConfig::default();
    config.auto = false;
    config.sensors.push(SensorSpec::Cpu);
    config.exp_pow = t2fanrd::decimal::Decimal::parse("2.5").unwrap();
    let mut file = ini::Ini::new();
    config.write_property(&mut file, "Fan1");
    let read = read_sections(&file, 1).unwrap();
    assert_eq!(read[0].exp_pow.as_text(), "3");
    config.speed_curve = SpeedCurve::Exponential;
    config.write_property(&mut file, "Fan1");
    let read = read_sections(&file, 1).unwrap();
    assert_eq!(read[0].exp_pow.as_text(), "2.5");
}

#[test]
fn file_is_read_or_made() {
    let loaded = load_fan_configs(ConfigFile::Contents(EXAMPLE.to_owned()), 4).unwrap();
    assert_eq!(loaded.configs.len(), 4);
    assert!(loaded.new_file.is_none());
    let loaded = load_fan_configs(ConfigFile::Missing, 3).unwrap();
    assert_eq!(loaded.configs.len(), 3);
    assert_eq!(loaded.new_file, Some(generate_config_file(3).1));
    assert!(loaded.configs.iter().all(|c| c.auto || !c.sensors.is_empty()));
    assert!(matches!(
        load_fan_configs(ConfigFile::Unreadable(IoCause::Os(13)), 1),
        Err(Error::ConfigRead(IoCause::Os(13)))
    ));
}

#[test]
fn unwritten_file_is_a_fault() {
    let cause = IoCause::Os(30);
    let load = |file| load_fan_configs(file, 4).unwrap();
    assert!(matches!(
        load(ConfigFile::Missing).settle(Err(cause)),
        Err(Error::ConfigCreate(IoCause::Os(30)))
    ));
    assert_eq!(load(ConfigFile::Missing).settle(Ok(())).unwrap().len(), 4);
    let read = load(ConfigFile::Contents(EXAMPLE.to_owned()));
    assert_eq!(read.settle(Ok(())).unwrap().len(), 4);
}
