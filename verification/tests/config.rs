use t2fanrd::config::{parse_sensors, FanConfig, SectionValues, SensorSpec, SpeedCurve};
use t2fanrd::error::Error;

fn values() -> SectionValues {
    SectionValues {
        auto: None,
        low_temp: Some("50".to_owned()),
        high_temp: Some("85".to_owned()),
        speed_curve: Some("exponential".to_owned()),
        always_full_speed: Some("false".to_owned()),
        sensors: Some("cpu, slot:1".to_owned()),
        exp_pow: Some("2.5".to_owned()),
    }
}

fn text(s: &str) -> Option<String> {
    Some(s.to_owned())
}

#[test]
fn curve_names_read_back() {
    for curve in [SpeedCurve::Linear, SpeedCurve::Exponential, SpeedCurve::Logarithmic] {
        assert_eq!(SpeedCurve::from_str(&curve.to_string()), Ok(curve));
    }
    assert_eq!(SpeedCurve::Linear.to_string(), "linear");
    assert_eq!(SpeedCurve::Exponential.to_string(), "exponential");
    assert_eq!(SpeedCurve::Logarithmic.to_string(), "logarithmic");
    assert_eq!(SpeedCurve::from_str("Linear"), Err(()));
}

#[test]
fn default_configuration() {
    let config = FanConfig::default();
    assert!(config.auto);
    assert_eq!(config.low_temp, 55);
    assert_eq!(config.high_temp, 75);
    assert_eq!(config.speed_curve, SpeedCurve::Linear);
    assert!(!config.always_full_speed);
    assert!(config.sensors.is_empty());
    assert_eq!(config.exp_pow.as_text(), "3");
}

#[test]
fn section_is_read() {
    let config = FanConfig::from_values(&values()).unwrap();
    assert!(!config.auto);
    assert_eq!(config.low_temp, 50);
    assert_eq!(config.high_temp, 85);
    assert_eq!(config.speed_curve, SpeedCurve::Exponential);
    assert!(!config.always_full_speed);
    assert_eq!(config.sensors.len(), 2);
    assert!(matches!(config.sensors[0], SensorSpec::Cpu));
    assert!(matches!(&config.sensors[1], SensorSpec::Slot(n) if n == "1"));
    assert_eq!(config.exp_pow.as_text(), "2.5");
}

#[test]
fn exponent_defaults_to_three() {
    let mut v = values();
    v.exp_pow = None;
    assert_eq!(FanConfig::from_values(&v).unwrap().exp_pow.as_text(), "3");
}

#[test]
fn auto_fan_needs_nothing_else() {
    let v = SectionValues {
        auto: text("true"),
        low_temp: text("no number"),
        high_temp: None,
        speed_curve: text("steep"),
        always_full_speed: None,
        sensors: text("gpu"),
        exp_pow: text("x"),
    };
    let config = FanConfig::from_values(&v).unwrap();
    assert!(config.auto);
    assert_eq!(config.low_temp, 55);
    assert!(config.sensors.is_empty());
}

#[test]
fn each_missing_value_is_named() {
    let mut v = values();
    v.low_temp = None;
    assert!(matches!(FanConfig::from_values(&v), Err(Error::MissingConfigValue("low_temp"))));
    let mut v = values();
    v.high_temp = None;
    assert!(matches!(FanConfig::from_values(&v), Err(Error::MissingConfigValue("high_temp"))));
    let mut v = values();
    v.speed_curve = None;
    assert!(matches!(FanConfig::from_values(&v), Err(Error::MissingConfigValue("speed_curve"))));
    let mut v = values();
    v.always_full_speed = None;
    assert!(matches!(
        FanConfig::from_values(&v),
        Err(Error::MissingConfigValue("always_full_speed"))
    ));
    let mut v = values();
    v.sensors = None;
    assert!(matches!(FanConfig::from_values(&v), Err(Error::MissingConfigValue("sensors"))));
    let mut v = values();
    v.sensors = text(" , ");
    assert!(matches!(FanConfig::from_values(&v), Err(Error::MissingConfigValue("sensors"))));
}

#[test]
fn each_unusable_value_is_named() {
    let mut v = values();
    v.auto = text("yes");
    assert!(matches!(FanConfig::from_values(&v), Err(Error::InvalidConfigValue("auto"))));
    let mut v = values();
    v.low_temp = text("256");
    assert!(matches!(FanConfig::from_values(&v), Err(Error::InvalidConfigValue("low_temp"))));
    let mut v = values();
    v.high_temp = text("-1");
    assert!(matches!(FanConfig::from_values(&v), Err(Error::InvalidConfigValue("high_temp"))));
    let mut v = values();
    v.speed_curve = text("steep");
    assert!(matches!(FanConfig::from_values(&v), Err(Error::InvalidConfigValue("speed_curve"))));
    let mut v = values();
    v.always_full_speed = text("1");
    assert!(matches!(
        FanConfig::from_values(&v),
        Err(Error::InvalidConfigValue("always_full_speed"))
    ));
    let mut v = values();
    v.sensors = text("cpu,gpu");
    assert!(matches!(FanConfig::from_values(&v), Err(Error::InvalidConfigValue("sensors"))));
    let mut v = values();
    v.exp_pow = text("two");
    assert!(matches!(FanConfig::from_values(&v), Err(Error::InvalidConfigValue("exp_pow"))));
}

#[test]
fn sensors_are_looked_at_last() {
    let mut v = values();
    v.sensors = None;
    v.exp_pow = text("x");
    v.high_temp = text("x");
    assert!(matches!(FanConfig::from_values(&v), Err(Error::InvalidConfigValue("exp_pow"))));
    v.exp_pow = None;
    assert!(matches!(FanConfig::from_values(&v), Err(Error::InvalidConfigValue("high_temp"))));
    v.high_temp = text("90");
    assert!(matches!(FanConfig::from_values(&v), Err(Error::MissingConfigValue("sensors"))));
}

#[test]
fn sensor_list_is_read() {
    let sensors = parse_sensors(" cpu ,, slot:3,slot:1-1").unwrap();
    let texts: Vec<String> = sensors.iter().map(|s| s.to_text()).collect();
    assert_eq!(texts, vec!["cpu", "slot:3", "slot:1-1"]);
    assert!(sensors[1].same(&SensorSpec::Slot("3".to_owned())));
    assert!(!sensors[1].same(&SensorSpec::Cpu));
    assert!(parse_sensors("slot:").is_none());
    assert!(parse_sensors("CPU").is_none());
    assert_eq!(parse_sensors("").unwrap().len(), 0);
}

#[test]
fn properties_are_read_by_key() {
    let mut properties = ini::Properties::new();
    properties.insert("low_temp", "40");
    properties.append("low_temp", "41");
    properties.insert("high_temp", "90");
    properties.insert("speed_curve", "logarithmic");
    properties.insert("always_full_speed", "true");
    properties.insert("sensors", "slot:2");
    let config = FanConfig::try_from(&properties).unwrap();
    assert_eq!(config.low_temp, 40);
    assert_eq!(config.speed_curve, SpeedCurve::Logarithmic);
    assert!(config.always_full_speed);
}

#[test]
fn configuration_is_written_into_a_section() {
    let mut config = FanConfig::from_values(&values()).unwrap();
    let mut file = ini::Ini::new();
    config.write_property(&mut file, "Fan1");
    let section = file.section(Some("Fan1")).unwrap();
    let pairs: Vec<(&str, &str)> = section.iter().collect();
    assert_eq!(
        pairs,
        vec![
            ("low_temp", "50"),
            ("high_temp", "85"),
            ("speed_curve", "exponential"),
            ("always_full_speed", "false"),
            ("sensors", "cpu,slot:1"),
            ("exp_pow", "2.5"),
        ]
    );
    config.low_temp = 51;
    config.write_property(&mut file, "Fan1");
    let section = file.section(Some("Fan1")).unwrap();
    assert_eq!(section.get("low_temp"), Some("51"));
    assert_eq!(section.len(), 6);
}

#[test]
fn clone_says_the_same() {
    let config = FanConfig::from_values(&values()).unwrap();
    let copy = config.clone();
    assert_eq!(copy.low_temp, 50);
    assert_eq!(copy.sensors.len(), 2);
    assert_eq!(copy.exp_pow.as_text(), "2.5");
}
