use t2fanrd::config::{FanConfig, SpeedCurve};
use t2fanrd::decimal::Decimal;
use t2fanrd::error::{Error, IoCause};
use t2fanrd::fan_controller::{
    max_path, min_path, release_fan_to_smc, target_path, FanController, SpeedRead, TargetOpen,
};
use t2fanrd::sensors::{SensorIdx, SensorReadings};
use t2fanrd::text::NumberFault;

fn limit(s: &str) -> SpeedRead {
    SpeedRead::Text(s.to_owned())
}

fn fan_with(config: FanConfig, sensors: Vec<SensorIdx>) -> FanController {
    FanController::new(
        "hwmon3/fan1",
        config,
        sensors,
        &limit("500\n"),
        &limit("2500\n"),
        TargetOpen::Opened,
    )
    .unwrap()
}

#[test]
fn files_of_a_fan() {
    assert_eq!(min_path("d/fan2").unwrap(), "d/fan2_min");
    assert_eq!(max_path("d/fan2").unwrap(), "d/fan2_max");
    assert_eq!(target_path("d/fan2").unwrap(), "d/fan2_target");
    let release = release_fan_to_smc("d/fan2").unwrap();
    assert_eq!(release.path, "d/fan2_target");
    assert_eq!(release.text, "0");
}

#[test]
fn what_names_no_file_is_no_fan() {
    for path in ["/", "", ".", "..", "a/..", "/.", "//"] {
        assert!(matches!(release_fan_to_smc(path), Err(Error::NoFan)));
        assert!(min_path(path).is_none());
    }
}

#[test]
fn limits_are_read() {
    let fan = fan_with(FanConfig::default(), vec![]);
    assert_eq!(fan.min_speed(), 500);
    assert_eq!(fan.max_speed(), 2500);
    assert_eq!(fan.config().low_temp, 55);
}

#[test]
fn faults_in_the_limits_come_in_order() {
    let new = |min: &SpeedRead, max: &SpeedRead, target: TargetOpen| {
        FanController::new("f", FanConfig::default(), vec![], min, max, target)
    };
    let failed = SpeedRead::Failed(IoCause::Os(2));
    let denied = TargetOpen::Denied;
    assert!(matches!(new(&failed, &failed, denied), Err(Error::MinSpeedRead(IoCause::Os(2)))));
    assert!(matches!(
        new(&limit("x"), &failed, denied),
        Err(Error::MinSpeedParse(NumberFault::InvalidDigit))
    ));
    assert!(matches!(
        new(&limit(" 1 "), &failed, denied),
        Err(Error::MaxSpeedRead(IoCause::Os(2)))
    ));
    assert!(matches!(
        new(&limit("1"), &limit("\n"), denied),
        Err(Error::MaxSpeedParse(NumberFault::Empty))
    ));
    assert!(matches!(
        new(&limit("1"), &limit(" 2"), denied),
        Err(Error::MaxSpeedParse(NumberFault::InvalidDigit))
    ));
    assert!(new(&limit(" 1\n"), &limit("2 \n"), TargetOpen::Opened).is_ok());
}

#[test]
fn fan_that_cannot_be_set_is_refused() {
    let new = |target: TargetOpen| {
        FanController::new("f", FanConfig::default(), vec![], &limit("1"), &limit("2"), target)
    };
    assert!(matches!(new(TargetOpen::Denied), Err(Error::FanControlDisabled)));
    assert!(matches!(
        new(TargetOpen::Failed(IoCause::Os(2))),
        Err(Error::FanOpen(IoCause::Os(2)))
    ));
    assert!(new(TargetOpen::Opened).is_ok());
}

#[test]
fn highest_temperature_drives_the_fan() {
    let readings = SensorReadings { cpu: Some(40), hwmons: vec![70, 30], nvidia: vec![65] };
    let all = vec![
        SensorIdx::Cpu,
        SensorIdx::Hwmon(1),
        SensorIdx::Nvidia(0),
        SensorIdx::Hwmon(0),
    ];
    let fan = fan_with(FanConfig::default(), all);
    assert!(fan.has_all(&readings));
    assert_eq!(fan.compute_max_temp(&readings), 70);
    let fan = fan_with(FanConfig::default(), vec![SensorIdx::Cpu, SensorIdx::Hwmon(1)]);
    assert_eq!(fan.compute_max_temp(&readings), 40);
    let fan = fan_with(FanConfig::default(), vec![]);
    assert_eq!(fan.compute_max_temp(&readings), 0);
}

#[test]
fn missing_temperature_is_noticed() {
    let readings = SensorReadings { cpu: None, hwmons: vec![70], nvidia: vec![] };
    assert!(!fan_with(FanConfig::default(), vec![SensorIdx::Cpu]).has_all(&readings));
    assert!(!fan_with(FanConfig::default(), vec![SensorIdx::Hwmon(1)]).has_all(&readings));
    assert!(!fan_with(FanConfig::default(), vec![SensorIdx::Nvidia(0)]).has_all(&readings));
    assert!(fan_with(FanConfig::default(), vec![SensorIdx::Hwmon(0)]).has_all(&readings));
}

#[test]
fn speed_is_set_within_the_limits() {
    let fan = fan_with(FanConfig::default(), vec![]);
    let write = fan.set_speed(1234);
    assert_eq!(write.path, "hwmon3/fan1_target");
    assert_eq!(write.text, "1234");
    assert_eq!(fan.set_speed(0).text, "500");
    assert_eq!(fan.set_speed(u32::MAX).text, "2500");
}

#[test]
fn limits_the_wrong_way_round() {
    let fan = FanController::new(
        "f",
        FanConfig::default(),
        vec![],
        &limit("100"),
        &limit("50"),
        TargetOpen::Opened,
    )
    .unwrap();
    assert_eq!(fan.set_speed(10).text, "100");
    assert_eq!(fan.set_speed(100).text, "50");
}

#[test]
fn manual_mode_and_release() {
    let fan = fan_with(FanConfig::default(), vec![]);
    assert_eq!(fan.set_manual(true).path, "hwmon3/fan1_manual");
    assert_eq!(fan.set_manual(true).text, "1");
    assert_eq!(fan.set_manual(false).text, "0");
    assert_eq!(fan.release_to_auto().path, "hwmon3/fan1_target");
    assert_eq!(fan.release_to_auto().text, "0");
}

#[test]
fn speed_at_a_temperature() {
    let fan = fan_with(FanConfig::default(), vec![]);
    assert_eq!(fan.calc_speed(0, 77), 500);
    assert_eq!(fan.calc_speed(55, 77), 500);
    assert_eq!(fan.calc_speed(56, 77), 577);
    assert_eq!(fan.calc_speed(74, 1900), 2400);
    assert_eq!(fan.calc_speed(75, 77), 2500);
    assert_eq!(fan.calc_speed(255, 77), 2500);
}

#[test]
fn full_speed_at_every_temperature() {
    let mut config = FanConfig::default();
    config.always_full_speed = true;
    let fan = fan_with(config, vec![]);
    for temp in 0..=255u8 {
        assert_eq!(fan.calc_speed(temp, 0), 2500);
        assert!(fan.curve_point(temp).is_none());
    }
}

#[test]
fn place_on_the_curve() {
    let mut config = FanConfig::default();
    config.speed_curve = SpeedCurve::Exponential;
    config.exp_pow = Decimal::parse("1.5").unwrap();
    let fan = fan_with(config, vec![]);
    assert!(fan.curve_point(55).is_none());
    assert!(fan.curve_point(75).is_none());
    assert!(!fan.is_on_curve(55));
    assert!(fan.is_on_curve(56));
    let point = fan.curve_point(60).unwrap();
    assert_eq!(point.curve, SpeedCurve::Exponential);
    assert_eq!(point.exp_pow.as_text(), "1.5");
    assert_eq!(point.above, 5);
    assert_eq!(point.span, 20);
    assert_eq!(point.range, 2000);
}

#[test]
fn new_configuration_keeps_the_limits() {
    let mut fan = fan_with(FanConfig::default(), vec![SensorIdx::Cpu]);
    let mut config = FanConfig::default();
    config.low_temp = 10;
    fan.set_config(config);
    assert_eq!(fan.config().low_temp, 10);
    assert_eq!(fan.min_speed(), 500);
    assert_eq!(fan.max_speed(), 2500);
    let readings = SensorReadings { cpu: Some(33), hwmons: vec![], nvidia: vec![] };
    assert_eq!(fan.compute_max_temp(&readings), 33);
}

#[test]
fn exponent_is_handed_on_for_the_exponential_curve() {
    let point = |curve: SpeedCurve, exp_pow: &str| {
        let mut config = FanConfig::default();
        config.speed_curve = curve;
        config.exp_pow = Decimal::parse(exp_pow).unwrap();
        fan_with(config, vec![]).curve_point(60).unwrap()
    };
    for curve in [SpeedCurve::Linear, SpeedCurve::Logarithmic] {
        assert_eq!(point(curve, "7").exp_pow.as_text(), "3");
        assert_eq!(point(curve, "7").curve, curve);
    }
    assert_eq!(point(SpeedCurve::Exponential, "7").exp_pow.as_text(), "7");
    let linear = point(SpeedCurve::Exponential, "1.0");
    assert_eq!(linear.curve, SpeedCurve::Linear);
    assert_eq!(linear.exp_pow.as_text(), "3");
    assert_eq!(linear.above, 5);
    assert_eq!(linear.span, 20);
    assert_eq!(linear.range, 2000);
}
