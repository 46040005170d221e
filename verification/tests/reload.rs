use nonempty::NonEmpty;
use t2fanrd::config::{FanConfig, SensorSpec, SpeedCurve};
use t2fanrd::error::Error;
use t2fanrd::fan_controller::{FanController, SpeedRead, TargetOpen};
use t2fanrd::reload::try_reload_curves;
use t2fanrd::sensors::SensorIdx;
use t2fanrd::startup::gather_fans;

fn config(auto: bool, sensors: Vec<SensorSpec>) -> FanConfig {
    let mut config = FanConfig::default();
    config.auto = auto;
    config.sensors = sensors;
    config
}

fn cpu() -> Vec<SensorSpec> {
    vec![SensorSpec::Cpu]
}

fn on_slot(n: &str) -> Vec<SensorSpec> {
    vec![SensorSpec::Slot(n.to_owned())]
}

fn fan(path: &str, sensors: Vec<SensorSpec>) -> FanController {
    FanController::new(
        path,
        config(false, sensors),
        vec![SensorIdx::Cpu],
        &SpeedRead::Text("100".to_owned()),
        &SpeedRead::Text("900".to_owned()),
        TargetOpen::Opened,
    )
    .unwrap()
}

/// Two fans under control, and one before them that is left to the SMC.
fn running() -> (NonEmpty<FanController>, Vec<bool>) {
    let fans = gather_fans(vec![fan("fan2", cpu()), fan("fan3", on_slot("1"))]).unwrap();
    (fans, vec![true, false, false])
}

fn refused(configs: &Vec<FanConfig>) -> String {
    let (mut fans, pattern) = running();
    let result = try_reload_curves(&mut fans, &pattern, configs);
    assert!(fans.iter().all(|f| f.config().low_temp == 55));
    match result {
        Err(Error::ConfigStructureChanged(what)) => what,
        other => panic!("{other:?}"),
    }
}

#[test]
fn curves_are_reloaded() {
    let (mut fans, pattern) = running();
    let mut first = config(false, cpu());
    first.low_temp = 30;
    first.high_temp = 90;
    first.speed_curve = SpeedCurve::Logarithmic;
    first.always_full_speed = true;
    let mut second = config(false, on_slot("1"));
    second.low_temp = 31;
    let configs = vec![config(true, vec![]), first, second];
    for _ in 0..2 {
        assert!(try_reload_curves(&mut fans, &pattern, &configs).is_ok());
        assert_eq!(fans[0].config().low_temp, 30);
        assert_eq!(fans[0].config().high_temp, 90);
        assert_eq!(fans[0].config().speed_curve, SpeedCurve::Logarithmic);
        assert!(fans[0].config().always_full_speed);
        assert_eq!(fans[1].config().low_temp, 31);
        assert_eq!(fans[1].set_speed(0).path, "fan3_target");
        assert_eq!(fans[1].min_speed(), 100);
        assert_eq!(fans[1].max_speed(), 900);
    }
}

#[test]
fn other_number_of_fans_is_refused() {
    let what = refused(&vec![config(true, vec![]), config(false, cpu())]);
    assert_eq!(what, "fan count differs");
}

#[test]
fn toggled_auto_is_refused() {
    let mut changed = config(true, vec![]);
    changed.low_temp = 1;
    let what = refused(&vec![config(true, vec![]), config(false, cpu()), changed]);
    assert_eq!(what, "auto flag changed at Fan3");
    let what =
        refused(&vec![config(false, cpu()), config(false, cpu()), config(false, on_slot("1"))]);
    assert_eq!(what, "auto flag changed at Fan1");
}

#[test]
fn other_sensors_are_refused() {
    let mut first = config(false, cpu());
    first.low_temp = 1;
    let what = refused(&vec![config(true, vec![]), first, config(false, on_slot("2"))]);
    assert_eq!(what, "sensors changed at tracked fan #2");
    let mut more = cpu();
    more.push(SensorSpec::Cpu);
    let what =
        refused(&vec![config(true, vec![]), config(false, more), config(false, on_slot("1"))]);
    assert_eq!(what, "sensors changed at tracked fan #1");
}

#[test]
fn other_number_of_controlled_fans_is_refused() {
    let mut fans = gather_fans(vec![fan("fan2", cpu())]).unwrap();
    let configs = vec![config(false, cpu()), config(false, cpu())];
    match try_reload_curves(&mut fans, &vec![false, false], &configs) {
        Err(Error::ConfigStructureChanged(what)) => assert_eq!(what, "tracked fan count differs"),
        other => panic!("{other:?}"),
    }
}
