use nonempty::NonEmpty;
use t2fanrd::config::{FanConfig, SensorSpec};
use t2fanrd::error::{Error, IoCause};
use t2fanrd::fan_controller::{FanController, FanWrite, SpeedRead, TargetOpen};
use t2fanrd::sensors::{SensorIdx, SensorReadings};
use t2fanrd::startup::gather_fans;
use t2fanrd::temp_loop::{have_all, have_ordered_limits, FanTempTracker, Step, TempLoop};

fn fan(path: &str, min: &str, max: &str, sensor: SensorIdx) -> FanController {
    let mut config = FanConfig::default();
    config.auto = false;
    config.sensors.push(SensorSpec::Cpu);
    FanController::new(
        path,
        config,
        vec![sensor],
        &SpeedRead::Text(min.to_owned()),
        &SpeedRead::Text(max.to_owned()),
        TargetOpen::Opened,
    )
    .unwrap()
}

fn two_fans() -> NonEmpty<FanController> {
    gather_fans(vec![
        fan("fan1", "500", "2500", SensorIdx::Cpu),
        fan("fan2", "1000", "1100", SensorIdx::Hwmon(0)),
    ])
    .unwrap()
}

#[test]
fn rising_edge_is_followed_at_once() {
    let mut tracker = FanTempTracker::new();
    assert_eq!(tracker.follow(60, 0), 60);
    assert_eq!(tracker.ema, Some(60));
    assert_eq!(tracker.follow(65, 60), 60);
    assert_eq!(tracker.follow(66, 61), 66);
    assert_eq!(tracker.ema, Some(61));
    assert_eq!(tracker.follow(20, 60), 60);
}

#[test]
fn hottest_edge_does_not_wrap() {
    let mut tracker = FanTempTracker { ema: Some(253), last_pwm: 0 };
    assert_eq!(tracker.follow(255, 254), 254);
}

#[test]
fn small_changes_are_not_set() {
    let fan = fan("fan1", "500", "2500", SensorIdx::Cpu);
    let mut tracker = FanTempTracker::new();
    assert_eq!(tracker.set(&fan, 500).unwrap().text, "500");
    assert!(tracker.set(&fan, 500).is_none());
    assert!(tracker.set(&fan, 519).is_none());
    assert_eq!(tracker.last_pwm, 500);
    assert_eq!(tracker.set(&fan, 520).unwrap().text, "520");
    assert_eq!(tracker.last_pwm, 520);
    assert!(tracker.set(&fan, 501).is_none());
    assert_eq!(tracker.set(&fan, 500).unwrap().text, "500");
}

#[test]
fn least_change_is_five() {
    let fan = fan("fan1", "100", "200", SensorIdx::Cpu);
    let mut tracker = FanTempTracker { ema: None, last_pwm: 150 };
    assert!(tracker.set(&fan, 154).is_none());
    assert!(tracker.set(&fan, 146).is_none());
    assert_eq!(tracker.set(&fan, 155).unwrap().text, "155");
}

#[test]
fn fan_at_rest_is_not_set_from_zero() {
    let fan = fan("fan1", "0", "100", SensorIdx::Cpu);
    assert!(FanTempTracker::new().set(&fan, 0).is_none());
}

fn readings(cpu: u8, gpu: u8) -> SensorReadings {
    SensorReadings { cpu: Some(cpu), hwmons: vec![gpu], nvidia: vec![] }
}

/// One tick without a signal, in which smoothing changes nothing.
fn tick(
    state: &mut TempLoop,
    fans: &NonEmpty<FanController>,
    readings: &SensorReadings,
    shares: &Vec<u32>,
) -> Vec<Option<FanWrite>> {
    assert_eq!(state.begin(false, false), Step::Read);
    state.read(fans, readings);
    let emas = state.temps.clone();
    state.smooth(fans, &emas);
    assert!(state.has_room_for(fans, shares));
    state.speed(fans, shares)
}

#[test]
fn first_tick_takes_over_every_fan() {
    let fans = two_fans();
    let mut state = TempLoop::new(&fans);
    assert_eq!(state.trackers.len(), 2);
    assert_eq!(state.alpha(), 2);
    let readings = readings(65, 20);
    assert!(have_all(&fans, &readings));
    assert!(have_ordered_limits(&fans));
    assert_eq!(state.begin(false, false), Step::Read);
    state.read(&fans, &readings);
    assert_eq!(state.temps, vec![65, 20]);
    let points = state.smooth(&fans, &vec![65, 20]);
    assert_eq!(points[0].as_ref().unwrap().above, 10);
    assert!(points[1].is_none());
    let shares = vec![1000, 0];
    assert!(state.has_room_for(&fans, &shares));
    let writes = state.speed(&fans, &shares);
    assert_eq!(writes[0].as_ref().unwrap().path, "fan1_target");
    assert_eq!(writes[0].as_ref().unwrap().text, "1500");
    assert_eq!(writes[1].as_ref().unwrap().text, "1000");
    assert_eq!(state.end_tick(), 100);
    assert_eq!(state.alpha(), 2);
    assert_eq!(state.step, Step::Begin);
}

#[test]
fn speed_follows_the_smoothed_temperature() {
    let fans = two_fans();
    let mut state = TempLoop::new(&fans);
    tick(&mut state, &fans, &readings(65, 20), &vec![1000, 0]);
    state.end_tick();
    state.begin(false, false);
    state.read(&fans, &readings(60, 30));
    assert_eq!(state.temps, vec![60, 30]);
    let points = state.smooth(&fans, &vec![64, 22]);
    assert_eq!(state.temps, vec![64, 30]);
    assert_eq!(points[0].as_ref().unwrap().above, 9);
    assert_eq!(state.trackers[1].ema, Some(22));
}

#[test]
fn quiet_tick_is_followed_by_a_long_sleep() {
    let fans = two_fans();
    let mut state = TempLoop::new(&fans);
    let shares = vec![1000, 0];
    tick(&mut state, &fans, &readings(65, 20), &shares);
    assert_eq!(state.end_tick(), 100);
    let writes = tick(&mut state, &fans, &readings(65, 20), &shares);
    assert!(writes.iter().all(|w| w.is_none()));
    assert_eq!(state.end_tick(), 1000);
    assert_eq!(state.alpha(), 18);
    let writes = tick(&mut state, &fans, &readings(65, 75), &shares);
    assert!(writes[0].is_none());
    assert_eq!(writes[1].as_ref().unwrap().text, "1100");
    assert_eq!(state.end_tick(), 100);
    assert_eq!(state.alpha(), 2);
}

#[test]
fn speed_above_the_limit_is_held_there() {
    let fans = two_fans();
    let mut state = TempLoop::new(&fans);
    let writes = tick(&mut state, &fans, &readings(65, 65), &vec![2001, 101]);
    assert_eq!(writes[0].as_ref().unwrap().text, "2500");
    assert_eq!(writes[1].as_ref().unwrap().text, "1100");
    assert_eq!(state.trackers[0].last_pwm, 2501);
}

#[test]
fn signals_are_looked_at_in_order() {
    let fans = two_fans();
    assert_eq!(TempLoop::new(&fans).begin(true, true), Step::Stop);
    assert_eq!(TempLoop::new(&fans).begin(true, false), Step::Stop);
    assert_eq!(TempLoop::new(&fans).begin(false, true), Step::Reload);
    assert_eq!(TempLoop::new(&fans).begin(false, false), Step::Read);
}

#[test]
fn loop_goes_on_after_a_reload() {
    let mut fans = two_fans();
    let mut state = TempLoop::new(&fans);
    tick(&mut state, &fans, &readings(65, 20), &vec![1000, 0]);
    state.end_tick();
    let before = state.trackers.clone();
    let pattern = vec![false, false];

    state.begin(false, true);
    let failed = state.reload(&mut fans, &pattern, Err(Error::ConfigRead(IoCause::Os(13))));
    assert!(matches!(failed, Err(Error::ConfigRead(IoCause::Os(13)))));
    assert_eq!(state.step, Step::Read);
    assert_eq!(state.trackers, before);
    assert_eq!(fans[0].config().low_temp, 55);

    state.step = Step::Reload;
    let refused = state.reload(&mut fans, &pattern, Ok(vec![]));
    assert!(matches!(refused, Err(Error::ConfigStructureChanged(_))));
    assert_eq!(state.step, Step::Read);
    assert_eq!(fans[0].config().low_temp, 55);

    state.step = Step::Reload;
    let mut first = fans[0].config().clone();
    first.low_temp = 30;
    let second = fans[1].config().clone();
    assert!(state.reload(&mut fans, &pattern, Ok(vec![first, second])).is_ok());
    assert_eq!(state.step, Step::Read);
    assert_eq!(state.trackers, before);
    assert_eq!(fans[0].config().low_temp, 30);
}

#[test]
fn what_a_tick_needs_is_tested() {
    let fans = two_fans();
    let missing = SensorReadings { cpu: Some(65), hwmons: vec![], nvidia: vec![] };
    assert!(!have_all(&fans, &missing));
    let mut state = TempLoop::new(&fans);
    state.begin(false, false);
    state.read(&fans, &readings(65, 65));
    state.smooth(&fans, &vec![65, 65]);
    assert!(!state.has_room_for(&fans, &vec![0, u32::MAX]));
    state.temps = vec![65, 20];
    assert!(state.has_room_for(&fans, &vec![0, u32::MAX]));
    let crossed = gather_fans(vec![fan("fan1", "9", "8", SensorIdx::Cpu)]).unwrap();
    assert!(!have_ordered_limits(&crossed));
}
