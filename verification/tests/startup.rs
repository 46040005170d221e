use t2fanrd::config::{FanConfig, SensorSpec};
use t2fanrd::error::{Error, IoCause};
use t2fanrd::fan_controller::{FanController, SpeedRead, TargetOpen};
use t2fanrd::sensors::RawRead;
use t2fanrd::startup::{
    check_pid_file, check_root, count_fans, find_cpu_temp_file, find_fan_paths, find_macsmc_hwmon,
    gather_fans, plan_fans, proc_path, sensor_lists, shut_down, HwmonName, PidRead,
};

fn names(list: &[&str]) -> Vec<String> {
    list.iter().map(|s| (*s).to_owned()).collect()
}

fn hwmon(dir: &str, name: Option<&str>) -> HwmonName {
    HwmonName { dir: dir.to_owned(), name: name.map(str::to_owned) }
}

#[test]
fn only_root_goes_on() {
    assert!(check_root(0).is_ok());
    assert!(matches!(check_root(1000), Err(Error::NotRoot)));
}

#[test]
fn pid_file_is_checked() {
    let old = PidRead::Pid("123".to_owned());
    assert!(matches!(check_pid_file(&old, true, 7), Err(Error::AlreadyRunning)));
    assert_eq!(check_pid_file(&old, false, 7).unwrap(), "7");
    assert_eq!(check_pid_file(&PidRead::Missing, true, 42).unwrap(), "42");
    assert!(matches!(
        check_pid_file(&PidRead::Failed(IoCause::Os(21)), false, 7),
        Err(Error::PidRead(IoCause::Os(21)))
    ));
}

#[test]
fn running_process_has_a_path() {
    assert_eq!(proc_path("123"), "/proc/123");
    assert_eq!(proc_path(""), "/proc/");
    assert_eq!(proc_path("/tmp"), "/tmp");
}

#[test]
fn monitor_of_the_smc_is_found_by_its_name() {
    let hwmons = vec![
        hwmon("/h0", Some("coretemp\n")),
        hwmon("/h1", None),
        hwmon("/h2", Some("macsmc_hwmon\n")),
        hwmon("/h3", Some("macsmc_hwmon")),
    ];
    assert_eq!(find_macsmc_hwmon(&hwmons).unwrap(), "/h2");
    assert!(matches!(
        find_macsmc_hwmon(&vec![hwmon("/h0", Some("macsmc_hwmon2"))]),
        Err(Error::NoFan)
    ));
}

#[test]
fn fans_come_in_the_order_of_their_numbers() {
    let found = names(&[
        "fan10_input",
        "fan2_input",
        "fan1_input",
        "fanX_input",
        "fan_input",
        "temp1_input",
    ]);
    let paths = find_fan_paths("/sys/h2", &found).unwrap();
    assert_eq!(count_fans(&paths), 3);
    let list: Vec<String> = paths.into_iter().collect();
    assert_eq!(list, vec!["/sys/h2/fan1", "/sys/h2/fan2", "/sys/h2/fan10"]);
}

#[test]
fn fans_with_the_same_number_stay_as_they_came() {
    let paths = find_fan_paths("d", &names(&["fan02_input", "fan1_input", "fan2_input"])).unwrap();
    let list: Vec<String> = paths.into_iter().collect();
    assert_eq!(list, vec!["d/fan1", "d/fan02", "d/fan2"]);
}

#[test]
fn no_fan_is_a_fault() {
    assert!(matches!(find_fan_paths("d", &vec![]), Err(Error::NoFan)));
    assert!(matches!(
        find_fan_paths("d", &names(&["fan4294967296_input", "xfan1_input"])),
        Err(Error::NoFan)
    ));
    assert!(matches!(gather_fans(vec![]), Err(Error::NoFan)));
}

#[test]
fn first_cpu_sensor_that_works_is_taken() {
    let works = |s: &str| Some(RawRead::Bytes(s.as_bytes().to_vec()));
    let failed = Some(RawRead::Failed(IoCause::Other));
    let candidates = vec![None, failed, works("bad"), works("40000\n"), works("1")];
    assert!(matches!(find_cpu_temp_file(&candidates), Ok(3)));
    assert!(matches!(find_cpu_temp_file(&vec![None, works("bad")]), Err(Error::NoCpu)));
}

#[test]
fn fans_are_parted() {
    let paths =
        find_fan_paths("d", &names(&["fan1_input", "fan2_input", "fan3_input"])).unwrap();
    let auto = FanConfig::default();
    let mut first = FanConfig::default();
    first.auto = false;
    first.sensors.push(SensorSpec::Cpu);
    let mut last = FanConfig::default();
    last.auto = false;
    last.sensors.push(SensorSpec::Slot("3".to_owned()));
    last.low_temp = 33;
    let plan = plan_fans(paths, &vec![first, auto, last]);
    assert_eq!(plan.auto_pattern, vec![false, true, false]);
    assert_eq!(plan.releases.len(), 1);
    let release = plan.releases[0].as_ref().unwrap();
    assert_eq!(release.path, "d/fan2_target");
    assert_eq!(release.text, "0");
    let fans = plan.fans.unwrap();
    assert_eq!(fans.len(), 2);
    assert_eq!(fans[0].path, "d/fan1");
    assert_eq!(fans[1].path, "d/fan3");
    assert_eq!(fans[1].config.low_temp, 33);
    let lists = sensor_lists(&fans);
    assert!(matches!(lists[0][0], SensorSpec::Cpu));
    assert!(matches!(&lists[1][0], SensorSpec::Slot(n) if n == "3"));
}

#[test]
fn fans_that_are_all_left_to_the_smc_are_a_fault() {
    let paths = find_fan_paths("d", &names(&["fan1_input"])).unwrap();
    let plan = plan_fans(paths, &vec![FanConfig::default()]);
    assert_eq!(plan.releases.len(), 1);
    assert!(matches!(plan.fans, Err(Error::AllFansAuto)));
}

fn two_fans() -> nonempty::NonEmpty<FanController> {
    let limit = SpeedRead::Text("1".to_owned());
    let fan = |path: &str| {
        let config = FanConfig::default();
        FanController::new(path, config, vec![], &limit, &limit, TargetOpen::Opened).unwrap()
    };
    gather_fans(vec![fan("d/fan1"), fan("d/fan3")]).unwrap()
}

#[test]
fn every_fan_is_given_back_however_the_loop_ended() {
    for result in [Ok(()), Err(Error::NoCpu), Err(Error::FanWrite(IoCause::Os(5)))] {
        let failed = result.is_err();
        let end = shut_down(&two_fans(), result);
        assert_eq!(end.releases.len(), 2);
        assert_eq!(end.releases[0].path, "d/fan1_target");
        assert_eq!(end.releases[1].path, "d/fan3_target");
        assert!(end.releases.iter().all(|w| w.text == "0"));
        assert_eq!(end.result.is_err(), failed);
    }
}

#[test]
fn fault_of_the_loop_comes_first() {
    let cause = IoCause::Other;
    let end = |result| shut_down(&two_fans(), result);
    assert!(end(Ok(())).exit_result(Ok(())).is_ok());
    assert!(matches!(
        end(Err(Error::FanWrite(cause))).exit_result(Err(Error::PidDelete(cause))),
        Err(Error::FanWrite(IoCause::Other))
    ));
    assert!(matches!(
        end(Ok(())).exit_result(Err(Error::PidDelete(cause))),
        Err(Error::PidDelete(IoCause::Other))
    ));
    assert!(matches!(
        end(Err(Error::TempUtf8)).exit_result(Ok(())),
        Err(Error::TempUtf8)
    ));
}
