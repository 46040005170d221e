use t2fanrd::error::{Error, IoCause};
use t2fanrd::sensors::{
    parse_temp, read_temp_file, NvidiaSensors, RawRead, RawSensors, SensorPool, NVML_MIN_INTERVAL,
};
use t2fanrd::text::NumberFault;

fn bytes(s: &str) -> RawRead {
    RawRead::Bytes(s.as_bytes().to_vec())
}

#[test]
fn temperature_is_read_in_whole_degrees() {
    assert!(matches!(parse_temp(b"45000\n"), Ok(45)));
    assert!(matches!(parse_temp(b"45999\n"), Ok(45)));
    assert!(matches!(parse_temp(b"999"), Ok(0)));
    assert!(matches!(parse_temp(b"256000"), Ok(0)));
    assert!(matches!(parse_temp(b"300000"), Ok(44)));
}

#[test]
fn bad_temperature_is_refused() {
    assert!(matches!(parse_temp(b"\xff\xfe"), Err(Error::TempUtf8)));
    assert!(matches!(parse_temp(b"hot"), Err(Error::TempParse(NumberFault::InvalidDigit))));
    assert!(matches!(parse_temp(b" 45000"), Err(Error::TempParse(NumberFault::InvalidDigit))));
    assert!(matches!(parse_temp(b"-5000"), Err(Error::TempParse(NumberFault::InvalidDigit))));
    assert!(matches!(parse_temp(b""), Err(Error::TempParse(NumberFault::Empty))));
    assert!(matches!(
        parse_temp("４５".as_bytes()),
        Err(Error::TempParse(NumberFault::InvalidDigit))
    ));
    assert!(matches!(
        read_temp_file(&RawRead::Failed(IoCause::Os(5))),
        Err(Error::TempRead(IoCause::Os(5)))
    ));
    assert!(matches!(read_temp_file(&bytes("61000\n")), Ok(61)));
}

#[test]
fn gpus_are_sampled_at_a_low_rate() {
    let mut nvidia = NvidiaSensors::new(vec![0, 2]);
    assert_eq!(nvidia.cache, vec![0, 0]);
    assert!(nvidia.due(0));
    let start = 7;
    assert_eq!(nvidia.read(start, &vec![Ok(60), Ok(300)]).unwrap(), vec![60, 255]);
    let soon = start + NVML_MIN_INTERVAL - 1;
    assert!(!nvidia.due(soon));
    assert_eq!(nvidia.read(soon, &vec![]).unwrap(), vec![60, 255]);
    let later = start + NVML_MIN_INTERVAL;
    assert!(nvidia.due(later));
    assert_eq!(nvidia.read(later, &vec![Ok(61), Ok(62)]).unwrap(), vec![61, 62]);
    assert_eq!(nvidia.last_read, Some(later));
}

#[test]
fn failed_sample_ends_the_reading() {
    let mut nvidia = NvidiaSensors::new(vec![0, 1]);
    let samples = vec![Ok(50), Err("lost".to_owned())];
    assert!(matches!(nvidia.read(5, &samples), Err(Error::NvmlRead(what)) if what == "lost"));
    assert_eq!(nvidia.cache, vec![50, 0]);
    assert_eq!(nvidia.last_read, None);
    assert!(nvidia.due(6));
}

#[test]
fn pool_is_read_once_each() {
    let mut pool = SensorPool {
        cpu: true,
        hwmons: vec!["a".to_owned(), "b".to_owned()],
        nvidia: Some(NvidiaSensors::new(vec![4])),
    };
    assert!(pool.nvidia_due(1));
    let raw = RawSensors {
        cpu: Some(bytes("50000\n")),
        hwmons: vec![bytes("60000\n"), bytes("70000\n")],
        nvidia: vec![Ok(80)],
    };
    let readings = pool.read_all(1, &raw).unwrap();
    assert_eq!(readings.cpu, Some(50));
    assert_eq!(readings.hwmons, vec![60, 70]);
    assert_eq!(readings.nvidia, vec![80]);
    assert!(!pool.nvidia_due(2));
}

#[test]
fn first_fault_of_the_pool_is_reported() {
    let mut pool =
        SensorPool { cpu: true, hwmons: vec!["a".to_owned(), "b".to_owned()], nvidia: None };
    let raw = RawSensors {
        cpu: Some(RawRead::Failed(IoCause::Os(5))),
        hwmons: vec![bytes("x"), bytes("1000")],
        nvidia: vec![],
    };
    assert!(matches!(pool.read_all(0, &raw), Err(Error::TempRead(IoCause::Os(5)))));
    let raw = RawSensors {
        cpu: Some(bytes("1000")),
        hwmons: vec![bytes("x"), RawRead::Failed(IoCause::Os(5))],
        nvidia: vec![],
    };
    assert!(matches!(pool.read_all(0, &raw), Err(Error::TempParse(NumberFault::InvalidDigit))));
    let mut pool =
        SensorPool { cpu: false, hwmons: vec![], nvidia: Some(NvidiaSensors::new(vec![0])) };
    let raw = RawSensors { cpu: None, hwmons: vec![], nvidia: vec![Err("gone".to_owned())] };
    assert!(matches!(pool.read_all(0, &raw), Err(Error::NvmlRead(what)) if what == "gone"));
}

#[test]
fn gpus_wait_for_good_files() {
    let mut pool = SensorPool {
        cpu: true,
        hwmons: vec!["a".to_owned()],
        nvidia: Some(NvidiaSensors::new(vec![0])),
    };
    let good =
        RawSensors { cpu: Some(bytes("1000")), hwmons: vec![bytes("2000")], nvidia: vec![] };
    assert!(pool.gpus_wanted(0, &good));
    let bad = RawSensors { cpu: Some(bytes("1000")), hwmons: vec![bytes("")], nvidia: vec![] };
    assert!(!pool.gpus_wanted(0, &bad));
    assert!(matches!(pool.read_all(0, &bad), Err(Error::TempParse(NumberFault::Empty))));
    assert!(pool.nvidia_due(0));
    let bad = RawSensors { cpu: Some(bytes("?")), hwmons: vec![bytes("1")], nvidia: vec![] };
    assert!(!pool.gpus_wanted(0, &bad));
}
