use t2fanrd::config::SensorSpec;
use t2fanrd::error::Error;
use t2fanrd::sensors::SensorIdx;
use t2fanrd::setup::{build_sensor_setup, unique_slots};
use t2fanrd::slots::SlotSensors;

fn on_slot(n: &str) -> SensorSpec {
    SensorSpec::Slot(n.to_owned())
}

fn table() -> Vec<SlotSensors> {
    vec![
        SlotSensors {
            slot: "1".to_owned(),
            temp_inputs: vec!["h0".to_owned(), "h1".to_owned()],
        },
        SlotSensors { slot: "3".to_owned(), temp_inputs: vec!["h2".to_owned()] },
        SlotSensors { slot: "5".to_owned(), temp_inputs: vec![] },
    ]
}

#[test]
fn slots_are_looked_up_once() {
    let fans = vec![
        vec![on_slot("3"), SensorSpec::Cpu],
        vec![on_slot("1"), on_slot("3")],
        vec![SensorSpec::Cpu],
    ];
    assert_eq!(unique_slots(&fans), vec!["3", "1"]);
    assert!(unique_slots(&vec![]).is_empty());
}

#[test]
fn fans_share_what_they_have_in_common() {
    let fans = vec![
        vec![on_slot("3"), SensorSpec::Cpu],
        vec![on_slot("1"), on_slot("3")],
        vec![SensorSpec::Cpu],
    ];
    let setup = build_sensor_setup(&fans, &table());
    assert!(setup.cpu);
    assert_eq!(setup.hwmons, vec!["h2", "h0", "h1"]);
    let (pool, lists) = setup.into_pool().unwrap();
    assert!(pool.cpu);
    assert_eq!(pool.hwmons.len(), 3);
    assert!(pool.nvidia.is_none());
    assert_eq!(lists[0], vec![SensorIdx::Hwmon(0), SensorIdx::Cpu]);
    assert_eq!(
        lists[1],
        vec![SensorIdx::Hwmon(1), SensorIdx::Hwmon(2), SensorIdx::Hwmon(0)]
    );
    assert_eq!(lists[2], vec![SensorIdx::Cpu]);
}

#[test]
fn cpu_is_opened_only_where_it_drives_a_fan() {
    let setup = build_sensor_setup(&vec![vec![on_slot("1")]], &table());
    assert!(!setup.cpu);
}

#[test]
fn slot_without_a_gpu_is_not_found() {
    let fans = vec![vec![on_slot("1")], vec![SensorSpec::Cpu, on_slot("5"), on_slot("3")]];
    let setup = build_sensor_setup(&fans, &table());
    assert!(setup.cpu);
    assert_eq!(setup.hwmons, vec!["h0", "h1"]);
    assert!(matches!(setup.into_pool(), Err(Error::SensorNotFound(s)) if s == "slot:5"));
    let setup = build_sensor_setup(&vec![vec![on_slot("7")]], &table());
    assert!(matches!(setup.fans, Err(Error::SensorNotFound(s)) if s == "slot:7"));
}
