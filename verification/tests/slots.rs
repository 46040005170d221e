use t2fanrd::error::{Error, IoCause};
use t2fanrd::slots::{
    is_display_controller, read_slot_addresses, resolve_slot_attribution, slot_address_path,
    sub_slot_address_pattern, AddressRead, HwmonDevice, SlotAddresses,
};

fn slot(name: &str, addresses: &[&str]) -> SlotAddresses {
    SlotAddresses {
        slot: name.to_owned(),
        addresses: addresses.iter().map(|a| (*a).to_owned()).collect(),
    }
}

fn gpu(temp_input: &str, path: &str) -> HwmonDevice {
    HwmonDevice {
        temp_input: temp_input.to_owned(),
        has_temp: true,
        real_path: Some(path.to_owned()),
        class: Some("0x030000\n".to_owned()),
    }
}

#[test]
fn slot_files_are_located() {
    assert_eq!(slot_address_path("1"), "/sys/bus/pci/slots/1/address");
    assert_eq!(sub_slot_address_pattern("1"), "/sys/bus/pci/slots/1-*/address");
}

#[test]
fn addresses_of_a_slot_are_read() {
    let subs = vec![Some(" 0000:0c:00\n".to_owned()), None, Some("0000:0d:00".to_owned())];
    let main = AddressRead::Text("0000:0b:00\n".to_owned());
    let addresses = read_slot_addresses("1", &main, &subs).unwrap();
    assert_eq!(addresses, vec!["0000:0b:00", "0000:0c:00", "0000:0d:00"]);
    assert!(matches!(
        read_slot_addresses("9", &AddressRead::Missing, &subs),
        Err(Error::SensorNotFound(s)) if s == "slot:9"
    ));
    assert!(matches!(
        read_slot_addresses("9", &AddressRead::Failed(IoCause::Other), &subs),
        Err(Error::TempRead(IoCause::Other))
    ));
}

#[test]
fn display_controllers_are_told_by_their_class() {
    for class in ["0x030000\n", " 0x038000", "0x03", "0x+3"] {
        assert!(is_display_controller(&Some(class.to_owned())));
    }
    for class in ["0x020000", "030000", "0x3", "0x", "", "0xé3", "0x0é"] {
        assert!(!is_display_controller(&Some(class.to_owned())));
    }
    assert!(!is_display_controller(&None));
}

#[test]
fn gpu_goes_to_the_slot_closest_to_the_root() {
    let slots = vec![
        slot("1", &["0000:0b:00", "0000:20:00"]),
        slot("3", &["0000:1b:00", "0000:0d:00"]),
    ];
    let hwmons = vec![
        gpu("h0/temp1_input", "/sys/devices/pci0000:00/0000:0b:00.0/0000:0d:00.0"),
        gpu("h1/temp1_input", "/sys/devices/pci0000:00/0000:1b:00.0/0000:20:00.0"),
        gpu("h2/temp1_input", "/sys/devices/pci0000:00/0000:0b:00.0/0000:0e:00.0"),
        gpu("h3/temp1_input", "/sys/devices/pci0000:00/0000:99:00.0"),
    ];
    let table = resolve_slot_attribution(&slots, &hwmons);
    assert_eq!(table.len(), 2);
    assert_eq!(table[0].slot, "1");
    assert_eq!(table[0].temp_inputs, vec!["h0/temp1_input", "h2/temp1_input"]);
    assert_eq!(table[1].slot, "3");
    assert_eq!(table[1].temp_inputs, vec!["h1/temp1_input"]);
}

#[test]
fn address_ends_at_a_component_or_a_function() {
    let slots = vec![slot("1", &["0000:0b:00"])];
    let whole = gpu("a", "/sys/0000:0b:00");
    let function = gpu("b", "/sys/0000:0b:00.1/x");
    let longer = gpu("c", "/sys/0000:0b:001");
    let table = resolve_slot_attribution(&slots, &vec![whole, function, longer]);
    assert_eq!(table[0].temp_inputs, vec!["a", "b"]);
}

#[test]
fn other_devices_of_a_slot_are_passed_over() {
    let slots = vec![slot("1", &["0000:0b:00"])];
    let mut network = gpu("a", "/sys/0000:0b:00.0");
    network.class = Some("0x020000".to_owned());
    let mut cold = gpu("b", "/sys/0000:0b:00.0");
    cold.has_temp = false;
    let mut lost = gpu("c", "/sys/0000:0b:00.0");
    lost.real_path = None;
    let mut unknown = gpu("d", "/sys/0000:0b:00.0");
    unknown.class = None;
    let table = resolve_slot_attribution(&slots, &vec![network, cold, lost, unknown]);
    assert!(table[0].temp_inputs.is_empty());
}
