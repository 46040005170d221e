//! Which GPU sits in which physical PCIe slot.

use crate::error::{Error, IoCause};
use crate::text::{
    concat, digit_value, digits_are_worth_what_they_say, digits_value, number, parse_number,
    split_on, split_text, starts_with, strip_prefix, texts, trim, trim_text, unsigned_body,
};
use vstd::prelude::*;
use vstd::string::*;

verus! {

/// What reading the address of a slot came to.
#[derive(Debug)]
pub enum AddressRead {
    Text(String),
    /// There is no such slot.
    Missing,
    /// The slot is there and its address could not be read.
    Failed(IoCause),
}

/// The file with a slot's address.
pub fn slot_address_path(slot: &str) -> (r: String)
    ensures
        r@ == "/sys/bus/pci/slots/"@ + slot@ + "/address"@,
{
    concat("/sys/bus/pci/slots/", slot).concat("/address")
}

/// The pattern for the files with the addresses of a slot's sub-slots.
pub fn sub_slot_address_pattern(slot: &str) -> (r: String)
    ensures
        r@ == "/sys/bus/pci/slots/"@ + slot@ + "-*/address"@,
{
    concat("/sys/bus/pci/slots/", slot).concat("-*/address")
}

/// The addresses of the sub-slots that could be read.
pub open spec fn sub_addresses(subs: Seq<Option<String>>) -> Seq<Seq<char>>
    decreases subs.len(),
{
    if subs.len() == 0 {
        Seq::empty()
    } else {
        match subs.last() {
            Some(s) => sub_addresses(subs.drop_last()).push(trim(s@)),
            None => sub_addresses(subs.drop_last()),
        }
    }
}

/// The addresses of a slot and of its sub-slots. The slot itself has to be there; a sub-slot that
/// cannot be read is passed over.
pub fn read_slot_addresses(
    slot: &str,
    main_addr: &AddressRead,
    subs: &Vec<Option<String>>,
) -> (r: Result<Vec<String>, Error>)
    ensures
        match main_addr {
            AddressRead::Missing => {
                r matches Err(Error::SensorNotFound(s)) && s@ == "slot:"@ + slot@
            },
            AddressRead::Failed(cause) => r == Err::<Vec<String>, Error>(Error::TempRead(*cause)),
            AddressRead::Text(addr) => {
                &&& r is Ok
                &&& texts(r->Ok_0@) == seq![trim(addr@)] + sub_addresses(subs@)
            },
        },
{
    let mut addresses: Vec<String> = Vec::new();
    match main_addr {
        AddressRead::Missing => return Err(Error::SensorNotFound(concat("slot:", slot))),
        AddressRead::Failed(cause) => return Err(Error::TempRead(*cause)),
        AddressRead::Text(addr) => addresses.push(trim_text(addr.as_str()).to_owned()),
    }
    let ghost first = texts(addresses@);
    let mut i: usize = 0;
    assert(subs@.take(0) =~= Seq::<Option<String>>::empty());
    assert(first + sub_addresses(subs@.take(0)) =~= first);
    while i < subs.len()
        invariant
            i <= subs.len(),
            texts(addresses@) == first + sub_addresses(subs@.take(i as int)),
        decreases subs.len() - i,
    {
        assert(subs@.take(i + 1).drop_last() =~= subs@.take(i as int));
        if let Some(addr) = &subs[i] {
            let ghost before = texts(addresses@);
            addresses.push(trim_text(addr.as_str()).to_owned());
            assert(texts(addresses@) =~= before.push(trim(addr@)));
            assert(texts(addresses@) =~= first + sub_addresses(subs@.take(i + 1)));
        }
        i = i + 1;
    }
    assert(subs@.take(i as int) =~= subs@);
    assert(first =~= seq![first[0]]);
    Ok(addresses)
}

/// The PCI class of a display controller: `0x` and a class byte of three.
pub open spec fn display_class(class: Seq<char>) -> bool {
    let t = trim(class);
    &&& starts_with(t, "0x"@)
    &&& t.len() >= 4
    &&& number(t.subrange(2, 4), 16, 255) == Some(3nat)
}

/// Whether a PCI device is a display controller; one whose class cannot be read is none.
pub fn is_display_controller(class: &Option<String>) -> (r: bool)
    ensures
        r == (class matches Some(class) && display_class(class@)),
{
    let class: &str = match class {
        Some(class) => class.as_str(),
        None => return false,
    };
    proof {
        reveal_strlit("0x");
    }
    let t: &str = trim_text(class);
    let hex: &str = match strip_prefix(t, "0x") {
        Some(hex) => hex,
        None => return false,
    };
    if hex.unicode_len() < 2 {
        return false;
    }
    let byte: &str = hex.substring_char(0, 2);
    assert(byte@ =~= t@.subrange(2, 4));
    matches!(parse_number(byte, 16, 255), Some(3))
}

/// Whether a component of a device's path is the device at this address, or one of its functions.
pub open spec fn at_address(component: Seq<char>, address: Seq<char>) -> bool {
    &&& starts_with(component, address)
    &&& component.len() == address.len() || component[address.len() as int] == '.'
}

/// Whether a component of a device's path is at one of these addresses.
pub open spec fn at_any(component: Seq<char>, addresses: Seq<Seq<char>>) -> bool {
    exists|i: int| 0 <= i < addresses.len() && at_address(component, #[trigger] addresses[i])
}

/// How far from the root of a path the first component at one of these addresses is.
pub open spec fn depth(components: Seq<Seq<char>>, addresses: Seq<Seq<char>>) -> Option<nat>
    decreases components.len(),
{
    if components.len() == 0 {
        None
    } else {
        match depth(components.drop_last(), addresses) {
            Some(d) => Some(d),
            None => if at_any(components.last(), addresses) {
                Some((components.len() - 1) as nat)
            } else {
                None
            },
        }
    }
}

/// Whether a component of a device's path is at this address.
fn is_at_address(component: &str, address: &str) -> (r: bool)
    ensures
        r == at_address(component@, address@),
{
    match strip_prefix(component, address) {
        None => false,
        Some(rest) => rest.is_empty() || rest.get_char(0) == '.',
    }
}

/// Whether a component of a device's path is at one of these addresses.
fn is_at_any(component: &str, addresses: &Vec<String>) -> (r: bool)
    ensures
        r == at_any(component@, texts(addresses@)),
{
    let ghost all = texts(addresses@);
    let mut i: usize = 0;
    while i < addresses.len()
        invariant
            i <= addresses.len(),
            all == texts(addresses@),
            forall|j: int| 0 <= j < i ==> !at_address(component@, #[trigger] all[j]),
        decreases addresses.len() - i,
    {
        assert(all[i as int] == addresses@[i as int]@);
        if is_at_address(component, addresses[i].as_str()) {
            return true;
        }
        i = i + 1;
    }
    false
}

/// A component that was found stays the first.
proof fn lemma_depth_stays(components: Seq<Seq<char>>, addresses: Seq<Seq<char>>, k: int)
    requires
        0 <= k <= components.len(),
        depth(components.take(k), addresses) is Some,
    ensures
        depth(components, addresses) == depth(components.take(k), addresses),
    decreases components.len() - k,
{
    if k == components.len() {
        assert(components.take(k) =~= components);
    } else {
        assert(components.take(k + 1).drop_last() =~= components.take(k));
        lemma_depth_stays(components, addresses, k + 1);
    }
}

/// How far from the root the first component at one of these addresses is.
fn find_depth(components: &Vec<String>, addresses: &Vec<String>) -> (r: Option<usize>)
    ensures
        match r {
            Some(d) => depth(texts(components@), texts(addresses@)) == Some(d as nat),
            None => depth(texts(components@), texts(addresses@)) is None,
        },
{
    let ghost all = texts(components@);
    let mut i: usize = 0;
    assert(all.take(0) =~= Seq::<Seq<char>>::empty());
    while i < components.len()
        invariant
            i <= components.len(),
            all == texts(components@),
            depth(all.take(i as int), texts(addresses@)) is None,
        decreases components.len() - i,
    {
        assert(all.take(i + 1).drop_last() =~= all.take(i as int));
        assert(all.take(i + 1).last() == components@[i as int]@);
        if is_at_any(components[i].as_str(), addresses) {
            proof {
                lemma_depth_stays(all, texts(addresses@), i + 1);
            }
            return Some(i);
        }
        i = i + 1;
    }
    assert(all.take(i as int) =~= all);
    None
}

/// A slot and the addresses of what is connected through it.
#[derive(Debug)]
pub struct SlotAddresses {
    pub slot: String,
    pub addresses: Vec<String>,
}

/// How far from the root of a path the addresses of this slot are met.
pub open spec fn slot_depth(slot: SlotAddresses, components: Seq<Seq<char>>) -> Option<nat> {
    depth(components, texts(slot.addresses@))
}

/// The slot that a device belongs to: none is met closer to the root of the device's path, and
/// none before it in the list is met as close.
pub open spec fn owns(
    slots: Seq<SlotAddresses>,
    components: Seq<Seq<char>>,
    k: int,
) -> bool {
    &&& 0 <= k < slots.len()
    &&& slot_depth(slots[k], components) is Some
    &&& forall|j: int| #![trigger slots[j]]
        0 <= j < slots.len() && slot_depth(slots[j], components) is Some ==> {
            &&& slot_depth(slots[k], components)->0 <= slot_depth(slots[j], components)->0
            &&& j < k ==> slot_depth(slots[k], components)->0 < slot_depth(
                slots[j],
                components,
            )->0
        }
}

/// The slot that a device belongs to, if any.
fn find_owner(slots: &Vec<SlotAddresses>, components: &Vec<String>) -> (r: Option<usize>)
    ensures
        match r {
            Some(k) => owns(slots@, texts(components@), k as int),
            None => forall|j: int| #![trigger slots@[j]]
                0 <= j < slots@.len() ==> slot_depth(slots@[j], texts(components@)) is None,
        },
{
    let ghost path = texts(components@);
    let mut best: Option<(usize, usize)> = None;
    let mut i: usize = 0;
    assert(slots@.take(0) =~= Seq::<SlotAddresses>::empty());
    while i < slots.len()
        invariant
            i <= slots.len(),
            path == texts(components@),
            match best {
                Some((k, d)) => {
                    &&& k < i
                    &&& slot_depth(slots@[k as int], path) == Some(d as nat)
                    &&& forall|j: int| #![trigger slots@[j]]
                        0 <= j < i && slot_depth(slots@[j], path) is Some ==> {
                            &&& d <= slot_depth(slots@[j], path)->0
                            &&& j < k ==> d < slot_depth(slots@[j], path)->0
                        }
                },
                None => forall|j: int| #![trigger slots@[j]]
                    0 <= j < i ==> slot_depth(slots@[j], path) is None,
            },
        decreases slots.len() - i,
    {
        if let Some(d) = find_depth(components, &slots[i].addresses) {
            let closer: bool = match best {
                Some((_, best_d)) => d < best_d,
                None => true,
            };
            if closer {
                best = Some((i, d));
            }
        }
        i = i + 1;
    }
    match best {
        Some((k, _)) => Some(k),
        None => None,
    }
}

/// A GPU belongs to one slot at most.
pub proof fn owner_is_unique(
    slots: Seq<SlotAddresses>,
    components: Seq<Seq<char>>,
    a: int,
    b: int,
)
    requires
        owns(slots, components, a),
        owns(slots, components, b),
    ensures
        a == b,
{
    assert(slots[a] == slots[a] && slots[b] == slots[b]);
}

/// A GPU that is met through some slot belongs to a slot.
pub proof fn owner_exists(slots: Seq<SlotAddresses>, components: Seq<Seq<char>>, k: int)
    requires
        0 <= k < slots.len(),
        slot_depth(slots[k], components) is Some,
    ensures
        exists|j: int| owns(slots, components, j),
    decreases slot_depth(slots[k], components)->0, k,
{
    if !owns(slots, components, k) {
        let d = slot_depth(slots[k], components)->0;
        let j = choose|j: int| #![trigger slots[j]]
            0 <= j < slots.len() && slot_depth(slots[j], components) is Some && (slot_depth(
                slots[j],
                components,
            )->0 < d || (j < k && slot_depth(slots[j], components)->0 <= d));
        owner_exists(slots, components, j);
    }
}

/// A hardware monitor, and what is known of the device behind it.
#[derive(Debug)]
pub struct HwmonDevice {
    /// The file with its temperature.
    pub temp_input: String,
    /// The monitor has a temperature.
    pub has_temp: bool,
    /// The device's path, where it can be resolved.
    pub real_path: Option<String>,
    /// The device's PCI class, where it can be read.
    pub class: Option<String>,
}

/// Whether the monitor gives the temperature of a GPU that belongs to the slot.
pub open spec fn belongs(slots: Seq<SlotAddresses>, hwmon: HwmonDevice, k: int) -> bool {
    &&& hwmon.has_temp
    &&& hwmon.real_path is Some
    &&& hwmon.class is Some
    &&& display_class(hwmon.class->0@)
    &&& owns(slots, split_on(hwmon.real_path->0@, '/'), k)
}

/// The temperature files of the GPUs in a slot, in the order of the monitors.
pub open spec fn slot_files(
    slots: Seq<SlotAddresses>,
    hwmons: Seq<HwmonDevice>,
    k: int,
) -> Seq<Seq<char>>
    decreases hwmons.len(),
{
    if hwmons.len() == 0 {
        Seq::empty()
    } else if belongs(slots, hwmons.last(), k) {
        slot_files(slots, hwmons.drop_last(), k).push(hwmons.last().temp_input@)
    } else {
        slot_files(slots, hwmons.drop_last(), k)
    }
}

/// A slot and the temperature files of the GPUs in it.
#[derive(Debug)]
pub struct SlotSensors {
    pub slot: String,
    pub temp_inputs: Vec<String>,
}

/// The slot that a monitor's GPU belongs to, if any.
fn owner_of(slots: &Vec<SlotAddresses>, hwmon: &HwmonDevice) -> (r: Option<usize>)
    ensures
        r matches Some(k) ==> k < slots.len(),
        forall|k: int| #![trigger belongs(slots@, *hwmon, k)]
            belongs(slots@, *hwmon, k) <==> r == Some(k as usize) && 0 <= k < slots.len(),
{
    if !hwmon.has_temp {
        return None;
    }
    let path: &str = match &hwmon.real_path {
        Some(path) => path.as_str(),
        None => return None,
    };
    if !is_display_controller(&hwmon.class) {
        return None;
    }
    let components: Vec<String> = split_text(path, '/');
    let r: Option<usize> = find_owner(slots, &components);
    proof {
        assert forall|k: int| #![trigger belongs(slots@, *hwmon, k)]
            belongs(slots@, *hwmon, k) <==> r == Some(k as usize) && 0 <= k < slots.len() by {
            if belongs(slots@, *hwmon, k) {
                match r {
                    Some(j) => owner_is_unique(slots@, texts(components@), j as int, k),
                    None => {
                        assert(slots@[k] == slots@[k]);
                    },
                }
            }
        }
    }
    r
}

/// Attributes each GPU with a temperature to the one slot that it belongs to.
pub fn resolve_slot_attribution(
    slots: &Vec<SlotAddresses>,
    hwmons: &Vec<HwmonDevice>,
) -> (r: Vec<SlotSensors>)
    ensures
        r.len() == slots.len(),
        forall|k: int| #![trigger r@[k]]
            0 <= k < slots.len() ==> {
                &&& r@[k].slot@ == slots@[k].slot@
                &&& texts(r@[k].temp_inputs@) == slot_files(slots@, hwmons@, k)
            },
{
    let mut r: Vec<SlotSensors> = Vec::new();
    let mut i: usize = 0;
    while i < slots.len()
        invariant
            i <= slots.len(),
            r.len() == i,
            forall|k: int| #![trigger r@[k]]
                0 <= k < i ==> r@[k].slot@ == slots@[k].slot@ && texts(r@[k].temp_inputs@)
                    == Seq::<Seq<char>>::empty(),
        decreases slots.len() - i,
    {
        r.push(SlotSensors { slot: slots[i].slot.clone(), temp_inputs: Vec::new() });
        assert(texts(r@[i as int].temp_inputs@) =~= Seq::<Seq<char>>::empty());
        i = i + 1;
    }
    let mut h: usize = 0;
    assert(hwmons@.take(0) =~= Seq::<HwmonDevice>::empty());
    while h < hwmons.len()
        invariant
            h <= hwmons.len(),
            r.len() == slots.len(),
            forall|k: int| #![trigger r@[k]]
                0 <= k < slots.len() ==> {
                    &&& r@[k].slot@ == slots@[k].slot@
                    &&& texts(r@[k].temp_inputs@) == slot_files(slots@, hwmons@.take(h as int), k)
                },
        decreases hwmons.len() - h,
    {
        let ghost before = r@;
        let owner: Option<usize> = owner_of(slots, &hwmons[h]);
        if let Some(k) = owner {
            assert(belongs(slots@, hwmons@[h as int], k as int));
            r[k].temp_inputs.push(hwmons[h].temp_input.clone());
        }
        assert forall|k: int| #![trigger r@[k]] 0 <= k < slots.len() implies {
            &&& r@[k].slot@ == slots@[k].slot@
            &&& texts(r@[k].temp_inputs@) == slot_files(slots@, hwmons@.take(h + 1), k)
        } by {
            assert(before[k].slot@ == slots@[k].slot@);
            assert(hwmons@.take(h + 1).drop_last() =~= hwmons@.take(h as int));
            assert(belongs(slots@, hwmons@[h as int], k) <==> owner == Some(k as usize));
            if owner == Some(k as usize) {
                assert(texts(r@[k].temp_inputs@) =~= texts(before[k].temp_inputs@).push(
                    hwmons@[h as int].temp_input@,
                ));
            }
        }
        h = h + 1;
    }
    assert(hwmons@.take(h as int) =~= hwmons@);
    r
}

/// The temperature files of a slot are those of the GPUs that belong to it: every one of them, and
/// no other device's.
pub proof fn slot_has_exactly_its_gpus(
    slots: Seq<SlotAddresses>,
    hwmons: Seq<HwmonDevice>,
    k: int,
    path: Seq<char>,
)
    ensures
        slot_files(slots, hwmons, k).contains(path) <==> exists|i: int|
            0 <= i < hwmons.len() && belongs(slots, #[trigger] hwmons[i], k)
                && hwmons[i].temp_input@ == path,
    decreases hwmons.len(),
{
    if hwmons.len() > 0 {
        let rest = hwmons.drop_last();
        let last = hwmons.len() - 1;
        let before = slot_files(slots, rest, k);
        let now = slot_files(slots, hwmons, k);
        slot_has_exactly_its_gpus(slots, rest, k, path);
        if now.contains(path) {
            let j = choose|j: int| 0 <= j < now.len() && now[j] == path;
            if j < before.len() {
                assert(before[j] == path);
                let i = choose|i: int|
                    0 <= i < rest.len() && belongs(slots, #[trigger] rest[i], k)
                        && rest[i].temp_input@ == path;
                assert(hwmons[i] == rest[i]);
            } else {
                assert(belongs(slots, hwmons[last], k));
            }
        }
        if exists|i: int|
            0 <= i < hwmons.len() && belongs(slots, #[trigger] hwmons[i], k)
                && hwmons[i].temp_input@ == path {
            let i = choose|i: int|
                0 <= i < hwmons.len() && belongs(slots, #[trigger] hwmons[i], k)
                    && hwmons[i].temp_input@ == path;
            if i < rest.len() {
                assert(rest[i] == hwmons[i]);
                let j = choose|j: int| 0 <= j < before.len() && before[j] == path;
                assert(now[j] == path);
            } else {
                assert(now[now.len() - 1] == path);
            }
        }
    }
}

/// A GPU that is reachable through several slots is counted for one of them only: its own.
pub proof fn gpu_is_in_one_slot(
    slots: Seq<SlotAddresses>,
    hwmon: HwmonDevice,
    a: int,
    b: int,
)
    requires
        belongs(slots, hwmon, a),
        belongs(slots, hwmon, b),
    ensures
        a == b,
{
    owner_is_unique(slots, split_on(hwmon.real_path->0@, '/'), a, b);
}

/// A component is at an address where it is the address itself, or goes on with a point after it.
pub proof fn address_ends_at_a_point(component: Seq<char>, address: Seq<char>)
    ensures
        at_address(component, address) <==> component == address || (component.len()
            > address.len() && component.take(address.len() as int + 1) == address.push('.')),
{
    let n = address.len() as int;
    if component.len() > n {
        let head = component.take(n + 1);
        assert(head.drop_last() =~= component.take(n));
        assert(address.push('.').drop_last() =~= address);
        if at_address(component, address) {
            assert(head =~= address.push('.'));
        }
        if head == address.push('.') {
            assert(head.last() == '.');
            assert(head.last() == component[n]);
        }
    } else if component.len() == n {
        assert(component.take(n) =~= component);
    }
}

/// A function of a device is at the device's address, and so is the device; what goes on with
/// anything but a point is another device.
pub proof fn functions_are_at_the_address(address: Seq<char>, rest: Seq<char>, c: char)
    ensures
        at_address(address, address),
        at_address(address + seq!['.'] + rest, address),
        c != '.' ==> !at_address(address + seq![c] + rest, address),
{
    let n = address.len() as int;
    assert(address.take(n) =~= address);
    assert((address + seq!['.'] + rest).take(n) =~= address);
    assert((address + seq![c] + rest)[n] == c);
}

/// The depth of a slot in a path is the place of the first component that is at one of the slot's
/// addresses; it has none where no component is.
pub proof fn depth_is_the_first_component_at_an_address(
    components: Seq<Seq<char>>,
    addresses: Seq<Seq<char>>,
)
    ensures
        depth(components, addresses) matches Some(d) ==> {
            &&& d < components.len()
            &&& exists|j: int|
                0 <= j < addresses.len() && at_address(
                    components[d as int],
                    #[trigger] addresses[j],
                )
            &&& forall|i: int, j: int| #![trigger components[i], addresses[j]]
                0 <= i < d && 0 <= j < addresses.len() ==> !at_address(components[i], addresses[j])
        },
        depth(components, addresses) is None ==> forall|i: int, j: int|
            #![trigger components[i], addresses[j]]
            0 <= i < components.len() && 0 <= j < addresses.len() ==> !at_address(
                components[i],
                addresses[j],
            ),
    decreases components.len(),
{
    if components.len() > 0 {
        let rest = components.drop_last();
        let last = components.len() - 1;
        depth_is_the_first_component_at_an_address(rest, addresses);
        assert forall|i: int, j: int| #![trigger components[i], addresses[j]]
            0 <= i < last && 0 <= j < addresses.len() && (depth(rest, addresses) matches Some(d)
                ==> i < d) implies !at_address(components[i], addresses[j]) by {
            assert(rest[i] == components[i]);
        }
        if depth(rest, addresses) is Some {
            let d = depth(rest, addresses)->0;
            assert(rest[d as int] == components[d as int]);
        }
    }
}

/// A component at an address gives the depth, where none before it is at one.
pub proof fn first_component_at_an_address_is_the_depth(
    components: Seq<Seq<char>>,
    addresses: Seq<Seq<char>>,
    d: int,
    j: int,
)
    requires
        0 <= d < components.len(),
        0 <= j < addresses.len(),
        at_address(components[d], addresses[j]),
        forall|i: int, k: int| #![trigger components[i], addresses[k]]
            0 <= i < d && 0 <= k < addresses.len() ==> !at_address(components[i], addresses[k]),
    ensures
        depth(components, addresses) == Some(d as nat),
{
    depth_is_the_first_component_at_an_address(components, addresses);
    match depth(components, addresses) {
        None => {
            assert(!at_address(components[d], addresses[j]));
        },
        Some(e) => {
            if e < d {
                let k = choose|k: int|
                    0 <= k < addresses.len() && at_address(
                        components[e as int],
                        #[trigger] addresses[k],
                    );
                assert(!at_address(components[e as int], addresses[k]));
            }
            if d < e {
                assert(!at_address(components[d], addresses[j]));
            }
        },
    }
}

/// A device belongs to the slot that is met first on the way from the root to the device: where one
/// component of its path is at an address of a slot, and no component up to there is at an address
/// of another slot, nor any before it at one of this slot, it is this slot's.
pub proof fn device_belongs_to_the_slot_closest_to_the_root(
    slots: Seq<SlotAddresses>,
    components: Seq<Seq<char>>,
    k: int,
    d: int,
    j: int,
)
    requires
        0 <= k < slots.len(),
        0 <= d < components.len(),
        0 <= j < slots[k].addresses@.len(),
        at_address(components[d], slots[k].addresses@[j]@),
        forall|s: int, i: int, a: int| #![trigger components[i], slots[s].addresses@[a]]
            0 <= s < slots.len() && 0 <= i < components.len() && 0 <= a < slots[s].addresses@.len()
                && (i < d || (i == d && s != k)) ==> !at_address(
                components[i],
                slots[s].addresses@[a]@,
            ),
    ensures
        owns(slots, components, k),
        forall|s: int| owns(slots, components, s) ==> s == k,
{
    let own = texts(slots[k].addresses@);
    assert(own[j] == slots[k].addresses@[j]@);
    assert forall|i: int, a: int| #![trigger components[i], own[a]]
        0 <= i < d && 0 <= a < own.len() implies !at_address(components[i], own[a]) by {
        assert(!at_address(components[i], slots[k].addresses@[a]@));
    }
    first_component_at_an_address_is_the_depth(components, own, d, j);
    assert forall|s: int| #![trigger slots[s]]
        0 <= s < slots.len() && slot_depth(slots[s], components) is Some implies {
        &&& d <= slot_depth(slots[s], components)->0
        &&& s < k ==> d < slot_depth(slots[s], components)->0
    } by {
        let other = texts(slots[s].addresses@);
        depth_is_the_first_component_at_an_address(components, other);
        let e = slot_depth(slots[s], components)->0 as int;
        let a = choose|a: int|
            0 <= a < other.len() && at_address(components[e], #[trigger] other[a]);
        assert(other[a] == slots[s].addresses@[a]@);
        if e < d || (e == d && s != k) {
            assert(!at_address(components[e], slots[s].addresses@[a]@));
        }
    }
    assert forall|s: int| owns(slots, components, s) implies s == k by {
        owner_is_unique(slots, components, s, k);
    }
}

/// The class of a display controller is the one that begins with `0x03`, white space around it left
/// out; a sign in place of the zero is read as one too.
pub proof fn display_class_is_three(class: Seq<char>, rest: Seq<char>)
    ensures
        trim(class) == "0x03"@ + rest ==> display_class(class),
        display_class(class) ==> trim(class).len() >= 4 && trim(class)[0] == '0' && trim(class)[1]
            == 'x' && (trim(class)[2] == '0' || trim(class)[2] == '+') && trim(class)[3] == '3',
{
    reveal_strlit("0x");
    reveal_strlit("0x03");
    let t = trim(class);
    if t == "0x03"@ + rest {
        assert(t.take(2) =~= "0x"@);
        let two = t.subrange(2, 4);
        assert(two =~= seq!['0', '3']);
        lemma_two_digits(two);
    }
    if display_class(class) {
        assert(t.take(2) =~= "0x"@);
        assert(t[0] == t.take(2)[0] && t[1] == t.take(2)[1]);
        let two = t.subrange(2, 4);
        assert(two[0] == t[2] && two[1] == t[3]);
        lemma_two_digits(two);
    }
}

/// What two characters are worth in base sixteen.
proof fn lemma_two_digits(s: Seq<char>)
    requires
        s.len() == 2,
    ensures
        number(s, 16, 255) == Some(3nat) <==> (s[0] == '0' || s[0] == '+') && s[1] == '3',
{
    digits_are_worth_what_they_say(s[0]);
    digits_are_worth_what_they_say(s[1]);
    let tail = seq![s[1]];
    assert(tail.drop_last() =~= Seq::<char>::empty());
    assert(digits_value(Seq::<char>::empty(), 16) == Some(0nat));
    assert(tail.last() == s[1]);
    assert(digits_value(tail, 16) == Some(3nat) <==> s[1] == '3');
    if s[0] == '+' {
        assert(s.drop_first() =~= tail);
    } else {
        let head = seq![s[0]];
        assert(s.drop_last() =~= head);
        assert(head.drop_last() =~= Seq::<char>::empty());
        assert(head.last() == s[0]);
        assert(digits_value(head, 16) == Some(0nat) <==> s[0] == '0');
        assert(unsigned_body(s) == s);
        match (digits_value(head, 16), digit_value(s[1])) {
            (Some(high), Some(low)) => {
                if low < 16 {
                    assert(digits_value(s, 16) == Some(high * 16 + low));
                }
            },
            _ => {},
        }
    }
}

/// Whether a sub-slot could be read.
pub open spec fn was_read() -> spec_fn(Option<String>) -> bool {
    |s: Option<String>| s is Some
}

/// The addresses of sub-slots are those of the ones that could be read, in their order, without the
/// white space around them.
pub proof fn every_readable_sub_slot_counts(subs: Seq<Option<String>>)
    ensures
        sub_addresses(subs) == subs.filter(was_read()).map_values(
            |s: Option<String>| trim(s->0@),
        ),
    decreases subs.len(),
{
    reveal(Seq::filter);
    let f = |s: Option<String>| trim(s->0@);
    if subs.len() > 0 {
        every_readable_sub_slot_counts(subs.drop_last());
        let before = subs.drop_last().filter(was_read());
        if subs.last() is Some {
            assert(before.push(subs.last()).map_values(f) =~= before.map_values(f).push(
                f(subs.last()),
            ));
        }
    } else {
        assert(subs.filter(was_read()).map_values(f) =~= Seq::<Seq<char>>::empty());
    }
}

/// A monitor counts for a slot exactly where it has a temperature, the path and the class of its
/// device are known, the device is a display controller, and it belongs to the slot.
pub proof fn only_gpus_with_a_temperature_count(
    slots: Seq<SlotAddresses>,
    hwmon: HwmonDevice,
    k: int,
)
    ensures
        belongs(slots, hwmon, k) ==> hwmon.has_temp && (hwmon.class matches Some(class) && trim(
            class@,
        ).len() >= 4 && trim(class@)[3] == '3') && (hwmon.real_path matches Some(path) && owns(
            slots,
            split_on(path@, '/'),
            k,
        )),
        hwmon.has_temp && (hwmon.class matches Some(class) && exists|rest: Seq<char>|
            trim(class@) == #[trigger] ("0x03"@ + rest)) && (hwmon.real_path matches Some(path)
            && owns(slots, split_on(path@, '/'), k)) ==> belongs(slots, hwmon, k),
{
    if let Some(class) = hwmon.class {
        display_class_is_three(class@, Seq::empty());
        if exists|rest: Seq<char>| trim(class@) == #[trigger] ("0x03"@ + rest) {
            let rest = choose|rest: Seq<char>| trim(class@) == #[trigger] ("0x03"@ + rest);
            display_class_is_three(class@, rest);
        }
    }
}

/// The temperature files of a slot come in the order of the monitors, each monitor once.
pub proof fn gpus_come_in_the_order_of_the_monitors(
    slots: Seq<SlotAddresses>,
    hwmons: Seq<HwmonDevice>,
    k: int,
)
    ensures
        slot_files(slots, hwmons, k) == hwmons.filter(
            |h: HwmonDevice| belongs(slots, h, k),
        ).map_values(|h: HwmonDevice| h.temp_input@),
    decreases hwmons.len(),
{
    reveal(Seq::filter);
    let p = |h: HwmonDevice| belongs(slots, h, k);
    let f = |h: HwmonDevice| h.temp_input@;
    if hwmons.len() > 0 {
        gpus_come_in_the_order_of_the_monitors(slots, hwmons.drop_last(), k);
        let before = hwmons.drop_last().filter(p);
        assert(before.push(hwmons.last()).map_values(f) =~= before.map_values(f).push(
            hwmons.last().temp_input@,
        ));
    } else {
        assert(hwmons.filter(p).map_values(f) =~= Seq::<Seq<char>>::empty());
    }
}

/// A slot that is met no later than another on the way to a device keeps the device from the other,
/// where it is met earlier or was asked for earlier.
pub proof fn slot_met_first_wins(
    slots: Seq<SlotAddresses>,
    components: Seq<Seq<char>>,
    j: int,
    k: int,
    d: int,
    e: int,
)
    requires
        0 <= j < slots.len(),
        0 <= k < slots.len(),
        0 <= d <= e < components.len(),
        d < e || j < k,
        at_any(components[d], texts(slots[j].addresses@)),
        at_any(components[e], texts(slots[k].addresses@)),
        forall|i: int|
            0 <= i < e ==> !at_any(#[trigger] components[i], texts(slots[k].addresses@)),
    ensures
        !owns(slots, components, k),
{
    let p = texts(slots[j].addresses@);
    let q = texts(slots[k].addresses@);
    let a = choose|a: int| 0 <= a < p.len() && at_address(components[d], #[trigger] p[a]);
    let b = choose|b: int| 0 <= b < q.len() && at_address(components[e], #[trigger] q[b]);
    assert forall|i: int, c: int| #![trigger components[i], q[c]]
        0 <= i < e && 0 <= c < q.len() implies !at_address(components[i], q[c]) by {
        assert(!at_any(components[i], q));
    }
    first_component_at_an_address_is_the_depth(components, q, e, b);
    depth_is_the_first_component_at_an_address(components, p);
    assert(at_address(components[d], p[a]));
    assert(slot_depth(slots[j], components) is Some);
    assert(slot_depth(slots[j], components)->0 <= d);
}

} // verus!
