//! The devices a machine offers, and the worker slots they make.
use vstd::prelude::*;

verus! {

/// The category of a device.
#[derive(Debug, Clone, Copy, PartialEq, Eq, Structural)]
pub enum DeviceType {
    /// A card of its own.
    Discrete,
    /// Graphics inside the processor.
    Integrated,
    /// A rasterizer in software.
    Cpu,
    /// Anything else that can be opened.
    Other,
}

/// One device an enumeration reported.
#[derive(Debug, Clone, PartialEq, Eq)]
pub struct DeviceInfo {
    /// The class it belongs to, as it renders.
    pub class: String,
    /// What it calls itself.
    pub name: String,
    /// Its category.
    pub device_type: DeviceType,
    /// Which of the devices of its class it is.
    pub member: u32,
}

/// The device a worker slot is bound to.
#[derive(Debug, Clone, PartialEq, Eq)]
pub struct DeviceBinding {
    /// The class of the device.
    pub class: String,
    /// Which of the devices of that class.
    pub member: u32,
}

/// Whether a device is more than a software rasterizer.
pub open spec fn is_hardware(device: DeviceInfo) -> bool {
    device.device_type != DeviceType::Cpu
}

/// The devices workers are put on: the hardware where there is any, and the
/// rasterizers where there is nothing else.
pub open spec fn usable_of(devices: Seq<DeviceInfo>) -> Seq<DeviceInfo> {
    if exists|i: int| 0 <= i < devices.len() && is_hardware(#[trigger] devices[i]) {
        devices.filter(|device: DeviceInfo| is_hardware(device))
    } else {
        devices
    }
}

/// The binding of one device.
pub open spec fn binding_of(device: DeviceInfo) -> DeviceBinding {
    DeviceBinding { class: device.class, member: device.member }
}

/// The slots of a machine that offers `devices`: one per usable device, or one
/// bound to nothing where it offers none.
pub open spec fn slots_of(devices: Seq<DeviceInfo>) -> Seq<Option<DeviceBinding>> {
    if devices.len() == 0 {
        seq![None]
    } else {
        usable_of(devices).map_values(|device: DeviceInfo| Some(binding_of(device)))
    }
}

/// The places in `devices` of the usable ones, in order.
pub open spec fn picks(devices: Seq<DeviceInfo>, places: Seq<usize>) -> bool {
    &&& places.len() == usable_of(devices).len()
    &&& forall|i: int|
        0 <= i < places.len() ==> (#[trigger] places[i]) < devices.len()
            && devices[places[i] as int] == usable_of(devices)[i]
}

/// Which of `devices` workers are put on, by their places.
pub fn usable(devices: &Vec<DeviceInfo>) -> (places: Vec<usize>)
    ensures
        picks(devices@, places@),
{
    let mut hardware: bool = false;
    let mut i: usize = 0;
    while i < devices.len()
        invariant
            i <= devices@.len(),
            hardware == exists|k: int| 0 <= k < i && is_hardware(#[trigger] devices@[k]),
        decreases devices@.len() - i,
    {
        if devices[i].device_type != DeviceType::Cpu {
            proof {
                assert(is_hardware(devices@[i as int]));
            }
            hardware = true;
        }
        i = i + 1;
    }
    let ghost kept = |device: DeviceInfo| is_hardware(device);
    let mut places: Vec<usize> = Vec::new();
    let mut j: usize = 0;
    proof {
        assert(devices@.take(0).filter(kept) =~= Seq::empty()) by {
            reveal(Seq::filter);
        }
    }
    while j < devices.len()
        invariant
            j <= devices@.len(),
            kept == (|device: DeviceInfo| is_hardware(device)),
            places@.len() == (if hardware {
                devices@.take(j as int).filter(kept).len()
            } else {
                j as nat
            }),
            forall|k: int|
                0 <= k < places@.len() ==> (#[trigger] places@[k]) < j
                    && devices@[places@[k] as int] == (if hardware {
                    devices@.take(j as int).filter(kept)[k]
                } else {
                    devices@[k]
                }),
        decreases devices@.len() - j,
    {
        proof {
            reveal(Seq::filter);
            let next = devices@.take(j + 1);
            assert(next.drop_last() =~= devices@.take(j as int));
            assert(next.last() == devices@[j as int]);
        }
        if !hardware || devices[j].device_type != DeviceType::Cpu {
            places.push(j);
        }
        j = j + 1;
    }
    proof {
        assert(devices@.take(devices@.len() as int) =~= devices@);
    }
    places
}

/// The worker slots a machine that offers `devices` gets.
pub fn derived_slots(devices: &Vec<DeviceInfo>) -> (slots: Vec<Option<DeviceBinding>>)
    ensures
        slots@ == slots_of(devices@),
{
    let mut slots: Vec<Option<DeviceBinding>> = Vec::new();
    if devices.len() == 0 {
        slots.push(None);
        return slots;
    }
    let places: Vec<usize> = usable(devices);
    let mut i: usize = 0;
    while i < places.len()
        invariant
            i <= places@.len(),
            picks(devices@, places@),
            slots@.len() == i,
            forall|k: int|
                0 <= k < i ==> (#[trigger] slots@[k]) == Some(
                    binding_of(usable_of(devices@)[k]),
                ),
        decreases places@.len() - i,
    {
        let device: &DeviceInfo = &devices[places[i]];
        slots.push(Some(DeviceBinding { class: device.class.clone(), member: device.member }));
        i = i + 1;
    }
    proof {
        assert(slots@ =~= slots_of(devices@));
    }
    slots
}

/// A machine always gets a slot. One that offers nothing gets a single slot bound
/// to nothing; one with hardware gets a slot for each piece of it and for nothing
/// else; and one with only rasterizers gets a slot for each of those, in order.
pub proof fn every_machine_gets_the_slots_its_devices_give(devices: Seq<DeviceInfo>)
    ensures
        ({
            let slots = slots_of(devices);
            let hardware = exists|i: int|
                0 <= i < devices.len() && (#[trigger] devices[i]).device_type != DeviceType::Cpu;
            &&& slots.len() > 0
            &&& devices.len() == 0 ==> slots == seq![None::<DeviceBinding>]
            &&& forall|i: int|
                0 <= i < devices.len() && (#[trigger] devices[i]).device_type != DeviceType::Cpu
                    ==> slots.contains(
                    Some(DeviceBinding { class: devices[i].class, member: devices[i].member }),
                )
            &&& hardware ==> forall|k: int|
                0 <= k < slots.len() ==> (exists|i: int|
                    0 <= i < devices.len() && (#[trigger] devices[i]).device_type
                        != DeviceType::Cpu && slots[k] == Some(
                        DeviceBinding { class: devices[i].class, member: devices[i].member },
                    )) && #[trigger] slots[k] is Some
            &&& !hardware && devices.len() > 0 ==> slots.len() == devices.len() && forall|i: int|
                0 <= i < devices.len() ==> #[trigger] slots[i] == Some(
                    DeviceBinding { class: devices[i].class, member: devices[i].member },
                )
        }),
{
    let slots = slots_of(devices);
    let usable = usable_of(devices);
    if exists|i: int| 0 <= i < devices.len() && is_hardware(#[trigger] devices[i]) {
        lemma_hardware_is_kept(devices);
        let some = choose|i: int| 0 <= i < devices.len() && is_hardware(#[trigger] devices[i]);
        assert(devices[some].device_type != DeviceType::Cpu);
        assert(usable.contains(devices[some]));
        assert forall|i: int|
            0 <= i < devices.len() && (#[trigger] devices[i]).device_type
                != DeviceType::Cpu implies slots.contains(
            Some(DeviceBinding { class: devices[i].class, member: devices[i].member }),
        ) by {
            assert(is_hardware(devices[i]));
            let k = choose|k: int| 0 <= k < usable.len() && usable[k] == devices[i];
            assert(slots[k] == Some(binding_of(devices[i])));
        }
        assert forall|k: int| 0 <= k < slots.len() implies (exists|i: int|
            0 <= i < devices.len() && (#[trigger] devices[i]).device_type != DeviceType::Cpu
                && slots[k] == Some(
                DeviceBinding { class: devices[i].class, member: devices[i].member },
            )) && #[trigger] slots[k] is Some by {
            assert(slots[k] == Some(binding_of(usable[k])));
            assert(devices.contains(usable[k]) && is_hardware(usable[k]));
            let i = choose|i: int| 0 <= i < devices.len() && devices[i] == usable[k];
            assert(devices[i].device_type != DeviceType::Cpu);
        }
    } else {
        assert forall|i: int| 0 <= i < devices.len() implies (#[trigger] devices[i]).device_type
            == DeviceType::Cpu by {
            assert(!is_hardware(devices[i]));
        }
        assert forall|i: int| 0 <= i < devices.len() implies #[trigger] slots[i] == Some(
            DeviceBinding { class: devices[i].class, member: devices[i].member },
        ) by {
            assert(slots[i] == Some(binding_of(usable[i])));
        }
    }
}

proof fn lemma_hardware_is_kept(devices: Seq<DeviceInfo>)
    ensures
        ({
            let kept = devices.filter(|device: DeviceInfo| is_hardware(device));
            &&& forall|i: int|
                0 <= i < devices.len() && is_hardware(#[trigger] devices[i]) ==> kept.contains(
                    devices[i],
                )
            &&& forall|k: int|
                0 <= k < kept.len() ==> devices.contains(#[trigger] kept[k]) && is_hardware(kept[k])
        }),
    decreases devices.len(),
{
    reveal(Seq::filter);
    if devices.len() > 0 {
        let rest = devices.drop_last();
        let picks = |device: DeviceInfo| is_hardware(device);
        let before = rest.filter(picks);
        let kept = devices.filter(picks);
        lemma_hardware_is_kept(rest);
        assert forall|i: int|
            0 <= i < devices.len() && is_hardware(#[trigger] devices[i]) implies kept.contains(
            devices[i],
        ) by {
            if i < rest.len() {
                assert(rest[i] == devices[i]);
                let k = choose|k: int| 0 <= k < before.len() && before[k] == devices[i];
                assert(kept[k] == devices[i]);
            } else {
                assert(kept[before.len() as int] == devices[i]);
            }
        }
        assert forall|k: int| 0 <= k < kept.len() implies devices.contains(#[trigger] kept[k])
            && is_hardware(kept[k]) by {
            if k < before.len() {
                assert(kept[k] == before[k]);
                let i = choose|i: int| 0 <= i < rest.len() && rest[i] == before[k];
                assert(devices[i] == kept[k]);
            } else {
                assert(devices[devices.len() - 1] == kept[k]);
            }
        }
    }
}

} // verus!
