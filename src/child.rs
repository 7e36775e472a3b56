//! Child plug-ins: the entry points a child may export, and its capability table.
use vstd::prelude::*;
use crate::ats_plugin::AtsHandles;

verus! {

/// An optional entry point that a child plug-in may export.
#[derive(Clone, Copy, Debug, PartialEq, Eq, Structural)]
pub enum EntryPoint {
    Load,
    Dispose,
    SetVehicleSpec,
    Initialize,
    Elapse,
    SetPower,
    SetBrake,
    SetReverser,
    KeyDown,
    KeyUp,
    HornBlow,
    DoorOpen,
    DoorClose,
    SetSignal,
    SetBeaconData,
}

/// The exported symbol name of each entry point.
pub open spec fn symbol_of(ep: EntryPoint) -> Seq<char> {
    match ep {
        EntryPoint::Load => "Load"@,
        EntryPoint::Dispose => "Dispose"@,
        EntryPoint::SetVehicleSpec => "SetVehicleSpec"@,
        EntryPoint::Initialize => "Initialize"@,
        EntryPoint::Elapse => "Elapse"@,
        EntryPoint::SetPower => "SetPower"@,
        EntryPoint::SetBrake => "SetBrake"@,
        EntryPoint::SetReverser => "SetReverser"@,
        EntryPoint::KeyDown => "KeyDown"@,
        EntryPoint::KeyUp => "KeyUp"@,
        EntryPoint::HornBlow => "HornBlow"@,
        EntryPoint::DoorOpen => "DoorOpen"@,
        EntryPoint::DoorClose => "DoorClose"@,
        EntryPoint::SetSignal => "SetSignal"@,
        EntryPoint::SetBeaconData => "SetBeaconData"@,
    }
}

impl EntryPoint {
    /// The name under which the entry point is exported.
    pub fn symbol(self) -> (r: &'static str)
        ensures
            r@ == symbol_of(self),
    {
        match self {
            EntryPoint::Load => "Load",
            EntryPoint::Dispose => "Dispose",
            EntryPoint::SetVehicleSpec => "SetVehicleSpec",
            EntryPoint::Initialize => "Initialize",
            EntryPoint::Elapse => "Elapse",
            EntryPoint::SetPower => "SetPower",
            EntryPoint::SetBrake => "SetBrake",
            EntryPoint::SetReverser => "SetReverser",
            EntryPoint::KeyDown => "KeyDown",
            EntryPoint::KeyUp => "KeyUp",
            EntryPoint::HornBlow => "HornBlow",
            EntryPoint::DoorOpen => "DoorOpen",
            EntryPoint::DoorClose => "DoorClose",
            EntryPoint::SetSignal => "SetSignal",
            EntryPoint::SetBeaconData => "SetBeaconData",
        }
    }
}

/// Which optional entry points a loaded module exports.
///
/// The table is filled once, right after the module is loaded, and never
/// changes afterwards; an absent entry point is not an error.
#[derive(Clone, Copy, Debug, PartialEq, Eq, Structural)]
pub struct Capabilities {
    pub load: bool,
    pub dispose: bool,
    pub set_vehicle_spec: bool,
    pub initialize: bool,
    pub elapse: bool,
    pub set_power: bool,
    pub set_brake: bool,
    pub set_reverser: bool,
    pub key_down: bool,
    pub key_up: bool,
    pub horn_blow: bool,
    pub door_open: bool,
    pub door_close: bool,
    pub set_signal: bool,
    pub set_beacon_data: bool,
}

impl Capabilities {
    /// Whether the table holds the given entry point.
    pub open spec fn provides(self, ep: EntryPoint) -> bool {
        match ep {
            EntryPoint::Load => self.load,
            EntryPoint::Dispose => self.dispose,
            EntryPoint::SetVehicleSpec => self.set_vehicle_spec,
            EntryPoint::Initialize => self.initialize,
            EntryPoint::Elapse => self.elapse,
            EntryPoint::SetPower => self.set_power,
            EntryPoint::SetBrake => self.set_brake,
            EntryPoint::SetReverser => self.set_reverser,
            EntryPoint::KeyDown => self.key_down,
            EntryPoint::KeyUp => self.key_up,
            EntryPoint::HornBlow => self.horn_blow,
            EntryPoint::DoorOpen => self.door_open,
            EntryPoint::DoorClose => self.door_close,
            EntryPoint::SetSignal => self.set_signal,
            EntryPoint::SetBeaconData => self.set_beacon_data,
        }
    }

    /// A table in which no entry point is present.
    pub fn none() -> (r: Capabilities)
        ensures
            forall|ep: EntryPoint| !r.provides(ep),
    {
        Capabilities {
            load: false,
            dispose: false,
            set_vehicle_spec: false,
            initialize: false,
            elapse: false,
            set_power: false,
            set_brake: false,
            set_reverser: false,
            key_down: false,
            key_up: false,
            horn_blow: false,
            door_open: false,
            door_close: false,
            set_signal: false,
            set_beacon_data: false,
        }
    }

    /// Whether the entry point is present.
    pub fn has(&self, ep: EntryPoint) -> (r: bool)
        ensures
            r == self.provides(ep),
    {
        match ep {
            EntryPoint::Load => self.load,
            EntryPoint::Dispose => self.dispose,
            EntryPoint::SetVehicleSpec => self.set_vehicle_spec,
            EntryPoint::Initialize => self.initialize,
            EntryPoint::Elapse => self.elapse,
            EntryPoint::SetPower => self.set_power,
            EntryPoint::SetBrake => self.set_brake,
            EntryPoint::SetReverser => self.set_reverser,
            EntryPoint::KeyDown => self.key_down,
            EntryPoint::KeyUp => self.key_up,
            EntryPoint::HornBlow => self.horn_blow,
            EntryPoint::DoorOpen => self.door_open,
            EntryPoint::DoorClose => self.door_close,
            EntryPoint::SetSignal => self.set_signal,
            EntryPoint::SetBeaconData => self.set_beacon_data,
        }
    }
}

/// One loaded child plug-in.
///
/// `module` is the owning handle of the loaded code; dropping the child
/// releases it. `last_input` is the power/brake/reverser the child was last
/// told of, `None` before its first frame.
pub struct ChildModule<H> {
    pub module: H,
    pub capabilities: Capabilities,
    pub last_input: Option<AtsHandles>,
}

impl<H> ChildModule<H> {
    /// A freshly loaded child, which has not been told of any input yet.
    pub fn new(module: H, capabilities: Capabilities) -> (r: ChildModule<H>)
        ensures
            r.module == module,
            r.capabilities == capabilities,
            r.last_input is None,
    {
        ChildModule { module, capabilities, last_input: None }
    }
}

} // verus!
