//! Records and constants of the ATS plug-in interface.
use vstd::prelude::*;

verus! {

/// Version number that an ATS plug-in reports to the host.
pub const ATS_VERSION: i32 = 0x0002_0000;

pub const ATS_KEY_S: i32 = 0;
pub const ATS_KEY_A1: i32 = 1;
pub const ATS_KEY_A2: i32 = 2;
pub const ATS_KEY_B1: i32 = 3;
pub const ATS_KEY_B2: i32 = 4;
pub const ATS_KEY_C1: i32 = 5;
pub const ATS_KEY_C2: i32 = 6;
pub const ATS_KEY_D: i32 = 7;
pub const ATS_KEY_E: i32 = 8;
pub const ATS_KEY_F: i32 = 9;
pub const ATS_KEY_G: i32 = 10;
pub const ATS_KEY_H: i32 = 11;
pub const ATS_KEY_I: i32 = 12;
pub const ATS_KEY_J: i32 = 13;
pub const ATS_KEY_K: i32 = 14;
pub const ATS_KEY_L: i32 = 15;

/// Initial handle position: handle removed.
pub const ATS_INIT_REMOVED: i32 = 2;
/// Initial handle position: emergency brake.
pub const ATS_INIT_EMG: i32 = 1;
/// Initial handle position: service brake.
pub const ATS_INIT_SVC: i32 = 0;

pub const ATS_SOUND_STOP: i32 = -10000;
pub const ATS_SOUND_PLAY: i32 = 1;
pub const ATS_SOUND_PLAYLOOPING: i32 = 0;
pub const ATS_SOUND_CONTINUE: i32 = 2;

pub const ATS_HORN_PRIMARY: i32 = 0;
pub const ATS_HORN_SECONDARY: i32 = 1;
pub const ATS_HORN_MUSIC: i32 = 2;

/// Constant-speed control: keep the current mode.
pub const ATS_CONSTANTSPEED_CONTINUE: i32 = 0;
/// Constant-speed control: enable.
pub const ATS_CONSTANTSPEED_ENABLE: i32 = 1;
/// Constant-speed control: disable.
pub const ATS_CONSTANTSPEED_DISABLE: i32 = 2;

/// Static configuration of the train, sent once when it is loaded.
#[derive(Clone, Copy, Debug, PartialEq, Eq, Structural)]
pub struct AtsVehicleSpec {
    pub brake_notches: i32,
    pub power_notches: i32,
    /// ATS cancel notch.
    pub ats_notch: i32,
    /// 80% brake (67 degree) notch.
    pub b67_notch: i32,
    pub cars: i32,
}

/// Per-frame state of the vehicle.
///
/// The multiplexer relays this record without reading it, so its real-valued
/// quantities are carried as their IEEE-754 bit patterns.
#[derive(Clone, Copy, Debug, PartialEq, Eq, Structural)]
pub struct AtsVehicleState {
    /// Train position along the track in metres, as `f64` bits.
    pub location_bits: u64,
    /// Train speed in km/h, as `f32` bits.
    pub speed_bits: u32,
    /// Time of day in milliseconds.
    pub time: i32,
    /// Brake cylinder pressure in Pa, as `f32` bits.
    pub bc_pressure_bits: u32,
    /// Main reservoir pressure in Pa, as `f32` bits.
    pub mr_pressure_bits: u32,
    /// Equalizing reservoir pressure in Pa, as `f32` bits.
    pub er_pressure_bits: u32,
    /// Brake pipe pressure in Pa, as `f32` bits.
    pub bp_pressure_bits: u32,
    /// Straight air pipe pressure in Pa, as `f32` bits.
    pub sap_pressure_bits: u32,
    /// Motor current in A, as `f32` bits.
    pub current_bits: u32,
}

/// Data received from a beacon.
#[derive(Clone, Copy, Debug, PartialEq, Eq, Structural)]
pub struct AtsBeaconData {
    pub beacon_type: i32,
    /// Signal of the connected section.
    pub signal: i32,
    /// Distance to the connected section in metres, as `f32` bits.
    pub distance_bits: u32,
    pub optional: i32,
}

/// A train operation instruction: the handle positions and the
/// constant-speed mode that a plug-in asks the host to apply.
#[derive(Clone, Copy, Debug, PartialEq, Eq, Structural)]
pub struct AtsHandles {
    pub brake: i32,
    pub power: i32,
    pub reverser: i32,
    pub constant_speed: i32,
}

} // verus!
