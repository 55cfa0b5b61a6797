//! Enumerated values and the one-byte codes they carry across the host boundary.
//!
//! Mapping table (code: value):
//! - `Device`: 0 Master, 1 Slave
//! - `ControlAlgorithm`: 0 NoControl, 1 WAVE, 2 ISS, 3 PC, 4 MMT
//! - `OptimisationParameter`: 0 PacketRate, 1 Delay
//! - `Gender`: 0 Male, 1 Female
//! - `Handedness`: 0 Right, 1 Left
use vstd::prelude::*;

verus! {

/// Which side of the teleoperation pair produced a sample.
#[derive(Clone, Copy, Debug, PartialEq, Eq, Structural)]
pub enum Device {
    Master,
    Slave,
}

/// Opaque tag of the bilateral control scheme in use.
#[derive(Clone, Copy, Debug, PartialEq, Eq, Structural)]
pub enum ControlAlgorithm {
    NoControl,
    WAVE,
    ISS,
    PC,
    MMT,
}

/// The parameter that an adaptive rating varies.
#[derive(Clone, Copy, Debug, PartialEq, Eq, Structural)]
pub enum OptimisationParameter {
    PacketRate,
    Delay,
}

#[derive(Clone, Copy, Debug, PartialEq, Eq, Structural)]
pub enum Gender {
    Male,
    Female,
}

#[derive(Clone, Copy, Debug, PartialEq, Eq, Structural)]
pub enum Handedness {
    Right,
    Left,
}

impl Default for ControlAlgorithm {
    fn default() -> (r: Self)
        ensures
            r == ControlAlgorithm::NoControl,
    {
        ControlAlgorithm::NoControl
    }
}

impl Device {
    pub open spec fn spec_code(self) -> u8 {
        match self {
            Device::Master => 0,
            Device::Slave => 1,
        }
    }

    pub fn code(self) -> (r: u8)
        ensures
            r == self.spec_code(),
    {
        match self {
            Device::Master => 0,
            Device::Slave => 1,
        }
    }

    /// The device with code `c`; `None` for a code outside the table.
    pub fn from_code(c: u8) -> (r: Option<Device>)
        ensures
            r matches Some(d) ==> d.spec_code() == c,
            r is None <==> c > 1,
    {
        match c {
            0 => Some(Device::Master),
            1 => Some(Device::Slave),
            _ => None,
        }
    }
}

impl ControlAlgorithm {
    pub open spec fn spec_code(self) -> u8 {
        match self {
            ControlAlgorithm::NoControl => 0,
            ControlAlgorithm::WAVE => 1,
            ControlAlgorithm::ISS => 2,
            ControlAlgorithm::PC => 3,
            ControlAlgorithm::MMT => 4,
        }
    }

    pub fn code(self) -> (r: u8)
        ensures
            r == self.spec_code(),
    {
        match self {
            ControlAlgorithm::NoControl => 0,
            ControlAlgorithm::WAVE => 1,
            ControlAlgorithm::ISS => 2,
            ControlAlgorithm::PC => 3,
            ControlAlgorithm::MMT => 4,
        }
    }

    /// The algorithm with code `c`; `None` for a code outside the table.
    pub fn from_code(c: u8) -> (r: Option<ControlAlgorithm>)
        ensures
            r matches Some(a) ==> a.spec_code() == c,
            r is None <==> c > 4,
    {
        match c {
            0 => Some(ControlAlgorithm::NoControl),
            1 => Some(ControlAlgorithm::WAVE),
            2 => Some(ControlAlgorithm::ISS),
            3 => Some(ControlAlgorithm::PC),
            4 => Some(ControlAlgorithm::MMT),
            _ => None,
        }
    }
}

impl OptimisationParameter {
    pub open spec fn spec_code(self) -> u8 {
        match self {
            OptimisationParameter::PacketRate => 0,
            OptimisationParameter::Delay => 1,
        }
    }

    pub fn code(self) -> (r: u8)
        ensures
            r == self.spec_code(),
    {
        match self {
            OptimisationParameter::PacketRate => 0,
            OptimisationParameter::Delay => 1,
        }
    }

    /// The parameter with code `c`; `None` for a code outside the table.
    pub fn from_code(c: u8) -> (r: Option<OptimisationParameter>)
        ensures
            r matches Some(p) ==> p.spec_code() == c,
            r is None <==> c > 1,
    {
        match c {
            0 => Some(OptimisationParameter::PacketRate),
            1 => Some(OptimisationParameter::Delay),
            _ => None,
        }
    }
}

impl Gender {
    pub open spec fn spec_code(self) -> u8 {
        match self {
            Gender::Male => 0,
            Gender::Female => 1,
        }
    }

    pub fn code(self) -> (r: u8)
        ensures
            r == self.spec_code(),
    {
        match self {
            Gender::Male => 0,
            Gender::Female => 1,
        }
    }

    /// The gender with code `c`; `None` for a code outside the table.
    pub fn from_code(c: u8) -> (r: Option<Gender>)
        ensures
            r matches Some(g) ==> g.spec_code() == c,
            r is None <==> c > 1,
    {
        match c {
            0 => Some(Gender::Male),
            1 => Some(Gender::Female),
            _ => None,
        }
    }
}

impl Handedness {
    pub open spec fn spec_code(self) -> u8 {
        match self {
            Handedness::Right => 0,
            Handedness::Left => 1,
        }
    }

    pub fn code(self) -> (r: u8)
        ensures
            r == self.spec_code(),
    {
        match self {
            Handedness::Right => 0,
            Handedness::Left => 1,
        }
    }

    /// The handedness with code `c`; `None` for a code outside the table.
    pub fn from_code(c: u8) -> (r: Option<Handedness>)
        ensures
            r matches Some(h) ==> h.spec_code() == c,
            r is None <==> c > 1,
    {
        match c {
            0 => Some(Handedness::Right),
            1 => Some(Handedness::Left),
            _ => None,
        }
    }
}

/// Decoding the code of an algorithm gives that algorithm back, and distinct
/// algorithms have distinct codes.
pub proof fn lemma_algorithm_code_round_trip(a: ControlAlgorithm, b: ControlAlgorithm)
    ensures
        a.spec_code() <= 4,
        a.spec_code() == b.spec_code() ==> a == b,
{
}

} // verus!
