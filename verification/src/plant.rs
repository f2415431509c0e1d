use vstd::prelude::*;
use crate::kernel::Port;

verus! {

/// The ports of the clutch.
#[derive(Copy, Clone)]
pub struct ClutchPorts {
    // inputs
    /// Crank speed, one tick old.
    pub omega_eng: Port,
    /// 0 = fully open, 1 = fully clamped.
    pub cmd: Port,
    /// Reaction from the driveline at the input shaft.
    pub t_out: Port,
    /// Vehicle inertia reflected onto the input shaft.
    pub j_ref: Port,
    pub v_veh: Port,
    pub t_amb: Port,
    // outputs
    /// Transmission input shaft speed.
    pub omega_in: Port,
    /// Torque on the crank, positive = retarding.
    pub t_clutch: Port,
    /// rad/s, engine minus input.
    pub slip: Port,
    /// W, friction power.
    pub q_clutch: Port,
    pub t_disc: Port,
    /// 0..1, permanent mu loss.
    pub glaze: Port,
    /// µm of lining consumed, cumulative.
    pub wear_um: Port,
}

/// The ports of the driveline.
#[derive(Copy, Clone)]
pub struct DrivelinePorts {
    // inputs
    pub omega_in: Port,
    /// 0 = neutral, 1..7.
    pub gear: Port,
    pub f_road: Port,
    // outputs
    pub v_veh: Port,
    pub n_wheel: Port,
    pub t_out: Port,
    pub j_ref: Port,
}

/// Every port the engine touches, named.
#[derive(Copy, Clone)]
pub struct EnginePorts {
    // inputs
    pub q_cmd: Port,
    pub p_im: Port,
    pub t_im: Port,
    pub t_load: Port,
    pub visc_mult: Port,
    // outputs
    pub omega: Port,
    pub theta: Port,
    pub m_dot_air: Port,
    pub afr: Port,
    pub m_fuel: Port,
}

/// The ports of the intake manifold.
#[derive(Copy, Clone)]
pub struct IntakePorts {
    // inputs
    pub t_up: Port,
    /// Written by the engine: last step's consumption.
    pub m_dot_eng: Port,
    pub m_comp_in: Port,
    // outputs
    pub p: Port,
    pub t: Port,
    /// What a MAF would see.
    pub m_dot_in: Port,
}

/// The ports of the road load.
#[derive(Copy, Clone)]
pub struct RoadLoadPorts {
    // inputs
    pub v_veh: Port,
    /// rad.
    pub grade: Port,
    /// m/s, + = against.
    pub headwind: Port,
    /// 0..1.
    pub brake: Port,
    pub p_amb: Port,
    pub t_amb: Port,
    // outputs
    /// N, total resistance opposing motion.
    pub f_road: Port,
}

/// The number of forward gears of the gearbox.
pub const N_GEARS: usize = 7;

/// The index into the overall ratios of the selected gear (`gear` counts from 1), or none in
/// neutral (0) and for a gear the box does not have.
pub fn gear_index(gear: usize, n_gears: usize) -> (i: Option<usize>)
    ensures
        i == (if gear == 0 || gear > n_gears {
            None
        } else {
            Some((gear - 1) as usize)
        }),
{
    if gear == 0 || gear > n_gears {
        None
    } else {
        Some(gear - 1)
    }
}

} // verus!
