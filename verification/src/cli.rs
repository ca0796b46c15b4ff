use crate::keylight::{DeviceStatus, KeyLightStatus};
use crate::unsigned_int::{Brightness, Temperature};
use vstd::prelude::*;
use vstd::string::*;

verus! {

/// How much one brightness step moves, in percent.
pub const BRIGHTNESS_DELTA_VALUE: u8 = 10;

/// How much one temperature step moves, in the device's unit.
pub const TEMPERATURE_DELTA_VALUE: u16 = 20;

/// Direction of a stepping command.
#[derive(Debug, Clone, Copy, PartialEq, Eq, Structural)]
pub enum Delta {
    Incr,
    Decr,
}

/// The values a set command carries; a missing one leaves the light's value
/// as it is.
#[derive(Debug, Clone, Copy, PartialEq, Eq)]
pub struct SetArgs {
    pub brightness: Option<Brightness>,
    pub temperature: Option<Temperature>,
}

/// One brightness step from `b`: up by the step but never past full, down by
/// the step but never below zero; a step that would leave the range leaves
/// the value as it is.
pub open spec fn stepped_brightness(b: u16, delta: Delta) -> u16 {
    match delta {
        Delta::Incr => {
            if b + BRIGHTNESS_DELTA_VALUE <= 100 {
                (b + BRIGHTNESS_DELTA_VALUE) as u16
            } else {
                b
            }
        },
        Delta::Decr => {
            if b >= BRIGHTNESS_DELTA_VALUE {
                (b - BRIGHTNESS_DELTA_VALUE) as u16
            } else {
                0
            }
        },
    }
}

/// One temperature step from `t`, clamped to the valid range as the
/// brightness step is; a step that would leave the range leaves the value as
/// it is.
pub open spec fn stepped_temperature(t: u16, delta: Delta) -> u16 {
    match delta {
        Delta::Incr => {
            if t + TEMPERATURE_DELTA_VALUE <= 344 {
                (t + TEMPERATURE_DELTA_VALUE) as u16
            } else {
                t
            }
        },
        Delta::Decr => {
            if t >= TEMPERATURE_DELTA_VALUE && t - TEMPERATURE_DELTA_VALUE >= 143 {
                (t - TEMPERATURE_DELTA_VALUE) as u16
            } else {
                t
            }
        },
    }
}

/// Steps the first light's brightness by one step in the direction of
/// `delta`, failing exactly when the status advertises no light.
pub fn incr_brightness(status: &mut DeviceStatus, delta: Delta) -> (r: Result<(), String>)
    requires
        old(status).wf(),
    ensures
        final(status).wf(),
        final(status).number_of_lights == old(status).number_of_lights,
        r is Ok <==> old(status).number_of_lights > 0,
        r is Err ==> *final(status) == *old(status),
        r is Ok ==> (final(status).lights@ == old(status).lights@.update(
            0,
            KeyLightStatus { brightness: final(status).lights@[0].brightness, ..old(
                status,
            ).lights@[0] },
        ) && final(status).lights@[0].brightness.spec_value() == stepped_brightness(
            old(status).lights@[0].brightness.spec_value(),
            delta,
        )),
{
    if status.number_of_lights == 0 {
        return Err(String::from_str("Invalid index"));
    }
    let light = status.lights[0];
    let b = light.brightness.value();
    let raw: u16 = match delta {
        Delta::Incr => b + (BRIGHTNESS_DELTA_VALUE as u16),
        Delta::Decr => {
            if b >= (BRIGHTNESS_DELTA_VALUE as u16) {
                b - (BRIGHTNESS_DELTA_VALUE as u16)
            } else {
                0
            }
        },
    };
    let brightness = match Brightness::new(raw) {
        Ok(nb) => nb,
        Err(_) => light.brightness,
    };
    status.lights[0] = KeyLightStatus { brightness, ..light };
    Ok(())
}

/// Steps the first light's temperature by one step in the direction of
/// `delta`, failing exactly when the status advertises no light.
pub fn incr_temperature(status: &mut DeviceStatus, delta: Delta) -> (r: Result<(), String>)
    requires
        old(status).wf(),
    ensures
        final(status).wf(),
        final(status).number_of_lights == old(status).number_of_lights,
        r is Ok <==> old(status).number_of_lights > 0,
        r is Err ==> *final(status) == *old(status),
        r is Ok ==> (final(status).lights@ == old(status).lights@.update(
            0,
            KeyLightStatus { temperature: final(status).lights@[0].temperature, ..old(
                status,
            ).lights@[0] },
        ) && final(status).lights@[0].temperature.spec_value() == stepped_temperature(
            old(status).lights@[0].temperature.spec_value(),
            delta,
        )),
{
    if status.number_of_lights == 0 {
        return Err(String::from_str("Invalid index"));
    }
    let light = status.lights[0];
    let t = light.temperature.value();
    let raw: u16 = match delta {
        Delta::Incr => t + TEMPERATURE_DELTA_VALUE,
        Delta::Decr => {
            if t >= TEMPERATURE_DELTA_VALUE {
                t - TEMPERATURE_DELTA_VALUE
            } else {
                0
            }
        },
    };
    let temperature = match Temperature::new(raw) {
        Ok(nt) => nt,
        Err(_) => light.temperature,
    };
    status.lights[0] = KeyLightStatus { temperature, ..light };
    Ok(())
}

/// Writes the values a set command carries into the first light, leaving a
/// value alone where the command names none; fails exactly when the status
/// advertises no light.
pub fn apply_set_args(status: &mut DeviceStatus, args: SetArgs) -> (r: Result<(), String>)
    requires
        old(status).wf(),
    ensures
        final(status).wf(),
        final(status).number_of_lights == old(status).number_of_lights,
        r is Ok <==> old(status).number_of_lights > 0,
        r is Err ==> *final(status) == *old(status),
        r is Ok ==> final(status).lights@ == old(status).lights@.update(
            0,
            KeyLightStatus {
                brightness: (match args.brightness {
                    Some(b) => b,
                    None => old(status).lights@[0].brightness,
                }),
                temperature: (match args.temperature {
                    Some(t) => t,
                    None => old(status).lights@[0].temperature,
                }),
                ..old(status).lights@[0]
            },
        ),
{
    if status.number_of_lights == 0 {
        return Err(String::from_str("Invalid index"));
    }
    let light = status.lights[0];
    let brightness = match args.brightness {
        Some(b) => b,
        None => light.brightness,
    };
    let temperature = match args.temperature {
        Some(t) => t,
        None => light.temperature,
    };
    status.lights[0] = KeyLightStatus { brightness, temperature, ..light };
    Ok(())
}

} // verus!
