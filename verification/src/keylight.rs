use crate::unsigned_int::{Brightness, Temperature};
use vstd::prelude::*;
use vstd::string::*;

verus! {

/// Whether a light is on or off.
#[derive(Debug, Clone, Copy, PartialEq, Eq, Structural)]
pub enum PowerStatus {
    Off,
    On,
}

impl PowerStatus {
    /// Flips the power state to the other one.
    pub fn toggle(&mut self)
        ensures
            *old(self) == PowerStatus::Off ==> *final(self) == PowerStatus::On,
            *old(self) == PowerStatus::On ==> *final(self) == PowerStatus::Off,
    {
        let toggled = match self {
            PowerStatus::Off => PowerStatus::On,
            PowerStatus::On => PowerStatus::Off,
        };
        *self = toggled;
    }

    /// The state's conventional name.
    pub fn label(&self) -> (r: &'static str)
        ensures
            *self == PowerStatus::On ==> r@ == "on"@,
            *self == PowerStatus::Off ==> r@ == "off"@,
    {
        match self {
            PowerStatus::Off => "off",
            PowerStatus::On => "on",
        }
    }
}

impl From<PowerStatus> for bool {
    fn from(value: PowerStatus) -> (r: bool) {
        match value {
            PowerStatus::Off => false,
            PowerStatus::On => true,
        }
    }
}

impl vstd::std_specs::convert::FromSpecImpl<PowerStatus> for bool {
    open spec fn obeys_from_spec() -> bool {
        true
    }

    open spec fn from_spec(v: PowerStatus) -> bool {
        v == PowerStatus::On
    }
}

impl From<bool> for PowerStatus {
    fn from(b: bool) -> (r: PowerStatus) {
        if b {
            PowerStatus::On
        } else {
            PowerStatus::Off
        }
    }
}

impl vstd::std_specs::convert::FromSpecImpl<bool> for PowerStatus {
    open spec fn obeys_from_spec() -> bool {
        true
    }

    open spec fn from_spec(b: bool) -> PowerStatus {
        if b {
            PowerStatus::On
        } else {
            PowerStatus::Off
        }
    }
}

/// One light's settings: power, brightness, colour temperature.
#[derive(Debug, Clone, Copy, PartialEq, Eq)]
pub struct KeyLightStatus {
    pub power: PowerStatus,
    pub brightness: Brightness,
    pub temperature: Temperature,
}

/// What a device reports or is told over its status endpoint: how many
/// lights it has, and each light's settings.
#[derive(Debug, Clone, PartialEq, Eq)]
pub struct DeviceStatus {
    pub number_of_lights: usize,
    pub lights: Vec<KeyLightStatus>,
}

impl DeviceStatus {
    /// The advertised light count names an entry of `lights`.
    pub open spec fn wf(self) -> bool {
        self.number_of_lights == self.lights@.len()
    }

    /// Rewrites the light at `index` with `update`, failing on an index at or
    /// past the advertised light count and leaving the rest untouched.
    pub fn set<F: FnOnce(KeyLightStatus) -> KeyLightStatus>(
        &mut self,
        index: usize,
        update: F,
    ) -> (r: Result<(), String>)
        requires
            old(self).wf(),
            index < old(self).number_of_lights ==> call_requires(
                update,
                (old(self).lights@[index as int],),
            ),
        ensures
            final(self).wf(),
            final(self).number_of_lights == old(self).number_of_lights,
            r is Ok <==> index < old(self).number_of_lights,
            r is Err ==> *final(self) == *old(self),
            r is Ok ==> (exists|nl: KeyLightStatus|
                call_ensures(update, (old(self).lights@[index as int],), nl)
                    && final(self).lights@ == old(self).lights@.update(index as int, nl)),
    {
        if index >= self.number_of_lights {
            return Err(String::from_str("Invalid index"));
        }
        let old_light = self.lights[index];
        let new_light = update(old_light);
        self.lights[index] = new_light;
        Ok(())
    }

    /// Sets the light at `index` to `status`, failing on an index at or past
    /// the advertised light count.
    pub fn set_power(&mut self, index: usize, status: PowerStatus) -> (r: Result<(), String>)
        requires
            old(self).wf(),
        ensures
            final(self).wf(),
            final(self).number_of_lights == old(self).number_of_lights,
            r is Ok <==> index < old(self).number_of_lights,
            r is Err ==> *final(self) == *old(self),
            r is Ok ==> final(self).lights@ == old(self).lights@.update(
                index as int,
                KeyLightStatus {
                    power: status,
                    ..old(self).lights@[index as int]
                },
            ),
    {
        if index >= self.number_of_lights {
            return Err(String::from_str("Invalid index"));
        }
        let light = self.lights[index];
        self.lights[index] = KeyLightStatus { power: status, ..light };
        Ok(())
    }

    /// Flips the power of the light at `index`, failing on an index at or
    /// past the advertised light count.
    pub fn toggle_power(&mut self, index: usize) -> (r: Result<(), String>)
        requires
            old(self).wf(),
        ensures
            final(self).wf(),
            final(self).number_of_lights == old(self).number_of_lights,
            r is Ok <==> index < old(self).number_of_lights,
            r is Err ==> *final(self) == *old(self),
            r is Ok ==> final(self).lights@ == old(self).lights@.update(
                index as int,
                KeyLightStatus {
                    power: (if old(self).lights@[index as int].power == PowerStatus::Off {
                        PowerStatus::On
                    } else {
                        PowerStatus::Off
                    }),
                    ..old(self).lights@[index as int]
                },
            ),
    {
        if index >= self.number_of_lights {
            return Err(String::from_str("Invalid index"));
        }
        let light = self.lights[index];
        let mut power = light.power;
        power.toggle();
        self.lights[index] = KeyLightStatus { power, ..light };
        Ok(())
    }

    /// Sets every advertised light to `status`.
    pub fn set_power_all(&mut self, status: PowerStatus)
        requires
            old(self).wf(),
        ensures
            final(self).wf(),
            final(self).number_of_lights == old(self).number_of_lights,
            final(self).lights@.len() == old(self).lights@.len(),
            forall|k: int|
                0 <= k < final(self).lights@.len() ==> #[trigger] final(self).lights@[k]
                    == (KeyLightStatus { power: status, ..old(self).lights@[k] }),
    {
        let n = self.number_of_lights;
        let ghost orig = self.lights@;
        let mut index: usize = 0;
        while index < n
            invariant
                n == self.number_of_lights == self.lights@.len() == orig.len(),
                index <= n,
                forall|k: int|
                    0 <= k < index ==> #[trigger] self.lights@[k] == (KeyLightStatus {
                        power: status,
                        ..orig[k]
                    }),
                forall|k: int| index <= k < n ==> #[trigger] self.lights@[k] == orig[k],
            decreases n - index,
        {
            let light = self.lights[index];
            self.lights[index] = KeyLightStatus { power: status, ..light };
            index += 1;
        }
    }
}

} // verus!
