use elgato_keylight::cli::{apply_set_args, incr_brightness, incr_temperature};
use elgato_keylight::{
    Brightness, Delta, DeviceStatus, KeyLightStatus, PowerStatus, SetArgs, Temperature,
    UnsignedInt,
};
use std::str::FromStr;

fn one_light(power: PowerStatus, brightness: u16, temperature: u16) -> DeviceStatus {
    DeviceStatus {
        number_of_lights: 1,
        lights: vec![KeyLightStatus {
            power,
            brightness: Brightness::new(brightness).unwrap(),
            temperature: Temperature::new(temperature).unwrap(),
        }],
    }
}

#[test]
fn main_unsigned_int() {
    let x: Result<UnsignedInt<5, 10>, _> = UnsignedInt::new(6);
    assert!(x.is_ok());

    let x: Result<UnsignedInt<5, 10>, _> = UnsignedInt::new(3);
    assert!(x.is_err());
}

#[test]
fn unsigned_int_unsigned_int() {
    let x: Result<UnsignedInt<5, 10>, _> = UnsignedInt::new(6);
    assert!(x.is_ok());

    let x: Result<UnsignedInt<5, 10>, _> = UnsignedInt::new(3);
    assert!(x.is_err());
}

#[test]
fn unsigned_int_error_names_the_range() {
    let err = Brightness::new(150).unwrap_err();
    assert_eq!(err, "Outside range [0, 100]");
    let err = Temperature::new(100).unwrap_err();
    assert_eq!(err, "Outside range [143, 344]");
}

#[test]
fn unsigned_int_from_str() {
    let x: UnsignedInt<5, 10> = UnsignedInt::from_str("7").unwrap();
    assert_eq!(x.value(), 7);
    assert!(UnsignedInt::<5, 10>::from_str("11").is_err());
    assert!(UnsignedInt::<5, 10>::from_str("x").is_err());
    assert!(UnsignedInt::<5, 10>::from_str("").is_err());
}

#[test]
fn power_status_toggle() {
    let mut p = PowerStatus::Off;
    p.toggle();
    assert_eq!(p, PowerStatus::On);
    p.toggle();
    assert_eq!(p, PowerStatus::Off);
}

#[test]
fn power_status_conversions() {
    assert!(bool::from(PowerStatus::On));
    assert!(!bool::from(PowerStatus::Off));
    assert_eq!(PowerStatus::from(true), PowerStatus::On);
    assert_eq!(PowerStatus::from(false), PowerStatus::Off);
    assert_eq!(PowerStatus::On.label(), "on");
    assert_eq!(PowerStatus::Off.label(), "off");
}

#[test]
fn device_status_set_updates_one_light() {
    let mut status = one_light(PowerStatus::Off, 50, 200);
    status
        .set(0, |light| KeyLightStatus { power: PowerStatus::On, ..light })
        .unwrap();
    assert_eq!(status.lights[0].power, PowerStatus::On);
    assert_eq!(status.lights[0].brightness.value(), 50);
}

#[test]
fn device_status_set_rejects_bad_index() {
    let mut status = one_light(PowerStatus::Off, 50, 200);
    let r = status.set(1, |light| light);
    assert_eq!(r.unwrap_err(), "Invalid index");
    let mut empty = DeviceStatus { number_of_lights: 0, lights: vec![] };
    assert!(empty.set(0, |light| light).is_err());
}

#[test]
fn device_status_power_helpers() {
    let mut status = one_light(PowerStatus::Off, 50, 200);
    status.set_power(0, PowerStatus::On).unwrap();
    assert_eq!(status.lights[0].power, PowerStatus::On);
    status.toggle_power(0).unwrap();
    assert_eq!(status.lights[0].power, PowerStatus::Off);
    status.set_power_all(PowerStatus::On);
    assert_eq!(status.lights[0].power, PowerStatus::On);
    assert!(status.set_power(3, PowerStatus::On).is_err());
    assert!(status.toggle_power(3).is_err());
}

#[test]
fn brightness_stepping() {
    let mut status = one_light(PowerStatus::On, 50, 200);
    incr_brightness(&mut status, Delta::Incr).unwrap();
    assert_eq!(status.lights[0].brightness.value(), 60);
    incr_brightness(&mut status, Delta::Decr).unwrap();
    assert_eq!(status.lights[0].brightness.value(), 50);

    // stepping up from near the top would leave the range: unchanged
    let mut status = one_light(PowerStatus::On, 95, 200);
    incr_brightness(&mut status, Delta::Incr).unwrap();
    assert_eq!(status.lights[0].brightness.value(), 95);

    // stepping down from below the step floors at zero
    let mut status = one_light(PowerStatus::On, 5, 200);
    incr_brightness(&mut status, Delta::Decr).unwrap();
    assert_eq!(status.lights[0].brightness.value(), 0);

    let mut empty = DeviceStatus { number_of_lights: 0, lights: vec![] };
    assert!(incr_brightness(&mut empty, Delta::Incr).is_err());
}

#[test]
fn temperature_stepping() {
    let mut status = one_light(PowerStatus::On, 50, 200);
    incr_temperature(&mut status, Delta::Incr).unwrap();
    assert_eq!(status.lights[0].temperature.value(), 220);
    incr_temperature(&mut status, Delta::Decr).unwrap();
    assert_eq!(status.lights[0].temperature.value(), 200);

    // a step past either end of the range leaves the value unchanged
    let mut status = one_light(PowerStatus::On, 50, 340);
    incr_temperature(&mut status, Delta::Incr).unwrap();
    assert_eq!(status.lights[0].temperature.value(), 340);
    let mut status = one_light(PowerStatus::On, 50, 150);
    incr_temperature(&mut status, Delta::Decr).unwrap();
    assert_eq!(status.lights[0].temperature.value(), 150);
}

#[test]
fn set_args_overrides_only_named_values() {
    let mut status = one_light(PowerStatus::On, 50, 200);
    let args = SetArgs {
        brightness: Some(Brightness::new(80).unwrap()),
        temperature: None,
    };
    apply_set_args(&mut status, args).unwrap();
    assert_eq!(status.lights[0].brightness.value(), 80);
    assert_eq!(status.lights[0].temperature.value(), 200);

    let args = SetArgs {
        brightness: None,
        temperature: Some(Temperature::new(300).unwrap()),
    };
    apply_set_args(&mut status, args).unwrap();
    assert_eq!(status.lights[0].brightness.value(), 80);
    assert_eq!(status.lights[0].temperature.value(), 300);
}
