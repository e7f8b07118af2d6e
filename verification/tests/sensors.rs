use nrf52840_aht20::aht20::{self, Reading};
use nrf52840_aht20::battery;
use nrf52840_aht20::sensors::{Sample, Sensors};

const READING: Reading = Reading { temperature_c_centi: 2137, humidity_rh_centi: 4850 };

#[test]
fn sample_all_success() {
    let mut s = Sensors::new();
    let sample = s.sample_all(Ok(READING), Ok(4100));
    assert_eq!(
        sample,
        Sample {
            cycle_id: 1,
            temperature_c_centi: Some(2137),
            humidity_rh_centi: Some(4850),
            battery_mv: Some(4100),
        }
    );
}

#[test]
fn sample_all_disconnected_aht20_keeps_battery() {
    let mut s = Sensors::new();
    let sample = s.sample_all(Err(aht20::Error::Timeout), Ok(3900));
    assert_eq!(sample.temperature_c_centi, None);
    assert_eq!(sample.humidity_rh_centi, None);
    assert_eq!(sample.battery_mv, Some(3900));
}

#[test]
fn sample_all_bad_battery_keeps_climate() {
    let mut s = Sensors::new();
    let sample = s.sample_all(Ok(READING), Err(battery::Error::OutOfRange(7198)));
    assert_eq!(sample.temperature_c_centi, Some(2137));
    assert_eq!(sample.battery_mv, None);
}

#[test]
fn sample_all_cycle_id_wraps() {
    let mut s = Sensors::new();
    let mut last = 0;
    for _ in 0..255 {
        last = s.sample_all(Err(aht20::Error::Crc), Ok(4000)).cycle_id;
    }
    assert_eq!(last, 255);
    assert_eq!(s.sample_all(Err(aht20::Error::Crc), Ok(4000)).cycle_id, 0);
    assert_eq!(s.sample_all(Err(aht20::Error::Crc), Ok(4000)).cycle_id, 1);
}
