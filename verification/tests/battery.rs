use nrf52840_aht20::battery::{battery_mv, divider_input_mv, pin_mv, Error};

#[test]
fn battery_typical_reading() {
    assert_eq!(pin_mv(2330), 2047);
    assert_eq!(battery_mv(2330), Ok(4094));
}

#[test]
fn battery_open_divider_is_out_of_range() {
    assert_eq!(battery_mv(4095), Err(Error::OutOfRange(7198)));
}

#[test]
fn battery_negative_sample_clamps_to_zero() {
    assert_eq!(pin_mv(-5), 0);
    assert_eq!(battery_mv(-5), Err(Error::OutOfRange(0)));
}

#[test]
fn battery_window_edges() {
    assert_eq!(battery_mv(1138), Ok(2000));
    assert_eq!(battery_mv(1137), Err(Error::OutOfRange(1998)));
    assert_eq!(battery_mv(2845), Ok(5000));
    assert_eq!(battery_mv(2846), Err(Error::OutOfRange(5002)));
}

#[test]
fn battery_divider_input_unchecked() {
    assert_eq!(divider_input_mv(4095), 7198);
    assert_eq!(divider_input_mv(i16::MAX), 57598);
}

#[test]
fn battery_monotonic_samples() {
    let mut last = 0;
    for raw in (0..4096).step_by(7) {
        let mv = divider_input_mv(raw as i16);
        assert!(mv >= last);
        last = mv;
    }
}
