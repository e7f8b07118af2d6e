use nrf52840_aht20::aht20::{
    convert, crc8, frame_result, Action, Command, Error, Event, MeasureCycle, Reading,
};

const GOOD_FRAME: [u8; 7] = [0x1C, 0x6E, 0x5A, 0x45, 0xB3, 0x2C, 0xCE];

#[test]
fn crc8_check_value() {
    assert_eq!(crc8(b"123456789"), 0xF7);
}

#[test]
fn crc8_datasheet_example() {
    assert_eq!(crc8(&[0xBE, 0xEF]), 0x92);
}

#[test]
fn crc8_of_nothing_is_init() {
    assert_eq!(crc8(&[]), 0xFF);
}

#[test]
fn crc8_appended_crc_gives_zero() {
    let data = [0x1C, 0x6E, 0x5A, 0x45, 0xB3, 0x2C];
    let c = crc8(&data);
    let mut framed = data.to_vec();
    framed.push(c);
    assert_eq!(crc8(&framed), 0);
    framed[6] ^= 0x01;
    assert_ne!(crc8(&framed), 0);
}

#[test]
fn convert_typical_frame() {
    let r = convert(&GOOD_FRAME);
    assert_eq!(r, Reading { temperature_c_centi: 2124, humidity_rh_centi: 4310 });
}

#[test]
fn convert_all_zero_frame() {
    let r = convert(&[0x1C, 0, 0, 0, 0, 0, 0x58]);
    assert_eq!(r.temperature_c_centi, -5000);
    assert_eq!(r.humidity_rh_centi, 0);
}

#[test]
fn convert_full_scale_frame() {
    let r = convert(&[0x1C, 0xFF, 0xFF, 0xFF, 0xFF, 0xFF, 0x7A]);
    assert_eq!(r.temperature_c_centi, 14999);
    assert_eq!(r.humidity_rh_centi, 9999);
}

#[test]
fn frame_result_accepts_matching_crc() {
    assert!(matches!(frame_result(&GOOD_FRAME), Ok(r) if r.humidity_rh_centi == 4310));
}

#[test]
fn frame_result_rejects_corrupt_crc() {
    let mut f = GOOD_FRAME;
    f[6] = 0xCF;
    assert!(matches!(frame_result(&f), Err(Error::Crc)));
}

#[test]
fn command_bytes_match_datasheet() {
    assert_eq!(Command::SoftReset.bytes(), vec![0xBA]);
    assert_eq!(Command::Init.bytes(), vec![0xBE, 0x08, 0x00]);
    assert_eq!(Command::Measure.bytes(), vec![0xAC, 0x33, 0x00]);
}

#[test]
fn error_from_bus_error() {
    let e: Error = embassy_nrf::twim::Error::AddressNack.into();
    assert!(matches!(e, Error::Bus(embassy_nrf::twim::Error::AddressNack)));
}

fn is_delay(a: &Action, ms: u64) -> bool {
    matches!(a, Action::Delay(d) if *d == ms)
}

/// Drive a cycle through power-up, reset, and the first status read.
fn up_to_status(c: &mut MeasureCycle) {
    assert!(matches!(c.step(Event::Ready), Action::PowerOff));
    assert!(matches!(c.step(Event::Ready), Action::PowerOn));
    assert!(is_delay(&c.step(Event::Ready), 100));
    assert!(matches!(c.step(Event::Ready), Action::Write(Command::SoftReset)));
    assert!(is_delay(&c.step(Event::Ready), 20));
    assert!(matches!(c.step(Event::Ready), Action::ReadStatus));
}

#[test]
fn cycle_happy_path() {
    let mut c = MeasureCycle::new();
    up_to_status(&mut c);
    assert!(matches!(c.step(Event::Status(0x18)), Action::Write(Command::Measure)));
    assert!(is_delay(&c.step(Event::Ready), 80));
    assert!(matches!(c.step(Event::Ready), Action::ReadFrame));
    assert!(matches!(c.step(Event::Frame(GOOD_FRAME)), Action::PowerOff));
    assert!(!c.is_finished());
    match c.step(Event::Ready) {
        Action::Done(Ok(r)) => {
            assert_eq!(r, Reading { temperature_c_centi: 2124, humidity_rh_centi: 4310 })
        }
        other => panic!("unexpected {:?}", other),
    }
    assert!(c.is_finished());
}

#[test]
fn cycle_sends_init_when_uncalibrated_then_proceeds() {
    let mut c = MeasureCycle::new();
    up_to_status(&mut c);
    assert!(matches!(c.step(Event::Status(0x10)), Action::Write(Command::Init)));
    assert!(is_delay(&c.step(Event::Ready), 10));
    assert!(matches!(c.step(Event::Ready), Action::ReadStatus));
    assert!(matches!(c.step(Event::Status(0x08)), Action::Write(Command::Measure)));
}

#[test]
fn cycle_uncalibrated_after_init() {
    let mut c = MeasureCycle::new();
    up_to_status(&mut c);
    assert!(matches!(c.step(Event::Status(0x00)), Action::Write(Command::Init)));
    assert!(is_delay(&c.step(Event::Ready), 10));
    assert!(matches!(c.step(Event::Ready), Action::ReadStatus));
    assert!(matches!(c.step(Event::Status(0x00)), Action::PowerOff));
    assert!(matches!(c.step(Event::Ready), Action::Done(Err(Error::Uncalibrated))));
}

#[test]
fn cycle_still_busy_after_ten_polls() {
    let mut c = MeasureCycle::new();
    up_to_status(&mut c);
    assert!(matches!(c.step(Event::Status(0x08)), Action::Write(Command::Measure)));
    assert!(is_delay(&c.step(Event::Ready), 80));
    assert!(matches!(c.step(Event::Ready), Action::ReadFrame));
    let mut busy = GOOD_FRAME;
    busy[0] = 0x98;
    let mut reads = 1;
    loop {
        assert!(is_delay(&c.step(Event::Frame(busy)), 10));
        match c.step(Event::Ready) {
            Action::ReadFrame => reads += 1,
            Action::PowerOff => break,
            other => panic!("unexpected {:?}", other),
        }
    }
    assert_eq!(reads, 10);
    assert!(matches!(c.step(Event::Ready), Action::Done(Err(Error::StillBusy))));
}

#[test]
fn cycle_busy_then_ready() {
    let mut c = MeasureCycle::new();
    up_to_status(&mut c);
    assert!(matches!(c.step(Event::Status(0x08)), Action::Write(Command::Measure)));
    assert!(is_delay(&c.step(Event::Ready), 80));
    assert!(matches!(c.step(Event::Ready), Action::ReadFrame));
    let mut busy = GOOD_FRAME;
    busy[0] = 0x98;
    assert!(is_delay(&c.step(Event::Frame(busy)), 10));
    assert!(matches!(c.step(Event::Ready), Action::ReadFrame));
    assert!(matches!(c.step(Event::Frame(GOOD_FRAME)), Action::PowerOff));
    assert!(matches!(c.step(Event::Ready), Action::Done(Ok(_))));
}

#[test]
fn cycle_crc_mismatch() {
    let mut c = MeasureCycle::new();
    up_to_status(&mut c);
    assert!(matches!(c.step(Event::Status(0x08)), Action::Write(Command::Measure)));
    assert!(is_delay(&c.step(Event::Ready), 80));
    assert!(matches!(c.step(Event::Ready), Action::ReadFrame));
    let mut bad = GOOD_FRAME;
    bad[6] = 0x00;
    assert!(matches!(c.step(Event::Frame(bad)), Action::PowerOff));
    assert!(matches!(c.step(Event::Ready), Action::Done(Err(Error::Crc))));
}

#[test]
fn cycle_timeout_powers_down_then_reports() {
    let mut c = MeasureCycle::new();
    assert!(matches!(c.step(Event::Ready), Action::PowerOff));
    assert!(matches!(c.step(Event::Ready), Action::PowerOn));
    assert!(is_delay(&c.step(Event::Ready), 100));
    assert!(matches!(c.step(Event::Ready), Action::Write(Command::SoftReset)));
    assert!(matches!(c.step(Event::TimedOut), Action::PowerOff));
    assert!(matches!(c.step(Event::Ready), Action::Done(Err(Error::Timeout))));
}

#[test]
fn cycle_bus_fault_powers_down_then_reports() {
    let mut c = MeasureCycle::new();
    up_to_status(&mut c);
    let fault = embassy_nrf::twim::Error::AddressNack;
    assert!(matches!(c.step(Event::BusFault(fault)), Action::PowerOff));
    assert!(matches!(
        c.step(Event::Ready),
        Action::Done(Err(Error::Bus(embassy_nrf::twim::Error::AddressNack)))
    ));
}

#[test]
fn cycle_longest_run_takes_thirty_three_actions() {
    let mut c = MeasureCycle::new();
    let mut busy = GOOD_FRAME;
    busy[0] = 0x98;
    let mut actions = Vec::new();
    let mut event = Event::Ready;
    loop {
        let a = c.step(event);
        actions.push(a);
        event = match a {
            Action::ReadStatus => Event::Status(if actions.len() == 6 { 0x00 } else { 0x08 }),
            Action::ReadFrame => Event::Frame(busy),
            Action::Done(_) => break,
            _ => Event::Ready,
        };
    }
    assert_eq!(actions.len(), 33);
    assert!(matches!(actions[0], Action::PowerOff));
    assert!(matches!(actions[1], Action::PowerOn));
    assert!(matches!(actions[31], Action::PowerOff));
    assert!(matches!(actions[32], Action::Done(Err(Error::StillBusy))));
    assert!(c.is_finished());
}

#[test]
fn crc8_detects_every_single_bit_flip() {
    let data = [0x1C, 0x6E, 0x5A, 0x45, 0xB3, 0x2C];
    let good = crc8(&data);
    for i in 0..data.len() {
        for k in 0..8 {
            let mut bad = data;
            bad[i] ^= 1 << k;
            assert_ne!(crc8(&bad), good);
        }
    }
}
