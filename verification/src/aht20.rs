//! AHT20 protocol logic: the CRC-8 frame check, the fixed-point conversion,
//! and one measurement cycle (power-cycle, reset, calibrate, trigger, poll) as a
//! state machine whose driver performs the I/O it asks for.
use vstd::prelude::*;
use embassy_nrf::twim::Error as TwimError;

verus! {

/// One CRC-8 bit step for polynomial 0x31 (x^8 + x^5 + x^4 + 1), MSB first.
pub open spec fn crc8_shift(crc: u8) -> u8 {
    if crc & 0x80 != 0 {
        ((crc << 1u8) ^ 0x31u8) as u8
    } else {
        (crc << 1u8) as u8
    }
}

/// `n` successive bit steps.
pub open spec fn crc8_shifts(crc: u8, n: nat) -> u8
    decreases n,
{
    if n == 0 {
        crc
    } else {
        crc8_shifts(crc8_shift(crc), (n - 1) as nat)
    }
}

/// CRC-8 of `data` as the AHT20 computes it: init 0xFF, poly 0x31, MSB-first,
/// no final XOR.
pub open spec fn crc8_spec(data: Seq<u8>) -> u8
    decreases data.len(),
{
    if data.len() == 0 {
        0xFFu8
    } else {
        crc8_shifts(crc8_spec(data.drop_last()) ^ data.last(), 8)
    }
}

/// CRC-8 used by the AHT20: polynomial 0x31 (x^8+x^5+x^4+1), init 0xFF, MSB-first.
pub fn crc8(data: &[u8]) -> (crc: u8)
    ensures
        crc == crc8_spec(data@),
{
    let mut crc: u8 = 0xFF;
    let mut i: usize = 0;
    while i < data.len()
        invariant
            i <= data.len(),
            crc == crc8_spec(data@.subrange(0, i as int)),
        decreases data.len() - i,
    {
        proof {
            assert(data@.subrange(0, i + 1).drop_last() =~= data@.subrange(0, i as int));
        }
        crc = crc ^ data[i];
        let ghost start = crc;
        let mut k: u8 = 0;
        while k < 8
            invariant
                k <= 8,
                crc8_shifts(start, 8) == crc8_shifts(crc, (8 - k) as nat),
            decreases 8 - k,
        {
            if crc & 0x80 != 0 {
                crc = (crc << 1u8) ^ 0x31;
            } else {
                crc = crc << 1u8;
            }
            k = k + 1;
        }
        i = i + 1;
    }
    proof {
        assert(data@.subrange(0, data@.len() as int) =~= data@);
    }
    crc
}


/// AHT20 I2C address (7-bit).
pub const ADDR: u8 = 0x38;

/// Status bit: measurement in progress.
pub const STATUS_BUSY: u8 = 0x80;

/// Status bit: factory-calibrated and ready.
pub const STATUS_CAL: u8 = 0x08;

/// A successful reading, already converted to fixed-point engineering units.
#[derive(Clone, Copy, Debug, PartialEq, Eq, Structural)]
pub struct Reading {
    /// Temperature in degrees C x 100 (e.g. 2137 = 21.37 C).
    pub temperature_c_centi: i16,
    /// Relative humidity in % x 100 (e.g. 4850 = 48.50 %RH).
    pub humidity_rh_centi: u16,
}

/// Why a measurement failed. Every variant is recoverable.
#[derive(Clone, Copy, Debug)]
pub enum Error {
    /// An I2C transaction exceeded its time budget: wedged bus or absent sensor.
    Timeout,
    /// A TWIM transfer failed (NACK, overrun, ...).
    Bus(TwimError),
    /// The measurement still read busy after the conversion-wait budget.
    StillBusy,
    /// Data CRC8 mismatch: corrupt transfer.
    Crc,
    /// Calibration bit never came up even after sending the init command.
    Uncalibrated,
}

impl From<TwimError> for Error {
    fn from(e: TwimError) -> (r: Self) {
        Error::Bus(e)
    }
}

impl vstd::std_specs::convert::FromSpecImpl<TwimError> for Error {
    open spec fn obeys_from_spec() -> bool {
        true
    }

    open spec fn from_spec(e: TwimError) -> Self {
        Error::Bus(e)
    }
}

/// The 20-bit raw humidity field of a frame
/// `[status, h19..12, h11..4, h3..0|t19..16, t15..8, t7..0, crc]`.
pub open spec fn raw_humidity(raw: Seq<u8>) -> int {
    raw[1] * 4096 + raw[2] * 16 + raw[3] / 16
}

/// The 20-bit raw temperature field of a frame.
pub open spec fn raw_temperature(raw: Seq<u8>) -> int {
    (raw[3] % 16) * 65536 + raw[4] * 256 + raw[5]
}

/// Relative humidity x 100: `floor(raw_h * 10000 / 2^20)`.
pub open spec fn humidity_centi(raw: Seq<u8>) -> int {
    raw_humidity(raw) * 10000 / 1048576
}

/// Temperature x 100: `floor(raw_t * 20000 / 2^20) - 5000`.
pub open spec fn temperature_centi(raw: Seq<u8>) -> int {
    raw_temperature(raw) * 20000 / 1048576 - 5000
}

/// The reading a frame decodes to.
pub open spec fn convert_spec(raw: Seq<u8>) -> Reading {
    Reading {
        temperature_c_centi: temperature_centi(raw) as i16,
        humidity_rh_centi: humidity_centi(raw) as u16,
    }
}

/// Decode the 6 data bytes into fixed-point degrees C x 100 and %RH x 100.
///
/// Both fields are 20-bit; RH% = raw_h / 2^20 * 100 and
/// T = raw_t / 2^20 * 200 - 50, scaled by 100 and floored.
pub fn convert(raw: &[u8; 7]) -> (r: Reading)
    ensures
        r == convert_spec(raw@),
        r.temperature_c_centi as int == temperature_centi(raw@),
        r.humidity_rh_centi as int == humidity_centi(raw@),
        r.temperature_c_centi as int == ((raw@[3] % 16) * 65536 + raw@[4] * 256 + raw@[5]) * 20000
            / 1048576 - 5000,
        r.humidity_rh_centi as int == (raw@[1] * 4096 + raw@[2] * 16 + raw@[3] / 16) * 10000
            / 1048576,
        -5000 <= r.temperature_c_centi < 15000,
        r.humidity_rh_centi < 10000,
{
    let b1 = raw[1];
    let b2 = raw[2];
    let b3 = raw[3];
    let b4 = raw[4];
    let b5 = raw[5];
    let raw_h: u32 = ((b1 as u32) << 12u32) | ((b2 as u32) << 4u32) | ((b3 as u32) >> 4u32);
    let raw_t: u32 = (((b3 as u32) & 0x0Fu32) << 16u32) | ((b4 as u32) << 8u32) | (b5 as u32);
    assert(raw_h == b1 * 4096 + b2 * 16 + b3 / 16 && raw_h < 1048576) by (bit_vector)
        requires
            raw_h == ((b1 as u32) << 12u32) | ((b2 as u32) << 4u32) | ((b3 as u32) >> 4u32),
    ;
    assert(raw_t == (b3 % 16) * 65536 + b4 * 256 + b5 && raw_t < 1048576) by (bit_vector)
        requires
            raw_t == (((b3 as u32) & 0x0Fu32) << 16u32) | ((b4 as u32) << 8u32) | (b5 as u32),
    ;
    let hp: u64 = raw_h as u64 * 10_000;
    let h: u64 = hp >> 20u64;
    assert(h == hp / 1048576) by (bit_vector)
        requires
            h == hp >> 20u64,
    ;
    assert(h < 10000) by (nonlinear_arith)
        requires
            h == hp / 1048576,
            hp == raw_h * 10000,
            raw_h < 1048576,
    ;
    let humidity_rh_centi = h as u16;
    let tp: i64 = raw_t as i64 * 20_000;
    let tq: i64 = tp >> 20u64;
    assert(tq == tp / 1048576) by (bit_vector)
        requires
            tq == tp >> 20u64,
            0 <= tp < 0x10000000000i64,
    ;
    assert(0 <= tq < 20000) by (nonlinear_arith)
        requires
            tq == tp / 1048576,
            tp == raw_t * 20000,
            raw_t < 1048576,
    ;
    let temp_centi: i64 = tq - 5_000;
    let temperature_c_centi = temp_centi as i16;
    Reading { temperature_c_centi, humidity_rh_centi }
}


/// Upper bound on any single I2C transaction (ms).
pub const I2C_TIMEOUT_MS: u64 = 500;

/// How long the cut rail is left to bleed before it is raised again (ms).
pub const BLEED_MS: u64 = 500;

/// Time the AHT20 needs after power-on before it accepts commands (ms).
pub const POWER_ON_SETTLE_MS: u64 = 100;

/// Settle time after a soft reset (ms).
pub const RESET_SETTLE_MS: u64 = 20;

/// Settle time after the init command (ms).
pub const INIT_SETTLE_MS: u64 = 10;

/// Conversion time after triggering a measurement (ms).
pub const CONVERSION_MS: u64 = 80;

/// Spacing between busy-bit polls (ms).
pub const POLL_INTERVAL_MS: u64 = 10;

/// Number of frame reads allowed while the busy bit stays set.
pub const MAX_POLLS: u8 = 10;

/// Commands sent to the AHT20.
#[derive(Clone, Copy, Debug, PartialEq, Eq, Structural)]
pub enum Command {
    /// Soft reset (0xBA).
    SoftReset,
    /// Initialize / load calibration (0xBE 0x08 0x00).
    Init,
    /// Trigger a measurement (0xAC 0x33 0x00).
    Measure,
}

/// The bytes put on the bus for a command.
pub open spec fn command_bytes(c: Command) -> Seq<u8> {
    match c {
        Command::SoftReset => seq![0xBAu8],
        Command::Init => seq![0xBEu8, 0x08u8, 0x00u8],
        Command::Measure => seq![0xACu8, 0x33u8, 0x00u8],
    }
}

impl Command {
    /// The bytes put on the bus for this command.
    pub fn bytes(&self) -> (b: Vec<u8>)
        ensures
            b@ == command_bytes(*self),
    {
        match self {
            Command::SoftReset => vec![0xBAu8],
            Command::Init => vec![0xBEu8, 0x08u8, 0x00u8],
            Command::Measure => vec![0xACu8, 0x33u8, 0x00u8],
        }
    }
}

/// What the driver must do next in a measurement cycle.
#[derive(Clone, Copy, Debug)]
pub enum Action {
    /// Drive SDA/SCL low, cut the rail, and let it bleed to a true power-on reset.
    PowerOff,
    /// Raise the rail and bring up the I2C bus.
    PowerOn,
    /// Wait this many milliseconds.
    Delay(u64),
    /// Write a command to the sensor.
    Write(Command),
    /// Read the one-byte status.
    ReadStatus,
    /// Read the seven-byte measurement frame.
    ReadFrame,
    /// The cycle is over (the sensor is powered down) with this outcome.
    Done(Result<Reading, Error>),
}

/// What happened to the last action.
#[derive(Clone, Copy, Debug)]
pub enum Event {
    /// The last power change, delay, or write completed.
    Ready,
    /// A status read returned this byte.
    Status(u8),
    /// A frame read returned these bytes.
    Frame([u8; 7]),
    /// The last transfer failed on the bus.
    BusFault(TwimError),
    /// The last transfer did not finish within its time budget.
    TimedOut,
}

/// Where a measurement cycle stands.
#[derive(Clone, Copy, Debug)]
pub enum Phase {
    /// Nothing done yet.
    Start,
    /// Powering down for a clean start.
    PoweringDown,
    /// Rail going up.
    PoweringUp,
    /// Waiting for power-on settle.
    Settling,
    /// Soft reset being written.
    Resetting,
    /// Waiting after soft reset.
    ResetSettling,
    /// First status read pending.
    CheckingStatus,
    /// Init command being written.
    Initializing,
    /// Waiting after init.
    InitSettling,
    /// Second status read pending.
    RecheckingStatus,
    /// Measure command being written.
    Triggering,
    /// Waiting for the conversion.
    Converting,
    /// A frame read is pending.
    Polling,
    /// Waiting before the next frame read.
    PollWaiting,
    /// Powering down with the outcome decided.
    ShuttingDown(Result<Reading, Error>),
    /// The outcome was handed out.
    Finished,
}

/// One AHT20 measurement cycle as a state machine: the driver performs each
/// [`Action`] and reports what happened as an [`Event`].
#[derive(Clone, Copy, Debug)]
pub struct MeasureCycle {
    /// Current phase.
    pub phase: Phase,
    /// Frame reads issued so far in the polling phase.
    pub polls: u8,
}

/// A cycle state is well formed: the poll count stays within budget, and is
/// positive while polling.
pub open spec fn cycle_wf(s: MeasureCycle) -> bool {
    &&& s.polls <= MAX_POLLS
    &&& (s.phase is Polling || s.phase is PollWaiting) ==> s.polls >= 1
}

/// The outcome of a frame whose busy bit is clear.
pub open spec fn frame_outcome(raw: Seq<u8>) -> Result<Reading, Error> {
    if crc8_spec(raw.subrange(0, 6)) != raw[6] {
        Err(Error::Crc)
    } else {
        Ok(convert_spec(raw))
    }
}

/// The error a failed transfer maps to.
pub open spec fn transfer_error(e: Event) -> Error {
    match e {
        Event::BusFault(b) => Error::Bus(b),
        _ => Error::Timeout,
    }
}

/// The phases in which a bus transfer is pending.
pub open spec fn transfer_pending(p: Phase) -> bool {
    ||| p is Resetting
    ||| p is CheckingStatus
    ||| p is Initializing
    ||| p is RecheckingStatus
    ||| p is Triggering
    ||| p is Polling
}

/// Whether `e` is a possible answer to the action pending in phase `p`.
pub open spec fn accepts(p: Phase, e: Event) -> bool {
    match e {
        Event::Ready => !(p is CheckingStatus || p is RecheckingStatus || p is Polling
            || p is Finished),
        Event::Status(_) => p is CheckingStatus || p is RecheckingStatus,
        Event::Frame(_) => p is Polling,
        Event::BusFault(_) => transfer_pending(p),
        Event::TimedOut => transfer_pending(p),
    }
}

/// Finish with an outcome: power down first, hand it out afterwards.
pub open spec fn finish(r: Result<Reading, Error>) -> (MeasureCycle, Action) {
    (MeasureCycle { phase: Phase::ShuttingDown(r), polls: 0 }, Action::PowerOff)
}

/// Go to `phase` (keeping the poll count) and ask for `a`.
pub open spec fn goto(s: MeasureCycle, phase: Phase, a: Action) -> (MeasureCycle, Action) {
    (MeasureCycle { phase, polls: s.polls }, a)
}

/// The transition table of a measurement cycle (meaningful where `accepts`
/// holds).
pub open spec fn next(s: MeasureCycle, e: Event) -> (MeasureCycle, Action) {
    if e is BusFault || e is TimedOut {
        finish(Err(transfer_error(e)))
    } else {
        match s.phase {
            Phase::Start => goto(s, Phase::PoweringDown, Action::PowerOff),
            Phase::PoweringDown => goto(s, Phase::PoweringUp, Action::PowerOn),
            Phase::PoweringUp => goto(s, Phase::Settling, Action::Delay(POWER_ON_SETTLE_MS)),
            Phase::Settling => goto(s, Phase::Resetting, Action::Write(Command::SoftReset)),
            Phase::Resetting => goto(s, Phase::ResetSettling, Action::Delay(RESET_SETTLE_MS)),
            Phase::ResetSettling => goto(s, Phase::CheckingStatus, Action::ReadStatus),
            Phase::CheckingStatus => if e->Status_0 & STATUS_CAL != 0 {
                goto(s, Phase::Triggering, Action::Write(Command::Measure))
            } else {
                goto(s, Phase::Initializing, Action::Write(Command::Init))
            },
            Phase::Initializing => goto(s, Phase::InitSettling, Action::Delay(INIT_SETTLE_MS)),
            Phase::InitSettling => goto(s, Phase::RecheckingStatus, Action::ReadStatus),
            Phase::RecheckingStatus => if e->Status_0 & STATUS_CAL != 0 {
                goto(s, Phase::Triggering, Action::Write(Command::Measure))
            } else {
                finish(Err(Error::Uncalibrated))
            },
            Phase::Triggering => goto(s, Phase::Converting, Action::Delay(CONVERSION_MS)),
            Phase::Converting => (MeasureCycle { phase: Phase::Polling, polls: 1 }, Action::ReadFrame),
            Phase::Polling => if e->Frame_0@[0] & STATUS_BUSY == 0 {
                finish(frame_outcome(e->Frame_0@))
            } else {
                goto(s, Phase::PollWaiting, Action::Delay(POLL_INTERVAL_MS))
            },
            Phase::PollWaiting => if s.polls < MAX_POLLS {
                (MeasureCycle { phase: Phase::Polling, polls: (s.polls + 1) as u8 }, Action::ReadFrame)
            } else {
                finish(Err(Error::StillBusy))
            },
            Phase::ShuttingDown(r) => (MeasureCycle { phase: Phase::Finished, polls: 0 }, Action::Done(r)),
            Phase::Finished => arbitrary(),
        }
    }
}

/// How many more steps a cycle can take at most.
pub open spec fn cycle_rank(s: MeasureCycle) -> nat {
    match s.phase {
        Phase::Start => 33,
        Phase::PoweringDown => 32,
        Phase::PoweringUp => 31,
        Phase::Settling => 30,
        Phase::Resetting => 29,
        Phase::ResetSettling => 28,
        Phase::CheckingStatus => 27,
        Phase::Initializing => 26,
        Phase::InitSettling => 25,
        Phase::RecheckingStatus => 24,
        Phase::Triggering => 23,
        Phase::Converting => 22,
        Phase::Polling => (3 + 2 * (MAX_POLLS - s.polls)) as nat,
        Phase::PollWaiting => (2 + 2 * (MAX_POLLS - s.polls)) as nat,
        Phase::ShuttingDown(_) => 1,
        Phase::Finished => 0,
    }
}

impl MeasureCycle {
    /// A fresh cycle; answer its first step with [`Event::Ready`].
    pub fn new() -> (c: Self)
        ensures
            c.phase is Start,
            c.polls == 0,
            cycle_wf(c),
            cycle_rank(c) == 33,
    {
        MeasureCycle { phase: Phase::Start, polls: 0 }
    }

    /// Whether the cycle has handed out its outcome.
    pub fn is_finished(&self) -> (b: bool)
        ensures
            b == (self.phase is Finished),
    {
        match self.phase {
            Phase::Finished => true,
            _ => false,
        }
    }

    /// Advance the cycle by the answer to the last action; returns the next action.
    pub fn step(&mut self, event: Event) -> (a: Action)
        requires
            cycle_wf(*old(self)),
            accepts(old(self).phase, event),
        ensures
            cycle_wf(*final(self)),
            (*final(self), a) == next(*old(self), event),
            cycle_rank(*final(self)) < cycle_rank(*old(self)),
    {
        match event {
            Event::BusFault(b) => {
                *self = MeasureCycle { phase: Phase::ShuttingDown(Err(Error::Bus(b))), polls: 0 };
                return Action::PowerOff;
            },
            Event::TimedOut => {
                *self = MeasureCycle { phase: Phase::ShuttingDown(Err(Error::Timeout)), polls: 0 };
                return Action::PowerOff;
            },
            _ => {},
        }
        match self.phase {
            Phase::Start => {
                self.phase = Phase::PoweringDown;
                Action::PowerOff
            },
            Phase::PoweringDown => {
                self.phase = Phase::PoweringUp;
                Action::PowerOn
            },
            Phase::PoweringUp => {
                self.phase = Phase::Settling;
                Action::Delay(POWER_ON_SETTLE_MS)
            },
            Phase::Settling => {
                self.phase = Phase::Resetting;
                Action::Write(Command::SoftReset)
            },
            Phase::Resetting => {
                self.phase = Phase::ResetSettling;
                Action::Delay(RESET_SETTLE_MS)
            },
            Phase::ResetSettling => {
                self.phase = Phase::CheckingStatus;
                Action::ReadStatus
            },
            Phase::CheckingStatus => match event {
                Event::Status(b) => if b & STATUS_CAL != 0 {
                    self.phase = Phase::Triggering;
                    Action::Write(Command::Measure)
                } else {
                    self.phase = Phase::Initializing;
                    Action::Write(Command::Init)
                },
                _ => unreached(),
            },
            Phase::Initializing => {
                self.phase = Phase::InitSettling;
                Action::Delay(INIT_SETTLE_MS)
            },
            Phase::InitSettling => {
                self.phase = Phase::RecheckingStatus;
                Action::ReadStatus
            },
            Phase::RecheckingStatus => match event {
                Event::Status(b) => if b & STATUS_CAL != 0 {
                    self.phase = Phase::Triggering;
                    Action::Write(Command::Measure)
                } else {
                    *self = MeasureCycle { phase: Phase::ShuttingDown(Err(Error::Uncalibrated)), polls: 0 };
                    Action::PowerOff
                },
                _ => unreached(),
            },
            Phase::Triggering => {
                self.phase = Phase::Converting;
                Action::Delay(CONVERSION_MS)
            },
            Phase::Converting => {
                *self = MeasureCycle { phase: Phase::Polling, polls: 1 };
                Action::ReadFrame
            },
            Phase::Polling => match event {
                Event::Frame(raw) => if raw[0] & STATUS_BUSY == 0 {
                    let outcome = frame_result(&raw);
                    *self = MeasureCycle { phase: Phase::ShuttingDown(outcome), polls: 0 };
                    Action::PowerOff
                } else {
                    self.phase = Phase::PollWaiting;
                    Action::Delay(POLL_INTERVAL_MS)
                },
                _ => unreached(),
            },
            Phase::PollWaiting => if self.polls < MAX_POLLS {
                *self = MeasureCycle { phase: Phase::Polling, polls: self.polls + 1 };
                Action::ReadFrame
            } else {
                *self = MeasureCycle { phase: Phase::ShuttingDown(Err(Error::StillBusy)), polls: 0 };
                Action::PowerOff
            },
            Phase::ShuttingDown(r) => {
                *self = MeasureCycle { phase: Phase::Finished, polls: 0 };
                Action::Done(r)
            },
            Phase::Finished => unreached(),
        }
    }
}

/// Check a ready frame's CRC and decode it.
pub fn frame_result(raw: &[u8; 7]) -> (r: Result<Reading, Error>)
    ensures
        r == frame_outcome(raw@),
{
    let data = vstd::slice::slice_subrange(raw.as_slice(), 0, 6);
    if crc8(data) != raw[6] {
        Err(Error::Crc)
    } else {
        Ok(convert(raw))
    }
}


/// The cycle state and the actions after answering `events` in order.
pub open spec fn run(s: MeasureCycle, events: Seq<Event>) -> (MeasureCycle, Seq<Action>)
    decreases events.len(),
{
    if events.len() == 0 {
        (s, Seq::empty())
    } else {
        let (t, a) = next(s, events[0]);
        let (u, rest) = run(t, events.drop_first());
        (u, seq![a] + rest)
    }
}

/// Every event in `events` answers the action pending when it arrives.
pub open spec fn run_accepted(s: MeasureCycle, events: Seq<Event>) -> bool
    decreases events.len(),
{
    events.len() == 0 || (accepts(s.phase, events[0]) && run_accepted(
        next(s, events[0]).0,
        events.drop_first(),
    ))
}

/// A fresh cycle.
pub open spec fn fresh_cycle() -> MeasureCycle {
    MeasureCycle { phase: Phase::Start, polls: 0 }
}

/// The rail is up in these phases (the last power action was `PowerOn`).
pub open spec fn rail_on(p: Phase) -> bool {
    !(p is Start || p is PoweringDown || p is ShuttingDown || p is Finished)
}

/// An action that puts a transaction on the I2C bus.
pub open spec fn is_transfer(a: Action) -> bool {
    a is Write || a is ReadStatus || a is ReadFrame
}

/// One step keeps a cycle well formed and lowers its rank.
pub proof fn lemma_step_wf_rank(s: MeasureCycle, e: Event)
    requires
        cycle_wf(s),
        accepts(s.phase, e),
    ensures
        cycle_wf(next(s, e).0),
        cycle_rank(next(s, e).0) < cycle_rank(s),
{
}

/// The length and shape of a run.
pub proof fn lemma_run_len(s: MeasureCycle, events: Seq<Event>)
    ensures
        run(s, events).1.len() == events.len(),
    decreases events.len(),
{
    if events.len() > 0 {
        lemma_run_len(next(s, events[0]).0, events.drop_first());
    }
}

/// A measurement cycle answers at most `cycle_rank(s)` events: from a fresh
/// cycle at most 33 actions are ever asked for, so with every transfer bounded
/// by its timeout a cycle can never hang.
pub proof fn lemma_cycle_bounded(s: MeasureCycle, events: Seq<Event>)
    requires
        cycle_wf(s),
        run_accepted(s, events),
    ensures
        events.len() <= cycle_rank(s),
        s == fresh_cycle() ==> events.len() <= 33,
    decreases events.len(),
{
    if events.len() > 0 {
        lemma_step_wf_rank(s, events[0]);
        lemma_cycle_bounded(next(s, events[0]).0, events.drop_first());
    }
}

/// Step facts about power: only `PowerOn` raises the rail, only `PowerOff`
/// lowers it, bus transfers happen only with the rail up, and the outcome is
/// handed out only from the powered-down shutdown phase, which is entered only
/// by a `PowerOff`.
pub proof fn lemma_step_power(s: MeasureCycle, e: Event)
    requires
        cycle_wf(s),
        accepts(s.phase, e),
    ensures
        !rail_on(s.phase) && rail_on(next(s, e).0.phase) ==> next(s, e).1 is PowerOn,
        rail_on(s.phase) && !rail_on(next(s, e).0.phase) ==> next(s, e).1 is PowerOff,
        is_transfer(next(s, e).1) ==> rail_on(s.phase) && rail_on(next(s, e).0.phase),
        next(s, e).1 is Done ==> s.phase is ShuttingDown && next(s, e).0.phase is Finished,
        next(s, e).0.phase is ShuttingDown ==> next(s, e).1 is PowerOff,
{
}

/// How each outcome is decided: a reading only from a frame whose busy bit is
/// clear and whose CRC matches, decoded by `convert_spec`; `Crc` only for such a
/// frame with a mismatching CRC; `Uncalibrated` only when the status read after
/// the init command still lacks the calibration bit; `StillBusy` only after
/// `MAX_POLLS` busy frames; `Timeout` and `Bus` only from the transfer that
/// failed so.
pub proof fn lemma_step_outcome(s: MeasureCycle, e: Event)
    requires
        cycle_wf(s),
        accepts(s.phase, e),
        !(s.phase is ShuttingDown),
    ensures
        next(s, e).0.phase matches Phase::ShuttingDown(Ok(r)) ==> {
            &&& s.phase is Polling
            &&& e is Frame
            &&& e->Frame_0@[0] & STATUS_BUSY == 0
            &&& crc8_spec(e->Frame_0@.subrange(0, 6)) == e->Frame_0@[6]
            &&& r == convert_spec(e->Frame_0@)
        },
        next(s, e).0.phase matches Phase::ShuttingDown(Err(Error::Crc)) ==> {
            &&& s.phase is Polling
            &&& e is Frame
            &&& e->Frame_0@[0] & STATUS_BUSY == 0
            &&& crc8_spec(e->Frame_0@.subrange(0, 6)) != e->Frame_0@[6]
        },
        next(s, e).0.phase matches Phase::ShuttingDown(Err(Error::Uncalibrated)) ==> {
            &&& s.phase is RecheckingStatus
            &&& e is Status
            &&& e->Status_0 & STATUS_CAL == 0
        },
        next(s, e).0.phase matches Phase::ShuttingDown(Err(Error::StillBusy)) ==> {
            &&& s.phase is PollWaiting
            &&& s.polls == MAX_POLLS
        },
        next(s, e).0.phase matches Phase::ShuttingDown(Err(Error::Timeout)) ==> e is TimedOut,
        next(s, e).0.phase matches Phase::ShuttingDown(Err(Error::Bus(b))) ==> e
            == Event::BusFault(b),
{
}

/// The sensor is powered down before every outcome: in any run, a `Done` is
/// immediately preceded by a `PowerOff` (or the run started in the shutdown
/// phase), and nothing follows a `Done`.
pub proof fn lemma_done_after_power_off(s: MeasureCycle, events: Seq<Event>, i: int)
    requires
        cycle_wf(s),
        run_accepted(s, events),
        0 <= i < events.len(),
        run(s, events).1[i] is Done,
    ensures
        i == 0 ==> s.phase is ShuttingDown,
        i > 0 ==> run(s, events).1[i - 1] is PowerOff,
        i == events.len() - 1,
    decreases events.len(),
{
    lemma_run_len(s, events);
    let t = next(s, events[0]).0;
    let rest = events.drop_first();
    lemma_step_power(s, events[0]);
    lemma_step_wf_rank(s, events[0]);
    lemma_run_len(t, rest);
    assert(run_accepted(t, rest));
    if i == 0 {
        if rest.len() > 0 {
            assert(t.phase is Finished);
            assert(accepts(t.phase, rest[0]));
        }
    } else {
        assert(run(s, events).1[i] == run(t, rest).1[i - 1]);
        lemma_done_after_power_off(t, rest, i - 1);
        if i > 1 {
            assert(run(s, events).1[i - 1] == run(t, rest).1[i - 2]);
        }
    }
}

/// Every reading starts from a power-on reset: a fresh cycle first powers the
/// sensor down, then raises the rail.
pub proof fn lemma_starts_with_power_cycle(events: Seq<Event>)
    requires
        run_accepted(fresh_cycle(), events),
        events.len() >= 2,
    ensures
        run(fresh_cycle(), events).1[0] is PowerOff,
        run(fresh_cycle(), events).1[1] is PowerOn,
{
    let s = fresh_cycle();
    let t = next(s, events[0]).0;
    let rest = events.drop_first();
    lemma_run_len(s, events);
    lemma_run_len(t, rest);
    assert(run_accepted(t, rest));
    assert(run(s, events).1[1] == run(t, rest).1[0]);
}

/// A fresh cycle always ends powered down: if its run hands out an outcome,
/// the action before it was `PowerOff`.
pub proof fn lemma_fresh_cycle_ends_powered_down(events: Seq<Event>, i: int)
    requires
        run_accepted(fresh_cycle(), events),
        0 <= i < events.len(),
        run(fresh_cycle(), events).1[i] is Done,
    ensures
        i >= 1,
        run(fresh_cycle(), events).1[i - 1] is PowerOff,
        i == events.len() - 1,
{
    lemma_done_after_power_off(fresh_cycle(), events, i);
}


/// A bit step maps zero, and only zero, to zero.
pub proof fn lemma_crc8_shift_zero(x: u8)
    ensures
        crc8_shift(x) == 0 <==> x == 0,
{
    assert((if x & 0x80 != 0 { ((x << 1u8) ^ 0x31u8) as u8 } else { (x << 1u8) as u8 }) == 0
        <==> x == 0) by (bit_vector);
}

/// Bit steps map zero, and only zero, to zero.
pub proof fn lemma_crc8_shifts_zero(x: u8, n: nat)
    ensures
        crc8_shifts(x, n) == 0 <==> x == 0,
    decreases n,
{
    if n > 0 {
        lemma_crc8_shift_zero(x);
        lemma_crc8_shifts_zero(crc8_shift(x), (n - 1) as nat);
    }
}

/// The CRC register after one more byte is zero exactly when that byte equals
/// the CRC of what came before: appending the CRC of `data` to `data` gives a
/// sequence whose CRC is zero, and no other final byte does.
pub proof fn lemma_crc8_residue(data: Seq<u8>, b: u8)
    ensures
        crc8_spec(data.push(b)) == 0 <==> b == crc8_spec(data),
{
    let c = crc8_spec(data);
    assert(data.push(b).drop_last() =~= data);
    lemma_crc8_shifts_zero(c ^ b, 8);
    assert((c ^ b) == 0 <==> b == c) by (bit_vector);
}

/// The frame check in the measurement cycle accepts exactly the frames whose
/// CRC over all seven bytes is zero.
pub proof fn lemma_frame_crc_check(raw: Seq<u8>)
    requires
        raw.len() == 7,
    ensures
        (crc8_spec(raw.subrange(0, 6)) == raw[6]) <==> crc8_spec(raw) == 0,
{
    assert(raw.subrange(0, 6).push(raw[6]) =~= raw);
    lemma_crc8_residue(raw.subrange(0, 6), raw[6]);
}

/// A bit step is one-to-one.
pub proof fn lemma_crc8_shift_injective(x: u8, y: u8)
    ensures
        crc8_shift(x) == crc8_shift(y) ==> x == y,
{
    assert((if x & 0x80 != 0 { ((x << 1u8) ^ 0x31u8) as u8 } else { (x << 1u8) as u8 }) == (if y
        & 0x80 != 0 {
        ((y << 1u8) ^ 0x31u8) as u8
    } else {
        (y << 1u8) as u8
    }) ==> x == y) by (bit_vector);
}

/// Bit steps are one-to-one.
pub proof fn lemma_crc8_shifts_injective(x: u8, y: u8, n: nat)
    ensures
        crc8_shifts(x, n) == crc8_shifts(y, n) ==> x == y,
    decreases n,
{
    if n > 0 {
        lemma_crc8_shift_injective(x, y);
        lemma_crc8_shifts_injective(crc8_shift(x), crc8_shift(y), (n - 1) as nat);
    }
}

/// Every single-bit corruption is detected: flipping bit `k` of byte `i`
/// changes the CRC.
pub proof fn lemma_crc8_detects_single_bit_errors(data: Seq<u8>, i: int, k: u8)
    requires
        0 <= i < data.len(),
        k < 8,
    ensures
        crc8_spec(data.update(i, data[i] ^ (1u8 << k))) != crc8_spec(data),
    decreases data.len(),
{
    let b = data[i];
    let flipped = data.update(i, b ^ (1u8 << k));
    let last = data.len() - 1;
    assert(flipped.len() == data.len());
    if i == last {
        assert(flipped.drop_last() =~= data.drop_last());
        let c = crc8_spec(data.drop_last());
        assert(c ^ (b ^ (1u8 << k)) != c ^ b) by (bit_vector)
            requires
                k < 8,
        ;
    } else {
        assert(flipped.drop_last() =~= data.drop_last().update(i, b ^ (1u8 << k)));
        lemma_crc8_detects_single_bit_errors(data.drop_last(), i, k);
        let c1 = crc8_spec(flipped.drop_last());
        let c2 = crc8_spec(data.drop_last());
        let l = data[last];
        assert(flipped.last() == l);
        assert(c1 != c2 ==> c1 ^ l != c2 ^ l) by (bit_vector);
    }
    lemma_crc8_shifts_injective(
        crc8_spec(flipped.drop_last()) ^ flipped.last(),
        crc8_spec(data.drop_last()) ^ data.last(),
        8,
    );
}

/// Whether two cycle states lead to the same actions: the same phase, and the
/// same poll count once polling has begun.
pub open spec fn same_course(a: MeasureCycle, b: MeasureCycle) -> bool {
    &&& a.phase == b.phase
    &&& (a.phase is Polling || a.phase is PollWaiting) ==> a.polls == b.polls
}

/// States on the same course answer the same events with the same actions.
pub proof fn lemma_same_course(a: MeasureCycle, b: MeasureCycle, events: Seq<Event>)
    requires
        same_course(a, b),
    ensures
        run(a, events).1 == run(b, events).1,
    decreases events.len(),
{
    if events.len() > 0 {
        let e = events[0];
        assert(next(a, e).1 == next(b, e).1);
        assert(same_course(next(a, e).0, next(b, e).0));
        lemma_same_course(next(a, e).0, next(b, e).0, events.drop_first());
    }
}

/// A measurement does not depend on how earlier cycles ended: every cycle in
/// the `Start` phase answers the same events with the same actions, outcome
/// included, as a fresh one.
pub proof fn lemma_history_independent(s: MeasureCycle, events: Seq<Event>)
    requires
        s.phase is Start,
    ensures
        run(s, events).1 == run(fresh_cycle(), events).1,
{
    lemma_same_course(s, fresh_cycle(), events);
}

/// The datasheet formulas, in terms of the frame bytes: temperature x 100 is
/// `floor(raw_t * 20000 / 2^20) - 5000` and humidity x 100 is
/// `floor(raw_h * 10000 / 2^20)`, where `raw_t` is the low 20 bits of bytes
/// 3..6 and `raw_h` the high 20 bits of bytes 1..4.
pub proof fn lemma_convert_formula(raw: Seq<u8>)
    requires
        raw.len() == 7,
    ensures
        convert_spec(raw).temperature_c_centi as int == ((raw[3] % 16) * 65536 + raw[4] * 256
            + raw[5]) * 20000 / 1048576 - 5000,
        convert_spec(raw).humidity_rh_centi as int == (raw[1] * 4096 + raw[2] * 16 + raw[3] / 16)
            * 10000 / 1048576,
{
    lemma_convert_ranges(raw);
}

/// Decoded values stay in the sensor's range: -50.00 to 149.99 degrees C and
/// 0 to 99.99 %RH, so the narrowing to `i16`/`u16` never wraps.
pub proof fn lemma_convert_ranges(raw: Seq<u8>)
    requires
        raw.len() == 7,
    ensures
        -5000 <= temperature_centi(raw) < 15000,
        0 <= humidity_centi(raw) < 10000,
{
    let t = raw_temperature(raw);
    let h = raw_humidity(raw);
    assert(0 <= t * 20000 / 1048576 < 20000) by (nonlinear_arith)
        requires
            0 <= t < 1048576,
    ;
    assert(0 <= h * 10000 / 1048576 < 10000) by (nonlinear_arith)
        requires
            0 <= h < 1048576,
    ;
}

/// A colder raw value never decodes warmer, and a drier one never decodes more
/// humid: both conversions are monotone in the raw fields.
pub proof fn lemma_convert_monotonic(a: Seq<u8>, b: Seq<u8>)
    requires
        a.len() == 7,
        b.len() == 7,
    ensures
        (a[3] % 16) * 65536 + a[4] * 256 + a[5] <= (b[3] % 16) * 65536 + b[4] * 256 + b[5]
            ==> convert_spec(a).temperature_c_centi <= convert_spec(b).temperature_c_centi,
        a[1] * 4096 + a[2] * 16 + a[3] / 16 <= b[1] * 4096 + b[2] * 16 + b[3] / 16
            ==> convert_spec(a).humidity_rh_centi <= convert_spec(b).humidity_rh_centi,
{
    lemma_convert_ranges(a);
    lemma_convert_ranges(b);
    let ta = (a[3] % 16) * 65536 + a[4] * 256 + a[5];
    let tb = (b[3] % 16) * 65536 + b[4] * 256 + b[5];
    let ha = a[1] * 4096 + a[2] * 16 + a[3] / 16;
    let hb = b[1] * 4096 + b[2] * 16 + b[3] / 16;
    assert(ta <= tb ==> ta * 20000 / 1048576 <= tb * 20000 / 1048576) by (nonlinear_arith)
        requires
            0 <= ta,
            0 <= tb,
    ;
    assert(ha <= hb ==> ha * 10000 / 1048576 <= hb * 10000 / 1048576) by (nonlinear_arith)
        requires
            0 <= ha,
            0 <= hb,
    ;
}

/// Sub-zero readings keep their sign: a raw temperature below 2^18 (a quarter
/// of full scale) decodes below 0.00 degrees C, and one at or above it decodes
/// at or above 0.00 degrees C.
pub proof fn lemma_convert_sign(raw: Seq<u8>)
    requires
        raw.len() == 7,
    ensures
        (raw[3] % 16) * 65536 + raw[4] * 256 + raw[5] < 262144 <==> convert_spec(
            raw,
        ).temperature_c_centi < 0,
{
    lemma_convert_ranges(raw);
    let t = (raw[3] % 16) * 65536 + raw[4] * 256 + raw[5];
    assert(t < 262144 <==> t * 20000 / 1048576 < 5000) by (nonlinear_arith)
        requires
            0 <= t,
    ;
}

/// The outcome decided when a cycle enters its shutdown phase is exactly the
/// one handed out next: from `ShuttingDown(r)`, the answer to the power-down
/// is `Done(r)`.
pub proof fn lemma_shutdown_hands_out(s: MeasureCycle, r: Result<Reading, Error>)
    requires
        s.phase == Phase::ShuttingDown(r),
    ensures
        next(s, Event::Ready).1 == Action::Done(r),
        next(s, Event::Ready).0.phase is Finished,
{
}

/// A ready frame decides the cycle: with a matching CRC the cycle powers down
/// and then hands out `Ok` of the decoded frame, with a mismatching one it
/// hands out `Err(Crc)`.
pub proof fn lemma_ready_frame_outcome(s: MeasureCycle, raw: [u8; 7])
    requires
        cycle_wf(s),
        s.phase is Polling,
        raw@[0] & 0x80u8 == 0,
    ensures
        next(s, Event::Frame(raw)).1 is PowerOff,
        crc8_spec(raw@.subrange(0, 6)) == raw@[6] ==> next(next(s, Event::Frame(raw)).0, Event::Ready).1
            == Action::Done(Ok(convert_spec(raw@))),
        crc8_spec(raw@.subrange(0, 6)) != raw@[6] ==> next(next(s, Event::Frame(raw)).0, Event::Ready).1
            == Action::Done(Err(Error::Crc)),
{
}

/// A failed transfer powers the sensor down and then hands out the failure:
/// `Timeout` for a timed-out transfer, `Bus(e)` for a bus fault `e`.
pub proof fn lemma_transfer_failure_outcome(s: MeasureCycle, e: Event)
    requires
        cycle_wf(s),
        transfer_pending(s.phase),
        e is BusFault || e is TimedOut,
    ensures
        next(s, e).1 is PowerOff,
        e is TimedOut ==> next(next(s, e).0, Event::Ready).1 == Action::Done(Err(Error::Timeout)),
        e is BusFault ==> next(next(s, e).0, Event::Ready).1 == Action::Done(Err(Error::Bus(e->BusFault_0))),
{
}

/// The CRC register starts at 0xFF, and each bit step doubles it, dropping
/// the top bit and folding in the polynomial 0x31 when that bit was set.
pub proof fn lemma_crc8_definition(x: u8)
    ensures
        crc8_spec(Seq::<u8>::empty()) == 0xFFu8,
        x < 128 ==> crc8_shift(x) as int == 2 * x,
        x >= 128 ==> crc8_shift(x) == ((2 * x - 256) as u8 ^ 0x31u8),
{
    assert(x < 128 ==> (x << 1u8) as u8 as int == 2 * x) by (bit_vector);
    assert(x >= 128 ==> ((x << 1u8) ^ 0x31u8) as u8 == ((2 * x - 256) as u8 ^ 0x31u8)) by (bit_vector);
    assert(x < 128 <==> x & 0x80 == 0) by (bit_vector);
}

/// The command sequence and its timing: the rail is raised only after the
/// power-down, the first command comes 100 ms after power-on, the soft reset
/// (0xBA) is followed by 20 ms, a status read follows, a status with bit 3
/// (calibrated) set leads straight to the measure command (0xAC 0x33 0x00),
/// one without it to the init command (0xBE 0x08 0x00), which is followed by
/// 10 ms and a second status read; the measure command is followed by 80 ms,
/// and a frame with bit 7 (busy) set by 10 ms before it is read again.
pub proof fn lemma_command_sequence(s: MeasureCycle, b: u8, raw: [u8; 7])
    requires
        cycle_wf(s),
    ensures
        s.phase is Start ==> next(s, Event::Ready).1 is PowerOff,
        s.phase is PoweringDown ==> next(s, Event::Ready).1 is PowerOn,
        s.phase is PoweringUp ==> next(s, Event::Ready).1 == Action::Delay(100),
        s.phase is Settling ==> next(s, Event::Ready).1 == Action::Write(Command::SoftReset)
            && command_bytes(Command::SoftReset) == seq![0xBAu8],
        s.phase is Resetting ==> next(s, Event::Ready).1 == Action::Delay(20),
        s.phase is ResetSettling ==> next(s, Event::Ready).1 is ReadStatus,
        s.phase is CheckingStatus && b & 0x08u8 != 0 ==> next(s, Event::Status(b)).1
            == Action::Write(Command::Measure),
        s.phase is CheckingStatus && b & 0x08u8 == 0 ==> next(s, Event::Status(b)).1
            == Action::Write(Command::Init),
        command_bytes(Command::Init) == seq![0xBEu8, 0x08u8, 0x00u8],
        command_bytes(Command::Measure) == seq![0xACu8, 0x33u8, 0x00u8],
        s.phase is Initializing ==> next(s, Event::Ready).1 == Action::Delay(10),
        s.phase is InitSettling ==> next(s, Event::Ready).1 is ReadStatus,
        s.phase is RecheckingStatus && b & 0x08u8 != 0 ==> next(s, Event::Status(b)).1
            == Action::Write(Command::Measure),
        s.phase is RecheckingStatus && b & 0x08u8 == 0 ==> next(
            next(s, Event::Status(b)).0,
            Event::Ready,
        ).1 == Action::Done(Err(Error::Uncalibrated)),
        s.phase is Triggering ==> next(s, Event::Ready).1 == Action::Delay(80),
        s.phase is Converting ==> next(s, Event::Ready).1 is ReadFrame,
        s.phase is Polling && raw@[0] & 0x80u8 != 0 ==> next(s, Event::Frame(raw)).1
            == Action::Delay(10),
        s.phase is PollWaiting && s.polls < 10 ==> next(s, Event::Ready).1 is ReadFrame,
        s.phase is PollWaiting && s.polls >= 10 ==> next(next(s, Event::Ready).0, Event::Ready).1
            == Action::Done(Err(Error::StillBusy)),
{
}

} // verus!
