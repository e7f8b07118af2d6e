//! Decision logic of the bench bring-up diagnostic: the I2C address sweep, its
//! report line, the rail-polarity verdict, the probe tally, and the `dfu`
//! reboot request detection.
use vstd::prelude::*;

verus! {

/// First 7-bit address of the sweep.
pub const SCAN_FIRST: u8 = 0x08;

/// Last 7-bit address of the sweep.
pub const SCAN_LAST: u8 = 0x77;

/// Number of addresses in the sweep.
pub const SCAN_LEN: u8 = 112;

/// Consecutive timeouts (with nothing found) after which the bus is dead.
pub const DEAD_BUS_TIMEOUTS: u8 = 4;

/// The AHT20's address.
pub const AHT20_ADDR: u8 = 0x38;

/// How one bounded 1-byte read at an address ended.
#[derive(Clone, Copy, Debug, PartialEq, Eq, Structural)]
pub enum Probe {
    /// The read completed: a device answered.
    Responded,
    /// No ACK after the address byte: nobody home.
    AddressNack,
    /// The address was ACKed but the data phase failed: still a live device.
    DataError,
    /// The read did not finish within its time budget.
    TimedOut,
}

/// Result of one I2C address sweep.
#[derive(Clone, Copy, Debug, PartialEq, Eq, Structural)]
pub struct ScanResult {
    /// Number of addresses that ACKed.
    pub count: u8,
    /// Whether the AHT20's address (0x38) answered.
    pub found_aht: bool,
    /// The bus appeared inactive (lines never released high).
    pub bus_dead: bool,
}

/// Whether a probe shows a live device at the address.
pub open spec fn responds(p: Probe) -> bool {
    p is Responded || p is DataError
}

/// Number of live devices among the probes.
pub open spec fn responder_count(h: Seq<Probe>) -> nat
    decreases h.len(),
{
    if h.len() == 0 {
        0
    } else {
        responder_count(h.drop_last()) + if responds(h.last()) {
            1nat
        } else {
            0nat
        }
    }
}

/// Number of timeouts at the end of the probes.
pub open spec fn trailing_timeouts(h: Seq<Probe>) -> nat
    decreases h.len(),
{
    if h.len() == 0 {
        0
    } else if h.last() is TimedOut {
        trailing_timeouts(h.drop_last()) + 1
    } else {
        0
    }
}

/// Whether the AHT20's address answered; probe `i` went to address `0x08 + i`.
pub open spec fn aht_found(h: Seq<Probe>) -> bool {
    h.len() > AHT20_ADDR - SCAN_FIRST && responds(h[AHT20_ADDR - SCAN_FIRST])
}

/// Nothing answered and the last four probes timed out.
pub open spec fn bus_dead(h: Seq<Probe>) -> bool {
    responder_count(h) == 0 && trailing_timeouts(h) >= DEAD_BUS_TIMEOUTS
}

/// The sweep stops after these probes: the bus is dead or every address is done.
pub open spec fn scan_finished(h: Seq<Probe>) -> bool {
    bus_dead(h) || h.len() == SCAN_LEN
}

/// The result a finished sweep reports.
pub open spec fn scan_summary(h: Seq<Probe>) -> ScanResult {
    ScanResult {
        count: responder_count(h) as u8,
        found_aht: aht_found(h),
        bus_dead: bus_dead(h),
    }
}

/// A sweep over addresses 0x08..=0x77 in progress.
pub struct Scan {
    addr: u8,
    count: u8,
    found_aht: bool,
    consec_timeouts: u8,
    probed: Ghost<Seq<Probe>>,
}

/// What a sweep does after a probe.
pub enum ScanStep {
    /// Probe the next address.
    Next(Scan),
    /// The sweep is over with this result.
    Finished(ScanResult),
}

proof fn lemma_counts_bounded(h: Seq<Probe>)
    ensures
        responder_count(h) <= h.len(),
        trailing_timeouts(h) <= h.len(),
    decreases h.len(),
{
    if h.len() > 0 {
        lemma_counts_bounded(h.drop_last());
    }
}

impl Scan {
    /// The probes made so far, in address order.
    pub closed spec fn probed(&self) -> Seq<Probe> {
        self.probed@
    }

    #[verifier::type_invariant]
    closed spec fn inv(&self) -> bool {
        let h = self.probed@;
        &&& h.len() < SCAN_LEN
        &&& self.addr == SCAN_FIRST + h.len()
        &&& self.count == responder_count(h)
        &&& self.found_aht == aht_found(h)
        &&& self.consec_timeouts == trailing_timeouts(h)
        &&& !bus_dead(h)
    }

    /// A sweep that has probed nothing yet.
    pub fn new() -> (s: Self)
        ensures
            s.probed() == Seq::<Probe>::empty(),
    {
        Scan { addr: SCAN_FIRST, count: 0, found_aht: false, consec_timeouts: 0, probed: Ghost(Seq::empty()) }
    }

    /// The address to probe next.
    pub fn address(&self) -> (a: u8)
        ensures
            a == SCAN_FIRST + self.probed().len(),
            SCAN_FIRST <= a <= SCAN_LAST,
    {
        proof {
            use_type_invariant(self);
        }
        self.addr
    }

    /// Record how the probe at `self.address()` ended.
    pub fn record(self, outcome: Probe) -> (r: ScanStep)
        ensures
            match r {
                ScanStep::Next(s) => s.probed() == self.probed().push(outcome)
                    && !scan_finished(s.probed()),
                ScanStep::Finished(res) => scan_finished(self.probed().push(outcome))
                    && res == scan_summary(self.probed().push(outcome)),
            },
    {
        proof {
            use_type_invariant(&self);
        }
        let ghost h = self.probed@.push(outcome);
        proof {
            assert(h.drop_last() =~= self.probed@);
            lemma_counts_bounded(self.probed@);
            if self.probed@.len() > AHT20_ADDR - SCAN_FIRST {
                assert(h[AHT20_ADDR - SCAN_FIRST] == self.probed@[AHT20_ADDR - SCAN_FIRST]);
            }
        }
        let addr = self.addr;
        let mut count = self.count;
        let mut found_aht = self.found_aht;
        let mut consec_timeouts = self.consec_timeouts;
        match outcome {
            Probe::Responded | Probe::DataError => {
                count = count + 1;
                if addr == AHT20_ADDR {
                    found_aht = true;
                }
                consec_timeouts = 0;
            },
            Probe::AddressNack => {
                consec_timeouts = 0;
            },
            Probe::TimedOut => {
                consec_timeouts = consec_timeouts + 1;
                if count == 0 && consec_timeouts >= DEAD_BUS_TIMEOUTS {
                    return ScanStep::Finished(ScanResult { count, found_aht, bus_dead: true });
                }
            },
        }
        if addr == SCAN_LAST {
            ScanStep::Finished(ScanResult { count, found_aht, bus_dead: false })
        } else {
            ScanStep::Next(Scan { addr: addr + 1, count, found_aht, consec_timeouts, probed: Ghost(h) })
        }
    }
}

/// A sweep reports a dead bus only when nothing answered and its last four
/// probes timed out; a dead bus reports no devices and no AHT20; a sweep never
/// probes more than 112 addresses, and its count never exceeds its probes.
pub proof fn lemma_scan_summary(h: Seq<Probe>)
    requires
        h.len() <= SCAN_LEN,
    ensures
        scan_summary(h).count as nat == responder_count(h),
        responder_count(h) <= h.len(),
        scan_summary(h).bus_dead ==> scan_summary(h).count == 0 && !scan_summary(h).found_aht,
        scan_summary(h).bus_dead ==> h.len() >= 4 && h[h.len() - 1] is TimedOut
            && h[h.len() - 2] is TimedOut && h[h.len() - 3] is TimedOut
            && h[h.len() - 4] is TimedOut,
        scan_summary(h).found_aht ==> scan_summary(h).count >= 1,
{
    lemma_counts_bounded(h);
    if bus_dead(h) {
        lemma_trailing_timeouts(h, 4);
    }
    if aht_found(h) {
        lemma_responder_at(h, (AHT20_ADDR - SCAN_FIRST) as int);
    }
}

/// The last `k` probes time out when `k` trailing timeouts were counted.
proof fn lemma_trailing_timeouts(h: Seq<Probe>, k: nat)
    requires
        k <= trailing_timeouts(h),
    ensures
        k <= h.len(),
        forall|j: int| h.len() - k <= j < h.len() ==> h[j] is TimedOut,
    decreases h.len(),
{
    lemma_counts_bounded(h);
    if k > 0 {
        lemma_trailing_timeouts(h.drop_last(), (k - 1) as nat);
        assert forall|j: int| h.len() - k <= j < h.len() implies h[j] is TimedOut by {
            if j < h.len() - 1 {
                assert(h[j] == h.drop_last()[j]);
            }
        }
    }
}

/// A live device among the probes counts.
proof fn lemma_responder_at(h: Seq<Probe>, i: int)
    requires
        0 <= i < h.len(),
        responds(h[i]),
    ensures
        responder_count(h) >= 1,
    decreases h.len(),
{
    if i < h.len() - 1 {
        assert(h.drop_last()[i] == h[i]);
        lemma_responder_at(h.drop_last(), i);
    }
}


/// The character of a decimal digit.
pub open spec fn digit_char(d: nat) -> char {
    (48 + d) as char
}

/// Decimal representation of `n`, without leading zeros.
pub open spec fn decimal(n: nat) -> Seq<char>
    decreases n,
{
    if n < 10 {
        seq![digit_char(n)]
    } else {
        decimal(n / 10).push(digit_char(n % 10))
    }
}

/// The number a string of decimal digits stands for.
pub open spec fn decimal_value(s: Seq<char>) -> int
    decreases s.len(),
{
    if s.len() == 0 {
        0
    } else {
        decimal_value(s.drop_last()) * 10 + (s.last() as int - 48)
    }
}

/// The decimal rendering is made of digits only, never starts with a zero
/// unless it is "0", and reads back as the number rendered.
pub proof fn lemma_decimal_value(n: nat)
    ensures
        decimal(n).len() >= 1,
        forall|j: int| 0 <= j < decimal(n).len() ==> '0' <= #[trigger] decimal(n)[j] <= '9',
        decimal_value(decimal(n)) == n,
        n >= 10 ==> decimal(n)[0] != '0',
    decreases n,
{
    if n >= 10 {
        lemma_decimal_value(n / 10);
        let d = decimal(n);
        assert(d.drop_last() =~= decimal(n / 10));
        assert(d.last() == digit_char(n % 10));
        assert(digit_char(n % 10) as int == 48 + n % 10);
        assert(decimal_value(d) == (n / 10) * 10 + n % 10);
        assert forall|j: int| 0 <= j < d.len() implies '0' <= #[trigger] d[j] <= '9' by {
            if j < d.len() - 1 {
                assert(d[j] == decimal(n / 10)[j]);
            }
        }
        if n / 10 >= 10 {
            assert(d[0] == decimal(n / 10)[0]);
        } else {
            assert(d[0] == decimal(n / 10)[0]);
        }
    } else {
        assert(decimal(n).drop_last() =~= Seq::<char>::empty());
        assert(digit_char(n) as int == 48 + n);
        assert(decimal_value(Seq::<char>::empty()) == 0);
        assert(decimal_value(decimal(n)) == decimal_value(decimal(n).drop_last()) * 10 + (
        decimal(n).last() as int - 48));
    }
}

/// The one-character string of a decimal digit.
fn digit_str(d: u8) -> (s: &'static str)
    requires
        d < 10,
    ensures
        s@ == seq![digit_char(d as nat)],
{
    proof {
        reveal_strlit("0");
        reveal_strlit("1");
        reveal_strlit("2");
        reveal_strlit("3");
        reveal_strlit("4");
        reveal_strlit("5");
        reveal_strlit("6");
        reveal_strlit("7");
        reveal_strlit("8");
        reveal_strlit("9");
    }
    let s = match d {
        0 => "0",
        1 => "1",
        2 => "2",
        3 => "3",
        4 => "4",
        5 => "5",
        6 => "6",
        7 => "7",
        8 => "8",
        _ => "9",
    };
    assert(s@ =~= seq![digit_char(d as nat)]);
    s
}

/// Append the decimal representation of `n` to `out`.
pub fn push_decimal(out: &mut String, n: u8)
    ensures
        final(out)@ == old(out)@ + decimal(n as nat),
{
    let ghost start = out@;
    let ghost m = n as nat;
    if n >= 100 {
        out.append(digit_str(n / 100));
        out.append(digit_str((n / 10) % 10));
        out.append(digit_str(n % 10));
        proof {
            assert(decimal(m / 100) == seq![digit_char(m / 100)]);
            assert(decimal(m / 10) == decimal(m / 100).push(digit_char((m / 10) % 10)));
            assert(decimal(m) == decimal(m / 10).push(digit_char(m % 10)));
            assert(out@ =~= start + decimal(m));
        }
    } else if n >= 10 {
        out.append(digit_str(n / 10));
        out.append(digit_str(n % 10));
        proof {
            assert(decimal(m / 10) == seq![digit_char(m / 10)]);
            assert(decimal(m) == decimal(m / 10).push(digit_char(m % 10)));
            assert(out@ =~= start + decimal(m));
        }
    } else {
        out.append(digit_str(n));
        proof {
            assert(out@ =~= start + decimal(m));
        }
    }
}


/// The report line of one sweep made with the rail pin at `state`.
pub open spec fn scan_report(state: Seq<char>, r: ScanResult) -> Seq<char> {
    if r.bus_dead {
        "  P0.13="@ + state
            + ": I\u{b2}C bus inactive (lines not pulled up \u{21d2} rail OFF in this state)"@
    } else {
        "  P0.13="@ + state + ": "@ + decimal(r.count as nat) + " responder(s); AHT20(0x38) "@ + (
        if r.found_aht {
            "PRESENT"@
        } else {
            "absent"@
        })
    }
}

/// The report line of one sweep made with the rail pin at `state`.
pub fn report_scan(state: &str, r: &ScanResult) -> (line: String)
    ensures
        line@ == scan_report(state@, *r),
        r.bus_dead ==> line@ == "  P0.13="@ + state@
            + ": I\u{b2}C bus inactive (lines not pulled up \u{21d2} rail OFF in this state)"@,
        !r.bus_dead && r.found_aht ==> line@ == "  P0.13="@ + state@ + ": "@ + decimal(
            r.count as nat,
        ) + " responder(s); AHT20(0x38) PRESENT"@,
        !r.bus_dead && !r.found_aht ==> line@ == "  P0.13="@ + state@ + ": "@ + decimal(
            r.count as nat,
        ) + " responder(s); AHT20(0x38) absent"@,
{
    let mut line = String::from_str("  P0.13=");
    line.append(state);
    if r.bus_dead {
        line.append(": I\u{b2}C bus inactive (lines not pulled up \u{21d2} rail OFF in this state)");
    } else {
        line.append(": ");
        push_decimal(&mut line, r.count);
        line.append(" responder(s); AHT20(0x38) ");
        if r.found_aht {
            line.append("PRESENT");
        } else {
            line.append("absent");
        }
    }
    proof {
        reveal_strlit(" responder(s); AHT20(0x38) ");
        reveal_strlit("PRESENT");
        reveal_strlit("absent");
        reveal_strlit(" responder(s); AHT20(0x38) PRESENT");
        reveal_strlit(" responder(s); AHT20(0x38) absent");
        let head = "  P0.13="@ + state@ + ": "@ + decimal(r.count as nat);
        assert(head + " responder(s); AHT20(0x38) "@ + "PRESENT"@ =~= head
            + " responder(s); AHT20(0x38) PRESENT"@);
        assert(head + " responder(s); AHT20(0x38) "@ + "absent"@ =~= head
            + " responder(s); AHT20(0x38) absent"@);
    }
    line
}


/// What the two sweeps say about which level of the rail pin powers the rail.
#[derive(Clone, Copy, Debug, PartialEq, Eq, Structural)]
pub enum RailPolarity {
    /// The AHT20 answered only with the pin HIGH: the rail is on when HIGH.
    OnWhenHigh,
    /// The AHT20 answered only with the pin LOW: the rail is on when LOW.
    OnWhenLow,
    /// It answered in both states: the pull-ups are likely not on the gated rail.
    Both,
    /// It answered in neither state: the sensor is not responding.
    Neither,
}

/// The polarity verdict from whether the AHT20 answered with the pin HIGH and LOW.
pub open spec fn polarity_spec(found_high: bool, found_low: bool) -> RailPolarity {
    if found_high && !found_low {
        RailPolarity::OnWhenHigh
    } else if !found_high && found_low {
        RailPolarity::OnWhenLow
    } else if found_high {
        RailPolarity::Both
    } else {
        RailPolarity::Neither
    }
}

/// The polarity verdict from the sweeps with the rail pin HIGH and LOW.
pub fn rail_polarity(high: &ScanResult, low: &ScanResult) -> (p: RailPolarity)
    ensures
        p == polarity_spec(high.found_aht, low.found_aht),
        (p == RailPolarity::OnWhenHigh) <==> (high.found_aht && !low.found_aht),
        (p == RailPolarity::OnWhenLow) <==> (!high.found_aht && low.found_aht),
        (p == RailPolarity::Both) <==> (high.found_aht && low.found_aht),
        (p == RailPolarity::Neither) <==> (!high.found_aht && !low.found_aht),
{
    match (high.found_aht, low.found_aht) {
        (true, false) => RailPolarity::OnWhenHigh,
        (false, true) => RailPolarity::OnWhenLow,
        (true, true) => RailPolarity::Both,
        (false, false) => RailPolarity::Neither,
    }
}

/// Counts of how repeated probes of one address ended.
#[derive(Clone, Copy, Debug, PartialEq, Eq, Structural)]
pub struct ProbeTally {
    /// Reads that completed.
    pub ok: u16,
    /// Reads with no ACK after the address.
    pub nack: u16,
    /// Reads that timed out.
    pub timeout: u16,
    /// Reads that failed otherwise.
    pub other: u16,
}

impl ProbeTally {
    /// All counts zero.
    pub fn new() -> (t: Self)
        ensures
            t == (ProbeTally { ok: 0, nack: 0, timeout: 0, other: 0 }),
    {
        ProbeTally { ok: 0, nack: 0, timeout: 0, other: 0 }
    }

    /// Count one probe outcome.
    pub fn record(&mut self, outcome: Probe)
        requires
            outcome is Responded ==> old(self).ok < u16::MAX,
            outcome is AddressNack ==> old(self).nack < u16::MAX,
            outcome is TimedOut ==> old(self).timeout < u16::MAX,
            outcome is DataError ==> old(self).other < u16::MAX,
        ensures
            final(self).ok == old(self).ok + if outcome is Responded { 1int } else { 0int },
            final(self).nack == old(self).nack + if outcome is AddressNack { 1int } else { 0int },
            final(self).timeout == old(self).timeout + if outcome is TimedOut { 1int } else { 0int },
            final(self).other == old(self).other + if outcome is DataError { 1int } else { 0int },
    {
        match outcome {
            Probe::Responded => self.ok = self.ok + 1,
            Probe::AddressNack => self.nack = self.nack + 1,
            Probe::TimedOut => self.timeout = self.timeout + 1,
            Probe::DataError => self.other = self.other + 1,
        }
    }
}

/// The bytes of the reboot-to-bootloader request, `dfu`.
pub open spec fn dfu_bytes() -> Seq<u8> {
    seq![0x64u8, 0x66u8, 0x75u8]
}

/// Whether `data` holds `dfu` somewhere.
pub open spec fn holds_dfu(data: Seq<u8>) -> bool {
    exists|i: int| 0 <= i && i + 3 <= data.len() && #[trigger] data.subrange(i, i + 3) == dfu_bytes()
}

/// `dfu` at offset `i` is exactly the three bytes `d`, `f`, `u` there.
proof fn lemma_dfu_at(data: Seq<u8>, i: int)
    requires
        0 <= i,
        i + 3 <= data.len(),
    ensures
        data.subrange(i, i + 3) == dfu_bytes() <==> (data[i] == 0x64u8 && data[i + 1] == 0x66u8
            && data[i + 2] == 0x75u8),
{
    let w = data.subrange(i, i + 3);
    assert(w[0] == data[i] && w[1] == data[i + 1] && w[2] == data[i + 2]);
    if data[i] == 0x64u8 && data[i + 1] == 0x66u8 && data[i + 2] == 0x75u8 {
        assert(w =~= dfu_bytes());
    }
}

/// `dfu` is found at every offset: the request holds exactly when some three
/// consecutive bytes are `d`, `f`, `u`.
pub proof fn lemma_holds_dfu_bytes(data: Seq<u8>)
    ensures
        holds_dfu(data) <==> exists|i: int|
            0 <= i && i + 3 <= data.len() && #[trigger] data[i] == 0x64u8 && data[i + 1] == 0x66u8
                && data[i + 2] == 0x75u8,
{
    if holds_dfu(data) {
        let i = choose|i: int| 0 <= i && i + 3 <= data.len() && #[trigger] data.subrange(i, i + 3)
            == dfu_bytes();
        lemma_dfu_at(data, i);
        assert(data[i] == 0x64u8);
    }
    if exists|i: int|
        0 <= i && i + 3 <= data.len() && #[trigger] data[i] == 0x64u8 && data[i + 1] == 0x66u8
            && data[i + 2] == 0x75u8 {
        let i = choose|i: int|
            0 <= i && i + 3 <= data.len() && #[trigger] data[i] == 0x64u8 && data[i + 1] == 0x66u8
                && data[i + 2] == 0x75u8;
        lemma_dfu_at(data, i);
        assert(data.subrange(i, i + 3) == dfu_bytes());
    }
}

/// A request is seen wherever it starts: prepending any byte keeps it, and
/// it is found at any offset at which the bytes `dfu` stand.
pub proof fn lemma_dfu_any_offset(data: Seq<u8>, x: u8, i: int)
    ensures
        holds_dfu(data) ==> holds_dfu(seq![x] + data),
        0 <= i && i + 3 <= data.len() && data[i] == 0x64u8 && data[i + 1] == 0x66u8 && data[i + 2]
            == 0x75u8 ==> holds_dfu(data),
{
    lemma_holds_dfu_bytes(data);
    lemma_holds_dfu_bytes(seq![x] + data);
    if holds_dfu(data) {
        let j = choose|j: int|
            0 <= j && j + 3 <= data.len() && #[trigger] data[j] == 0x64u8 && data[j + 1] == 0x66u8
                && data[j + 2] == 0x75u8;
        let p = seq![x] + data;
        assert(p[j + 1] == data[j] && p[j + 2] == data[j + 1] && p[j + 3] == data[j + 2]);
    }
    if 0 <= i && i + 3 <= data.len() && data[i] == 0x64u8 && data[i + 1] == 0x66u8 && data[i + 2]
        == 0x75u8 {
        assert(data[i] == 0x64u8);
    }
}

/// Whether received console data asks for a reboot into the bootloader.
pub fn is_dfu_request(data: &[u8]) -> (b: bool)
    ensures
        b == holds_dfu(data@),
        b <==> exists|i: int|
            0 <= i && i + 3 <= data@.len() && #[trigger] data@[i] == 0x64u8 && data@[i + 1] == 0x66u8
                && data@[i + 2] == 0x75u8,
{
    proof {
        lemma_holds_dfu_bytes(data@);
    }
    if data.len() < 3 {
        proof {
            assert forall|i: int| 0 <= i && i + 3 <= data@.len() implies #[trigger] data@.subrange(i, i + 3)
                != dfu_bytes() by {}
        }
        return false;
    }
    let mut i: usize = 0;
    let last: usize = data.len() - 2;
    while i < last
        invariant
            last == data.len() - 2,
            i <= last,
            forall|j: int| 0 <= j < i ==> #[trigger] data@.subrange(j, j + 3) != dfu_bytes(),
        decreases last - i,
    {
        if data[i] == 0x64 && data[i + 1] == 0x66 && data[i + 2] == 0x75 {
            proof {
                assert(data@.subrange(i as int, i + 3) =~= dfu_bytes());
            }
            return true;
        }
        proof {
            assert(data@.subrange(i as int, i + 3)[0] == data@[i as int]);
            assert(data@.subrange(i as int, i + 3)[1] == data@[i + 1]);
            assert(data@.subrange(i as int, i + 3)[2] == data@[i + 2]);
        }
        i = i + 1;
    }
    false
}

} // verus!
