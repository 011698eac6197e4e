//! Telemetry state and what each collection step makes of the sensor text it
//! is handed: hwmon readings, `amdgpu_pm_info`, `amdgpu_gem_info`, and the
//! memory clock with its DRI fallback.
//!
//! Readings are kept in the units the kernel reports them in (millidegrees
//! Celsius, microwatts); the display converts them.

use vstd::prelude::*;
use crate::text::{
    all_ws, decimal, lemma_decimal, lemma_first_word, lemma_trim_around, lemma_words_cons,
    lemma_words_single, occurs_at, unsigned_digits,
    has_infix, has_prefix, has_suffix, lines, next_line, next_word, parse_u32, parse_u32_span,
    parse_u64, parse_u64_span, span_contains, span_ends_with, span_equals, span_starts_with,
    span_strip_all_prefix, span_strip_trailing, strip_all_prefix, strip_trailing, substring,
    to_chars, trim, trim_span, words,
};

verus! {

/// A process that holds GPU memory, as `amdgpu_gem_info` lists it.
pub struct GemClient {
    pub pid: u32,
    pub command: String,
}

impl DeepView for GemClient {
    type V = (u32, Seq<char>);

    open spec fn deep_view(&self) -> (u32, Seq<char>) {
        (self.pid, self.command@)
    }
}

/// The latest values of every sensor the dashboard shows.
pub struct TelemetryData {
    /// Edge temperature, millidegrees Celsius (`temp1_input`).
    pub edge_temp_mc: u64,
    /// Average power, microwatts (`power1_average`, else `power1_input`).
    pub power_avg_uw: u64,
    /// Shader clock, MHz (`freq1_input`).
    pub sclk_mhz: u64,
    /// Graphics core voltage, mV (`in0_input`).
    pub vddgfx_mv: u64,
    /// Northbridge voltage, mV (`in1_input`), where the card has one.
    pub vddnb_mv: Option<u64>,
    /// Junction temperature, millidegrees Celsius (`temp2_input`).
    pub junction_temp_mc: Option<u64>,
    /// Memory temperature, millidegrees Celsius (`temp3_input`).
    pub memory_temp_mc: Option<u64>,
    /// Fan speed, RPM (`fan1_input`).
    pub fan_rpm: Option<u64>,
    /// GPU load, percent (`amdgpu_pm_info`).
    pub gpu_load_pct: u64,
    /// Video codec load, percent (`amdgpu_pm_info`).
    pub vcn_load_pct: u64,
    /// Processes holding GPU memory (`amdgpu_gem_info`).
    pub gem_clients: Vec<GemClient>,
    /// Memory clock, MHz (`freq2_input`, else `amdgpu_pm_info`).
    pub mclk_mhz: u64,
    /// The errors of the latest collection round.
    pub last_errors: Vec<String>,
}

/// All readings zero, absent or empty.
pub open spec fn is_blank(d: TelemetryData) -> bool {
    &&& d.edge_temp_mc == 0
    &&& d.power_avg_uw == 0
    &&& d.sclk_mhz == 0
    &&& d.vddgfx_mv == 0
    &&& d.vddnb_mv is None
    &&& d.junction_temp_mc is None
    &&& d.memory_temp_mc is None
    &&& d.fan_rpm is None
    &&& d.gpu_load_pct == 0
    &&& d.vcn_load_pct == 0
    &&& d.gem_clients@.len() == 0
    &&& d.mclk_mhz == 0
    &&& d.last_errors@.len() == 0
}

impl Default for TelemetryData {
    fn default() -> (d: Self)
        ensures
            is_blank(d),
    {
        TelemetryData {
            edge_temp_mc: 0,
            power_avg_uw: 0,
            sclk_mhz: 0,
            vddgfx_mv: 0,
            vddnb_mv: None,
            junction_temp_mc: None,
            memory_temp_mc: None,
            fan_rpm: None,
            gpu_load_pct: 0,
            vcn_load_pct: 0,
            gem_clients: Vec::new(),
            mclk_mhz: 0,
            last_errors: Vec::new(),
        }
    }
}

/// The card being watched and what was last read from it.
pub struct GpuTelemetry {
    pub gpu_name: String,
    pub data: TelemetryData,
}

// ---------------------------------------------------------------------------
// Single values
// ---------------------------------------------------------------------------

/// The first white-space separated word of `s`, read as a `u64`.
pub open spec fn first_u64(s: Seq<char>) -> Option<u64> {
    if words(s).len() > 0 {
        parse_u64(words(s)[0])
    } else {
        None
    }
}

/// The first word of `v[lo..hi]` read as a `u64`.
fn first_u64_span(v: &Vec<char>, lo: usize, hi: usize) -> (r: Option<u64>)
    requires
        lo <= hi <= v.len(),
    ensures
        r == first_u64(v@.subrange(lo as int, hi as int)),
{
    match next_word(v, lo, hi) {
        None => None,
        Some((a, b)) => {
            let r = parse_u64_span(v, a, b);
            r
        },
    }
}

/// A clock in MHz: the first word of `line` as a `u64`.
pub fn parse_mhz(line: &str) -> (r: Option<u64>)
    ensures
        r == first_u64(line@),
{
    let v = to_chars(line);
    assert(v@.subrange(0, v.len() as int) =~= line@);
    first_u64_span(&v, 0, v.len())
}

/// A load in percent: the first word of `line` as a `u64`.
pub fn parse_pct(line: &str) -> (r: Option<u64>)
    ensures
        r == first_u64(line@),
{
    let v = to_chars(line);
    assert(v@.subrange(0, v.len() as int) =~= line@);
    first_u64_span(&v, 0, v.len())
}

/// The first white-space separated word of `line`, if it has one.
pub fn first_word(line: &str) -> (r: Option<String>)
    ensures
        match r {
            None => words(line@).len() == 0,
            Some(w) => words(line@).len() > 0 && w@ == words(line@)[0],
        },
{
    let v = to_chars(line);
    assert(v@.subrange(0, v.len() as int) =~= line@);
    match next_word(&v, 0, v.len()) {
        None => None,
        Some((a, b)) => Some(substring(line, a, b)),
    }
}

/// The value in a sensor file: its text, trimmed, read as a `u64`.
pub fn parse_sensor_value(raw: &str) -> (r: Option<u64>)
    ensures
        r == parse_u64(trim(raw@)),
{
    let v = to_chars(raw);
    assert(v@.subrange(0, v.len() as int) =~= raw@);
    let (a, b) = trim_span(&v, 0, v.len());
    parse_u64_span(&v, a, b)
}

// ---------------------------------------------------------------------------
// hwmon
// ---------------------------------------------------------------------------

/// What each hwmon sensor file held, read as `parse_sensor_value` reads it;
/// `None` for a file that is missing, unreadable or not a number.
pub struct HwmonReadings {
    pub temp1_input: Option<u64>,
    pub power1_average: Option<u64>,
    pub power1_input: Option<u64>,
    pub freq1_input: Option<u64>,
    pub in0_input: Option<u64>,
    pub in1_input: Option<u64>,
    pub temp2_input: Option<u64>,
    pub temp3_input: Option<u64>,
    pub fan1_input: Option<u64>,
}

/// A sensor that the dashboard cannot do without was not read.
pub enum HwmonError {
    /// `temp1_input`
    MissingEdgeTemp,
    /// both `power1_average` and `power1_input`
    MissingPower,
    /// `freq1_input`
    MissingShaderClock,
    /// `in0_input`
    MissingVddgfx,
}

/// The power reading: the average where there is one, else the instantaneous one.
pub open spec fn power_reading(r: HwmonReadings) -> Option<u64> {
    match r.power1_average {
        Some(p) => Some(p),
        None => r.power1_input,
    }
}

/// The first required sensor, in the order they are read, that is missing.
pub open spec fn hwmon_error(r: HwmonReadings) -> Option<HwmonError> {
    if r.temp1_input is None {
        Some(HwmonError::MissingEdgeTemp)
    } else if power_reading(r) is None {
        Some(HwmonError::MissingPower)
    } else if r.freq1_input is None {
        Some(HwmonError::MissingShaderClock)
    } else if r.in0_input is None {
        Some(HwmonError::MissingVddgfx)
    } else {
        None
    }
}

/// `d` after a hwmon round with readings `r`: the required sensors are stored
/// in order up to the first that is missing; the optional ones only when all
/// required ones were there.
pub open spec fn hwmon_update(d: TelemetryData, r: HwmonReadings) -> TelemetryData {
    match r.temp1_input {
        None => d,
        Some(t) => {
            let d1 = TelemetryData { edge_temp_mc: t, ..d };
            match power_reading(r) {
                None => d1,
                Some(p) => {
                    let d2 = TelemetryData { power_avg_uw: p, ..d1 };
                    match r.freq1_input {
                        None => d2,
                        Some(f) => {
                            let d3 = TelemetryData { sclk_mhz: f / 1_000_000, ..d2 };
                            match r.in0_input {
                                None => d3,
                                Some(g) => TelemetryData {
                                    vddgfx_mv: g,
                                    vddnb_mv: r.in1_input,
                                    junction_temp_mc: r.temp2_input,
                                    memory_temp_mc: r.temp3_input,
                                    fan_rpm: r.fan1_input,
                                    ..d3
                                },
                            }
                        },
                    }
                },
            }
        },
    }
}

// ---------------------------------------------------------------------------
// amdgpu_pm_info
// ---------------------------------------------------------------------------

/// What a trimmed line of `amdgpu_pm_info` reports, tested in this order.
pub enum PmLineKind {
    /// ends with `(SCLK)`
    ShaderClock,
    /// contains `current SoC including CPU`
    SocPower,
    /// starts with `GPU Load:`
    GpuLoad,
    /// starts with `VCN Load:`
    VcnLoad,
    /// anything else
    Other,
}

/// The kind of the trimmed line `t`.
pub open spec fn pm_line_kind(t: Seq<char>) -> PmLineKind {
    if has_suffix(t, "(SCLK)"@) {
        PmLineKind::ShaderClock
    } else if has_infix(t, "current SoC including CPU"@) {
        PmLineKind::SocPower
    } else if has_prefix(t, "GPU Load:"@) {
        PmLineKind::GpuLoad
    } else if has_prefix(t, "VCN Load:"@) {
        PmLineKind::VcnLoad
    } else {
        PmLineKind::Other
    }
}

/// The load on a trimmed line `t` that carries `label`: the first word after
/// the label, read as a `u64`.
pub open spec fn load_reading(t: Seq<char>, label: Seq<char>) -> Option<u64> {
    first_u64(trim(strip_all_prefix(t, label)))
}

/// The load after reading the lines `ls` from `old`: each line of `kind` whose
/// reading is a number replaces it; the last such line wins.
pub open spec fn load_after(ls: Seq<Seq<char>>, kind: PmLineKind, label: Seq<char>, old: u64) -> u64
    decreases ls.len(),
{
    if ls.len() == 0 {
        old
    } else {
        let prev = load_after(ls.drop_last(), kind, label, old);
        let t = trim(ls.last());
        if pm_line_kind(t) == kind {
            match load_reading(t, label) {
                Some(n) => n,
                None => prev,
            }
        } else {
            prev
        }
    }
}

/// The first word of each SoC power line of `ls`, in order: the texts from
/// which the SoC power in watts is read.
pub open spec fn soc_tokens(ls: Seq<Seq<char>>) -> Seq<Seq<char>>
    decreases ls.len(),
{
    if ls.len() == 0 {
        seq![]
    } else {
        let t = trim(ls.last());
        let w = words(t);
        soc_tokens(ls.drop_last()) + if pm_line_kind(t) == PmLineKind::SocPower && w.len() > 0 {
            seq![w[0]]
        } else {
            Seq::<Seq<char>>::empty()
        }
    }
}

/// The patterns that lines of `amdgpu_pm_info` are tested against.
struct PmPatterns {
    sclk: Vec<char>,
    soc: Vec<char>,
    gpu: Vec<char>,
    vcn: Vec<char>,
}

impl PmPatterns {
    spec fn wf(&self) -> bool {
        &&& self.sclk@ == "(SCLK)"@
        &&& self.soc@ == "current SoC including CPU"@
        &&& self.gpu@ == "GPU Load:"@
        &&& self.vcn@ == "VCN Load:"@
        &&& self.gpu@.len() > 0
        &&& self.vcn@.len() > 0
    }

    fn new() -> (p: Self)
        ensures
            p.wf(),
    {
        proof {
            reveal_strlit("GPU Load:");
            reveal_strlit("VCN Load:");
        }
        PmPatterns {
            sclk: to_chars("(SCLK)"),
            soc: to_chars("current SoC including CPU"),
            gpu: to_chars("GPU Load:"),
            vcn: to_chars("VCN Load:"),
        }
    }

    /// The kind of the trimmed line `v[lo..hi]`.
    fn kind(&self, v: &Vec<char>, lo: usize, hi: usize) -> (k: PmLineKind)
        requires
            self.wf(),
            lo <= hi <= v.len(),
        ensures
            k == pm_line_kind(v@.subrange(lo as int, hi as int)),
    {
        if span_ends_with(v, lo, hi, &self.sclk) {
            PmLineKind::ShaderClock
        } else if span_contains(v, lo, hi, &self.soc) {
            PmLineKind::SocPower
        } else if span_starts_with(v, lo, hi, &self.gpu) {
            PmLineKind::GpuLoad
        } else if span_starts_with(v, lo, hi, &self.vcn) {
            PmLineKind::VcnLoad
        } else {
            PmLineKind::Other
        }
    }
}

/// The reading after `label` on the trimmed line `v[lo..hi]`.
fn load_reading_span(v: &Vec<char>, lo: usize, hi: usize, label: &Vec<char>) -> (r: Option<u64>)
    requires
        lo <= hi <= v.len(),
        label.len() > 0,
    ensures
        r == load_reading(v@.subrange(lo as int, hi as int), label@),
{
    let a = span_strip_all_prefix(v, lo, hi, label);
    let (ta, tb) = trim_span(v, a, hi);
    first_u64_span(v, ta, tb)
}

// ---------------------------------------------------------------------------
// Memory clock from amdgpu_pm_info
// ---------------------------------------------------------------------------

/// Why the memory clock could not be read.
pub enum MclkError {
    /// `amdgpu_pm_info` could not be read.
    PmInfoUnreadable,
    /// The trimmed `(MCLK)` line does not start with a number.
    UnparsableLine(String),
    /// No line of `amdgpu_pm_info` ends with `(MCLK)`.
    NotFound,
}

/// The first line of `ls` that, trimmed, ends with `(MCLK)`, trimmed.
pub open spec fn mclk_line(ls: Seq<Seq<char>>) -> Option<Seq<char>>
    decreases ls.len(),
{
    if ls.len() == 0 {
        None
    } else if has_suffix(trim(ls[0]), "(MCLK)"@) {
        Some(trim(ls[0]))
    } else {
        mclk_line(ls.drop_first())
    }
}

/// The memory clock that `amdgpu_pm_info` reports: the first word of its first
/// `(MCLK)` line.
pub fn mclk_from_pm_info(content: &str) -> (r: Result<u64, MclkError>)
    ensures
        match mclk_line(lines(content@)) {
            None => r matches Err(MclkError::NotFound),
            Some(t) => match first_u64(t) {
                Some(n) => r matches Ok(m) && m == n,
                None => r matches Err(MclkError::UnparsableLine(l)) && l@ == t,
            },
        },
{
    let v = to_chars(content);
    let n = v.len();
    let pat = to_chars("(MCLK)");
    assert(v@.subrange(0, n as int) =~= content@);
    let mut pos: usize = 0;
    while pos < n
        invariant
            pos <= n == v.len(),
            v@ == content@,
            pat@ == "(MCLK)"@,
            mclk_line(lines(content@)) == mclk_line(lines(v@.subrange(pos as int, n as int))),
        decreases n - pos,
    {
        let (e, nxt) = next_line(&v, pos, n);
        let ghost ls = lines(v@.subrange(pos as int, n as int));
        assert(ls[0] == v@.subrange(pos as int, e as int));
        assert(ls.drop_first() =~= lines(v@.subrange(nxt as int, n as int)));
        let (ta, tb) = trim_span(&v, pos, e);
        if span_ends_with(&v, ta, tb, &pat) {
            return match first_u64_span(&v, ta, tb) {
                Some(m) => Ok(m),
                None => Err(MclkError::UnparsableLine(substring(content, ta, tb))),
            };
        }
        pos = nxt;
    }
    assert(lines(v@.subrange(n as int, n as int)) =~= Seq::<Seq<char>>::empty());
    Err(MclkError::NotFound)
}

// ---------------------------------------------------------------------------
// amdgpu_gem_info
// ---------------------------------------------------------------------------

/// The client that a line of `amdgpu_gem_info` names, if it names one: the
/// trimmed line starts with `pid`, its first word is `pid`, its second a
/// `u32`, and it has a fourth word, the command, whose trailing colons are
/// dropped.
pub open spec fn gem_entry(l: Seq<char>) -> Seq<(u32, Seq<char>)> {
    let t = trim(l);
    let w = words(t);
    if has_prefix(t, "pid"@) && w.len() >= 4 && w[0] == "pid"@ {
        match parse_u32(w[1]) {
            Some(pid) => seq![(pid, strip_trailing(w[3], ':'))],
            None => seq![],
        }
    } else {
        seq![]
    }
}

/// The clients that the lines `ls` name, in order.
pub open spec fn gem_entries(ls: Seq<Seq<char>>) -> Seq<(u32, Seq<char>)>
    decreases ls.len(),
{
    if ls.len() == 0 {
        seq![]
    } else {
        gem_entries(ls.drop_last()) + gem_entry(ls.last())
    }
}

/// The client named on the line `v[lo..hi]` of `content`, if any.
fn gem_entry_span(content: &str, v: &Vec<char>, lo: usize, hi: usize, pid: &Vec<char>) -> (r:
    Option<GemClient>)
    requires
        lo <= hi <= v.len(),
        v@ == content@,
        pid@ == "pid"@,
    ensures
        match r {
            None => gem_entry(v@.subrange(lo as int, hi as int)).len() == 0,
            Some(c) => gem_entry(v@.subrange(lo as int, hi as int)) == seq![c.deep_view()],
        },
{
    let (a, b) = trim_span(v, lo, hi);
    let ghost t = v@.subrange(a as int, b as int);
    if !span_starts_with(v, a, b, pid) {
        return None;
    }
    let (a0, b0) = match next_word(v, a, b) {
        None => return None,
        Some(w) => w,
    };
    let (a1, b1) = match next_word(v, b0, b) {
        None => return None,
        Some(w) => w,
    };
    let (a2, b2) = match next_word(v, b1, b) {
        None => return None,
        Some(w) => w,
    };
    let (a3, b3) = match next_word(v, b2, b) {
        None => return None,
        Some(w) => w,
    };
    let ghost w = words(t);
    assert(w.len() >= 4 && w[0] == v@.subrange(a0 as int, b0 as int) && w[1] == v@.subrange(
        a1 as int,
        b1 as int,
    ) && w[3] == v@.subrange(a3 as int, b3 as int));
    if !span_equals(v, a0, b0, pid) {
        return None;
    }
    match parse_u32_span(v, a1, b1) {
        None => None,
        Some(p) => {
            let e = span_strip_trailing(v, a3, b3, ':');
            let c = GemClient { pid: p, command: substring(content, a3, e) };
            Some(c)
        },
    }
}

// ---------------------------------------------------------------------------
// Collection steps
// ---------------------------------------------------------------------------

impl GpuTelemetry {
    /// The card's marketing name.
    pub open spec fn name(&self) -> Seq<char> {
        self.gpu_name@
    }

    /// Telemetry for the card named `gpu_name`, with nothing read yet.
    pub fn init(gpu_name: String) -> (t: Self)
        ensures
            t.name() == gpu_name@,
            is_blank(t.data),
    {
        GpuTelemetry { gpu_name, data: TelemetryData::default() }
    }

    /// Stores the hwmon readings `r`: the required sensors in order up to the
    /// first that is missing, which is reported; the optional ones after all
    /// required ones.
    pub fn collect_hwmon(&mut self, r: &HwmonReadings) -> (res: Result<(), HwmonError>)
        ensures
            final(self).name() == old(self).name(),
            final(self).data == hwmon_update(old(self).data, *r),
            match hwmon_error(*r) {
                None => res is Ok,
                Some(e) => res == Err::<(), HwmonError>(e),
            },
    {
        match r.temp1_input {
            None => return Err(HwmonError::MissingEdgeTemp),
            Some(t) => self.data.edge_temp_mc = t,
        }
        let power = match r.power1_average {
            Some(p) => Some(p),
            None => r.power1_input,
        };
        match power {
            None => return Err(HwmonError::MissingPower),
            Some(p) => self.data.power_avg_uw = p,
        }
        match r.freq1_input {
            None => return Err(HwmonError::MissingShaderClock),
            Some(f) => self.data.sclk_mhz = f / 1_000_000,
        }
        match r.in0_input {
            None => return Err(HwmonError::MissingVddgfx),
            Some(g) => self.data.vddgfx_mv = g,
        }
        self.data.vddnb_mv = r.in1_input;
        self.data.junction_temp_mc = r.temp2_input;
        self.data.memory_temp_mc = r.temp3_input;
        self.data.fan_rpm = r.fan1_input;
        Ok(())
    }

    /// Reads the loads from the text of `amdgpu_pm_info` and returns the texts
    /// from which the SoC power is read, in line order.
    pub fn collect_pm_info(&mut self, content: &str) -> (soc: Vec<String>)
        ensures
            final(self).name() == old(self).name(),
            final(self).data == (TelemetryData {
                gpu_load_pct: load_after(
                    lines(content@),
                    PmLineKind::GpuLoad,
                    "GPU Load:"@,
                    old(self).data.gpu_load_pct,
                ),
                vcn_load_pct: load_after(
                    lines(content@),
                    PmLineKind::VcnLoad,
                    "VCN Load:"@,
                    old(self).data.vcn_load_pct,
                ),
                ..old(self).data
            }),
            soc.deep_view() == soc_tokens(lines(content@)),
    {
        let v = to_chars(content);
        let n = v.len();
        let pats = PmPatterns::new();
        assert(v@.subrange(0, n as int) =~= content@);
        let mut gpu = self.data.gpu_load_pct;
        let mut vcn = self.data.vcn_load_pct;
        let mut soc: Vec<String> = Vec::new();
        let mut pos: usize = 0;
        let ghost mut done: Seq<Seq<char>> = seq![];
        assert(done + lines(v@.subrange(0, n as int)) =~= lines(content@));
        while pos < n
            invariant
                pos <= n == v.len(),
                v@ == content@,
                pats.wf(),
                lines(content@) == done + lines(v@.subrange(pos as int, n as int)),
                gpu == load_after(done, PmLineKind::GpuLoad, "GPU Load:"@, old(self).data.gpu_load_pct),
                vcn == load_after(done, PmLineKind::VcnLoad, "VCN Load:"@, old(self).data.vcn_load_pct),
                soc.deep_view() == soc_tokens(done),
            decreases n - pos,
        {
            let (e, nxt) = next_line(&v, pos, n);
            let ghost line = v@.subrange(pos as int, e as int);
            let (ta, tb) = trim_span(&v, pos, e);
            let ghost t = v@.subrange(ta as int, tb as int);
            let ghost next_done = done.push(line);
            assert(next_done.drop_last() =~= done);
            assert(next_done.last() == line);
            let ghost old_soc = soc.deep_view();
            match pats.kind(&v, ta, tb) {
                PmLineKind::SocPower => {
                    match next_word(&v, ta, tb) {
                        Some((a, b)) => {
                            soc.push(substring(content, a, b));
                            assert(soc.deep_view() =~= old_soc.push(v@.subrange(a as int, b as int)));
                        },
                        None => {},
                    }
                },
                PmLineKind::GpuLoad => {
                    match load_reading_span(&v, ta, tb, &pats.gpu) {
                        Some(x) => gpu = x,
                        None => {},
                    }
                },
                PmLineKind::VcnLoad => {
                    match load_reading_span(&v, ta, tb, &pats.vcn) {
                        Some(x) => vcn = x,
                        None => {},
                    }
                },
                _ => {},
            }
            assert(soc.deep_view() =~= soc_tokens(next_done));
            proof {
                assert(done + lines(v@.subrange(pos as int, n as int)) =~= next_done + lines(
                    v@.subrange(nxt as int, n as int),
                ));
                done = next_done;
            }
            pos = nxt;
        }
        assert(done =~= lines(content@));
        self.data.gpu_load_pct = gpu;
        self.data.vcn_load_pct = vcn;
        soc
    }

    /// Stores the memory clock: from hwmon's `freq2_input` (Hz) where there is
    /// one, else from the text of `amdgpu_pm_info`, `None` when that could
    /// not be read. On an error the clock is left as it was.
    pub fn collect_mclk(&mut self, freq2_input: Option<u64>, pm_info: Option<&str>) -> (res:
        Result<(), MclkError>)
        ensures
            final(self).name() == old(self).name(),
            match freq2_input {
                Some(f) => res is Ok && final(self).data == (TelemetryData {
                    mclk_mhz: f / 1_000_000,
                    ..old(self).data
                }),
                None => match pm_info {
                    None => res matches Err(MclkError::PmInfoUnreadable) && final(self).data
                        == old(self).data,
                    Some(c) => match mclk_line(lines(c@)) {
                        None => res matches Err(MclkError::NotFound) && final(self).data == old(
                            self,
                        ).data,
                        Some(t) => match first_u64(t) {
                            Some(m) => res is Ok && final(self).data == (TelemetryData {
                                mclk_mhz: m,
                                ..old(self).data
                            }),
                            None => res matches Err(MclkError::UnparsableLine(l)) && l@ == t
                                && final(self).data == old(self).data,
                        },
                    },
                },
            },
    {
        match freq2_input {
            Some(f) => {
                self.data.mclk_mhz = f / 1_000_000;
                Ok(())
            },
            None => match pm_info {
                None => Err(MclkError::PmInfoUnreadable),
                Some(c) => match mclk_from_pm_info(c) {
                    Ok(m) => {
                        self.data.mclk_mhz = m;
                        Ok(())
                    },
                    Err(e) => Err(e),
                },
            },
        }
    }

    /// Replaces the client list with the clients that the text of
    /// `amdgpu_gem_info` names, in line order.
    pub fn collect_gem_info(&mut self, content: &str)
        ensures
            final(self).name() == old(self).name(),
            final(self).data.gem_clients.deep_view() == gem_entries(lines(content@)),
            final(self).data == (TelemetryData {
                gem_clients: final(self).data.gem_clients,
                ..old(self).data
            }),
    {
        let v = to_chars(content);
        let n = v.len();
        let pid = to_chars("pid");
        assert(v@.subrange(0, n as int) =~= content@);
        let mut clients: Vec<GemClient> = Vec::new();
        let mut pos: usize = 0;
        let ghost mut done: Seq<Seq<char>> = seq![];
        assert(done + lines(v@.subrange(0, n as int)) =~= lines(content@));
        while pos < n
            invariant
                pos <= n == v.len(),
                v@ == content@,
                pid@ == "pid"@,
                lines(content@) == done + lines(v@.subrange(pos as int, n as int)),
                clients.deep_view() == gem_entries(done),
            decreases n - pos,
        {
            let (e, nxt) = next_line(&v, pos, n);
            let ghost line = v@.subrange(pos as int, e as int);
            let ghost next_done = done.push(line);
            assert(next_done.drop_last() =~= done);
            assert(next_done.last() == line);
            let ghost old_clients = clients.deep_view();
            match gem_entry_span(content, &v, pos, e, &pid) {
                Some(c) => {
                    clients.push(c);
                    assert(clients.deep_view() =~= old_clients + gem_entry(line));
                },
                None => {
                    assert(old_clients + gem_entry(line) =~= old_clients);
                },
            }
            proof {
                assert(done + lines(v@.subrange(pos as int, n as int)) =~= next_done + lines(
                    v@.subrange(nxt as int, n as int),
                ));
                done = next_done;
            }
            pos = nxt;
        }
        assert(done =~= lines(content@));
        self.data.gem_clients = clients;
    }

    /// The card's marketing name.
    pub fn get_gpu_name(&self) -> (r: &String)
        ensures
            r@ == self.name(),
    {
        &self.gpu_name
    }
}

// ---------------------------------------------------------------------------
// Laws
// ---------------------------------------------------------------------------

/// A sensor file holding a number written in decimal, with any white space
/// around it (such as sysfs's trailing newline), reads back as that number.
pub proof fn law_sensor_value_round_trip(n: u64, before: Seq<char>, after: Seq<char>)
    requires
        all_ws(before),
        all_ws(after),
    ensures
        parse_u64(trim(before + decimal(n as nat) + after)) == Some(n),
{
    let d = decimal(n as nat);
    lemma_decimal(n as nat);
    assert(crate::text::is_digit(d[0]));
    assert(crate::text::is_digit(d.last()));
    lemma_trim_around(before, d, after);
    assert(unsigned_digits(d) == d);
}

/// A line that starts, after any white space, with a number written in
/// decimal and then white space, such as `772 MHz (MCLK)`, reads as that number.
pub proof fn law_leading_number(n: u64, before: Seq<char>, sep: char, rest: Seq<char>)
    requires
        all_ws(before),
        crate::text::is_ws(sep),
    ensures
        first_u64(before + decimal(n as nat) + seq![sep] + rest) == Some(n),
{
    let d = decimal(n as nat);
    lemma_decimal(n as nat);
    assert forall|i: int| 0 <= i < d.len() implies !crate::text::is_ws(#[trigger] d[i]) by {
        assert(crate::text::is_digit(d[i]));
    }
    lemma_first_word(before, d, sep, rest);
    assert(crate::text::is_digit(d[0]));
    assert(unsigned_digits(d) == d);
}

/// Reading the lines of `amdgpu_pm_info` in two parts gives the load that
/// reading them at once gives: each line acts on the load the lines before it left.
pub proof fn law_load_after_concat(
    ls1: Seq<Seq<char>>,
    ls2: Seq<Seq<char>>,
    kind: PmLineKind,
    label: Seq<char>,
    old: u64,
)
    ensures
        load_after(ls1 + ls2, kind, label, old) == load_after(
            ls2,
            kind,
            label,
            load_after(ls1, kind, label, old),
        ),
    decreases ls2.len(),
{
    if ls2.len() == 0 {
        assert(ls1 + ls2 =~= ls1);
    } else {
        assert((ls1 + ls2).drop_last() =~= ls1 + ls2.drop_last());
        assert((ls1 + ls2).last() == ls2.last());
        law_load_after_concat(ls1, ls2.drop_last(), kind, label, old);
    }
}

/// The SoC power texts of two runs of lines are those of each, in order.
pub proof fn law_soc_tokens_concat(ls1: Seq<Seq<char>>, ls2: Seq<Seq<char>>)
    ensures
        soc_tokens(ls1 + ls2) == soc_tokens(ls1) + soc_tokens(ls2),
    decreases ls2.len(),
{
    if ls2.len() == 0 {
        assert(ls1 + ls2 =~= ls1);
        assert(soc_tokens(ls1) + soc_tokens(ls2) =~= soc_tokens(ls1));
    } else {
        assert((ls1 + ls2).drop_last() =~= ls1 + ls2.drop_last());
        assert((ls1 + ls2).last() == ls2.last());
        law_soc_tokens_concat(ls1, ls2.drop_last());
        let t = trim(ls2.last());
        let w = words(t);
        let tail = if pm_line_kind(t) == PmLineKind::SocPower && w.len() > 0 {
            seq![w[0]]
        } else {
            Seq::<Seq<char>>::empty()
        };
        assert(soc_tokens(ls1) + soc_tokens(ls2.drop_last()) + tail =~= soc_tokens(ls1) + (
        soc_tokens(ls2.drop_last()) + tail));
    }
}

/// The clients named by two runs of lines are those of each, in order: the
/// client list depends on nothing but the text.
pub proof fn law_gem_entries_concat(ls1: Seq<Seq<char>>, ls2: Seq<Seq<char>>)
    ensures
        gem_entries(ls1 + ls2) == gem_entries(ls1) + gem_entries(ls2),
    decreases ls2.len(),
{
    if ls2.len() == 0 {
        assert(ls1 + ls2 =~= ls1);
        assert(gem_entries(ls1) + gem_entries(ls2) =~= gem_entries(ls1));
    } else {
        assert((ls1 + ls2).drop_last() =~= ls1 + ls2.drop_last());
        assert((ls1 + ls2).last() == ls2.last());
        law_gem_entries_concat(ls1, ls2.drop_last());
        assert(gem_entries(ls1) + gem_entries(ls2.drop_last()) + gem_entry(ls2.last())
            =~= gem_entries(ls1) + (gem_entries(ls2.drop_last()) + gem_entry(ls2.last())));
    }
}

/// When a required hwmon sensor is missing, that sensor, the required ones
/// after it and all optional ones keep their previous values; when none is
/// missing, every hwmon sensor takes its new reading.
pub proof fn law_hwmon_all_or_prefix(d: TelemetryData, r: HwmonReadings)
    ensures
        ({
            let u = hwmon_update(d, r);
            match hwmon_error(r) {
                Some(_) => {
                    &&& u.vddgfx_mv == d.vddgfx_mv
                    &&& u.vddnb_mv == d.vddnb_mv
                    &&& u.junction_temp_mc == d.junction_temp_mc
                    &&& u.memory_temp_mc == d.memory_temp_mc
                    &&& u.fan_rpm == d.fan_rpm
                },
                None => {
                    &&& Some(u.edge_temp_mc) == r.temp1_input
                    &&& Some(u.power_avg_uw) == power_reading(r)
                    &&& r.freq1_input matches Some(f) && u.sclk_mhz == f / 1_000_000
                    &&& Some(u.vddgfx_mv) == r.in0_input
                    &&& u.vddnb_mv == r.in1_input
                    &&& u.junction_temp_mc == r.temp2_input
                    &&& u.memory_temp_mc == r.temp3_input
                    &&& u.fan_rpm == r.fan1_input
                },
            }
        }),
{
}

/// The load reading of the line `label + " " + decimal(n) + " %"`, where
/// `line_text` is that line written out.
proof fn lemma_load_line(n: u64, label: Seq<char>, line_text: Seq<char>, kind: PmLineKind)
    requires
        (label == "GPU Load:"@ && line_text == "GPU Load: "@ && kind == PmLineKind::GpuLoad) || (
        label == "VCN Load:"@ && line_text == "VCN Load: "@ && kind == PmLineKind::VcnLoad),
    ensures
        ({
            let t = line_text + decimal(n as nat) + " %"@;
            &&& trim(t) == t
            &&& pm_line_kind(t) == kind
            &&& load_reading(t, label) == Some(n)
        }),
{
    reveal_strlit("GPU Load:");
    reveal_strlit("VCN Load:");
    reveal_strlit("GPU Load: ");
    reveal_strlit("VCN Load: ");
    reveal_strlit(" %");
    reveal_strlit("(SCLK)");
    reveal_strlit("current SoC including CPU");
    let d = decimal(n as nat);
    lemma_decimal(n as nat);
    let t = line_text + d + " %"@;
    let e = Seq::<char>::empty();
    // the line has no white space at either end
    assert(t[0] == line_text[0]);
    assert(t.last() == '%');
    lemma_trim_around(e, t, e);
    assert(e + t + e =~= t);
    // it is a line of `kind`
    if has_suffix(t, "(SCLK)"@) {
        assert(t.skip(t.len() - 6)[5] == t.last());
    }
    assert forall|i: int| !#[trigger] occurs_at(t, "current SoC including CPU"@, i) by {
        if occurs_at(t, "current SoC including CPU"@, i) {
            assert(t.subrange(i, i + 25)[0] == t[i]);
            assert(t[i] == 'c');
            if i < 10 {
                assert(t[i] == line_text[i]);
            } else if i < 10 + d.len() {
                assert(t[i] == d[i - 10]);
                assert(crate::text::is_digit(d[i - 10]));
            } else {
                assert(t[i] == " %"@[i - 10 - d.len()]);
            }
        }
    }
    assert(!has_infix(t, "current SoC including CPU"@));
    assert(t.take(9) =~= label);
    if kind == PmLineKind::VcnLoad {
        assert(t.take(9)[0] != "GPU Load:"@[0]);
    }
    assert(pm_line_kind(t) == kind);
    // the reading after the label
    let after = t.skip(9);
    assert(after =~= seq![' '] + (d + " %"@));
    assert(after[0] == ' ');
    assert(!has_prefix(after, label)) by {
        if has_prefix(after, label) {
            assert(after.take(9)[0] == label[0]);
        }
    }
    assert(strip_all_prefix(after, label) == after);
    assert(strip_all_prefix(t, label) == strip_all_prefix(after, label));
    let mid = d + " %"@;
    assert(crate::text::is_digit(d[0]));
    assert(mid[0] == d[0]);
    assert(mid.last() == '%');
    assert(all_ws(seq![' ']));
    lemma_trim_around(seq![' '], mid, e);
    assert(seq![' '] + mid + e =~= after);
    assert forall|i: int| 0 <= i < d.len() implies !crate::text::is_ws(#[trigger] d[i]) by {
        assert(crate::text::is_digit(d[i]));
    }
    lemma_first_word(e, d, ' ', seq!['%']);
    assert(e + d + seq![' '] + seq!['%'] =~= mid);
    assert(unsigned_digits(d) == d);
}

/// Whatever the lines before it left, a line `GPU Load: n %` sets the GPU
/// load to `n`: each reading replaces the load, up or down.
pub proof fn law_gpu_load_line_sets_load(ls: Seq<Seq<char>>, n: u64, old: u64)
    ensures
        load_after(
            ls.push("GPU Load: "@ + decimal(n as nat) + " %"@),
            PmLineKind::GpuLoad,
            "GPU Load:"@,
            old,
        ) == n,
{
    let t = "GPU Load: "@ + decimal(n as nat) + " %"@;
    lemma_load_line(n, "GPU Load:"@, "GPU Load: "@, PmLineKind::GpuLoad);
    assert(ls.push(t).drop_last() =~= ls);
    assert(ls.push(t).last() == t);
}

/// Whatever the lines before it left, a line `VCN Load: n %` sets the VCN
/// load to `n`: each reading replaces the load, up or down.
pub proof fn law_vcn_load_line_sets_load(ls: Seq<Seq<char>>, n: u64, old: u64)
    ensures
        load_after(
            ls.push("VCN Load: "@ + decimal(n as nat) + " %"@),
            PmLineKind::VcnLoad,
            "VCN Load:"@,
            old,
        ) == n,
{
    let t = "VCN Load: "@ + decimal(n as nat) + " %"@;
    lemma_load_line(n, "VCN Load:"@, "VCN Load: "@, PmLineKind::VcnLoad);
    assert(ls.push(t).drop_last() =~= ls);
    assert(ls.push(t).last() == t);
}

/// The line `pid <n> command <c>:` names exactly the client `(n, c)`, for
/// every `u32` pid `n` and every command `c` without white space that does
/// not itself end in `:`.
pub proof fn law_gem_line_names_client(n: u32, c: Seq<char>)
    requires
        forall|i: int| 0 <= i < c.len() ==> !crate::text::is_ws(#[trigger] c[i]),
        c.len() == 0 || c.last() != ':',
    ensures
        gem_entry("pid "@ + decimal(n as nat) + " command "@ + c + ":"@) == seq![(n, c)],
{
    reveal_strlit("pid ");
    reveal_strlit("pid");
    reveal_strlit(" command ");
    reveal_strlit(":");
    let d = decimal(n as nat);
    lemma_decimal(n as nat);
    let l = "pid "@ + d + " command "@ + c + ":"@;
    let e = Seq::<char>::empty();
    let pid = seq!['p', 'i', 'd'];
    let command = seq!['c', 'o', 'm', 'm', 'a', 'n', 'd'];
    let cmd = c + seq![':'];
    // the line has no white space at either end
    assert(l[0] == 'p');
    assert(l.last() == ':');
    lemma_trim_around(e, l, e);
    assert(e + l + e =~= l);
    assert(trim(l) == l);
    assert(has_prefix(l, "pid"@)) by {
        assert(l.take(3) =~= "pid"@);
    }
    // its words
    assert forall|i: int| 0 <= i < d.len() implies !crate::text::is_ws(#[trigger] d[i]) by {
        assert(crate::text::is_digit(d[i]));
    }
    assert forall|i: int| 0 <= i < cmd.len() implies !crate::text::is_ws(#[trigger] cmd[i]) by {
        if i < c.len() {
            assert(cmd[i] == c[i]);
        }
    }
    lemma_words_single(cmd);
    lemma_words_cons(command, ' ', cmd);
    lemma_words_cons(d, ' ', command + (seq![' '] + cmd));
    lemma_words_cons(pid, ' ', d + (seq![' '] + (command + (seq![' '] + cmd))));
    assert(l =~= pid + (seq![' '] + (d + (seq![' '] + (command + (seq![' '] + cmd))))));
    let w = words(l);
    assert(w =~= seq![pid, d, command, cmd]);
    assert(w[0] == "pid"@);
    // the pid and the command
    assert(crate::text::is_digit(d[0]));
    assert(unsigned_digits(d) == d);
    assert(parse_u32(w[1]) == Some(n));
    assert(cmd.drop_last() =~= c);
    assert(strip_trailing(c, ':') == c);
    assert(strip_trailing(cmd, ':') == c);
}

/// With both power readings present, the stored power is the average one;
/// the instantaneous one is used only where there is no average.
pub proof fn law_hwmon_average_power(d: TelemetryData, r: HwmonReadings)
    requires
        r.temp1_input is Some,
    ensures
        r.power1_average matches Some(p) ==> hwmon_update(d, r).power_avg_uw == p,
        r.power1_average is None ==> match r.power1_input {
            Some(q) => hwmon_update(d, r).power_avg_uw == q,
            None => hwmon_update(d, r).power_avg_uw == d.power_avg_uw,
        },
{
}

/// A line that is not a GPU Load line carrying a number leaves the GPU load
/// as the lines before it left it (likewise for VCN Load).
pub proof fn law_load_unchanged_without_reading(
    ls: Seq<Seq<char>>,
    l: Seq<char>,
    kind: PmLineKind,
    label: Seq<char>,
    old: u64,
)
    requires
        (kind == PmLineKind::GpuLoad && label == "GPU Load:"@) || (kind == PmLineKind::VcnLoad
            && label == "VCN Load:"@),
        !has_prefix(trim(l), label) || load_reading(trim(l), label) is None,
    ensures
        load_after(ls.push(l), kind, label, old) == load_after(ls, kind, label, old),
{
    assert(ls.push(l).drop_last() =~= ls);
    assert(ls.push(l).last() == l);
}

/// A line `<w> W (current SoC including CPU)` adds its first word `w` to the
/// SoC power texts, after those of the lines before it.
pub proof fn law_soc_line_token(ls: Seq<Seq<char>>, w: Seq<char>)
    requires
        w.len() > 0,
        forall|i: int| 0 <= i < w.len() ==> !crate::text::is_ws(#[trigger] w[i]),
    ensures
        soc_tokens(ls.push(w + " W (current SoC including CPU)"@)) == soc_tokens(ls).push(w),
{
    reveal_strlit(" W (current SoC including CPU)");
    reveal_strlit("current SoC including CPU");
    reveal_strlit("(SCLK)");
    let tail = " W (current SoC including CPU)"@;
    let l = w + tail;
    let e = Seq::<char>::empty();
    assert(l[0] == w[0]);
    assert(l.last() == ')');
    lemma_trim_around(e, l, e);
    assert(e + l + e =~= l);
    assert(!has_suffix(l, "(SCLK)"@)) by {
        if has_suffix(l, "(SCLK)"@) {
            assert(l.skip(l.len() - 6)[0] == l[l.len() - 6]);
            assert(l[l.len() - 6] == tail[tail.len() - 6]);
        }
    }
    assert(occurs_at(l, "current SoC including CPU"@, w.len() + 4 as int)) by {
        assert(l.subrange(w.len() + 4 as int, w.len() + 29 as int) =~= "current SoC including CPU"@);
    }
    assert(has_infix(l, "current SoC including CPU"@));
    assert(pm_line_kind(l) == PmLineKind::SocPower);
    let rest = tail.drop_first();
    assert(l =~= w + (seq![' '] + rest));
    lemma_words_cons(w, ' ', rest);
    assert(words(l)[0] == w);
    assert(ls.push(l).drop_last() =~= ls);
    assert(ls.push(l).last() == l);
    assert(soc_tokens(ls) + seq![w] =~= soc_tokens(ls).push(w));
}

/// A line of `amdgpu_gem_info` that, trimmed, does not start with `pid`
/// names no client.
pub proof fn law_gem_line_without_pid(l: Seq<char>)
    requires
        !has_prefix(trim(l), "pid"@),
    ensures
        gem_entry(l) == Seq::<(u32, Seq<char>)>::empty(),
{
}

/// A hwmon round fails exactly when a required sensor is missing, and it
/// reports the first one missing in the order edge temperature, power, shader
/// clock, graphics voltage.
pub proof fn law_hwmon_error_first_missing(r: HwmonReadings)
    ensures
        hwmon_error(r) is None <==> (r.temp1_input is Some && (r.power1_average is Some
            || r.power1_input is Some) && r.freq1_input is Some && r.in0_input is Some),
        r.temp1_input is None ==> hwmon_error(r) == Some(HwmonError::MissingEdgeTemp),
        r.temp1_input is Some && r.power1_average is None && r.power1_input is None
            ==> hwmon_error(r) == Some(HwmonError::MissingPower),
        r.temp1_input is Some && (r.power1_average is Some || r.power1_input is Some)
            && r.freq1_input is None ==> hwmon_error(r) == Some(HwmonError::MissingShaderClock),
        r.temp1_input is Some && (r.power1_average is Some || r.power1_input is Some)
            && r.freq1_input is Some && r.in0_input is None ==> hwmon_error(r) == Some(
            HwmonError::MissingVddgfx,
        ),
{
}

/// The memory clock comes from the first `(MCLK)` line: lines after it do not
/// matter, and lines before it without `(MCLK)` are passed over.
pub proof fn law_mclk_first_line(ls1: Seq<Seq<char>>, ls2: Seq<Seq<char>>)
    ensures
        mclk_line(ls1) is Some ==> mclk_line(ls1 + ls2) == mclk_line(ls1),
        mclk_line(ls1) is None ==> mclk_line(ls1 + ls2) == mclk_line(ls2),
    decreases ls1.len(),
{
    if ls1.len() == 0 {
        assert(ls1 + ls2 =~= ls2);
    } else {
        assert((ls1 + ls2)[0] == ls1[0]);
        assert((ls1 + ls2).drop_first() =~= ls1.drop_first() + ls2);
        law_mclk_first_line(ls1.drop_first(), ls2);
    }
}

/// A line `<n> MHz (MCLK)` reports a memory clock of `n` MHz.
pub proof fn law_mclk_line_reads(n: u64, before: Seq<char>)
    requires
        all_ws(before),
    ensures
        mclk_line(seq![before + decimal(n as nat) + " MHz (MCLK)"@]) matches Some(t) && first_u64(
            t,
        ) == Some(n),
{
    reveal_strlit(" MHz (MCLK)");
    reveal_strlit("(MCLK)");
    let d = decimal(n as nat);
    lemma_decimal(n as nat);
    let body = d + " MHz (MCLK)"@;
    let l = before + body;
    let e = Seq::<char>::empty();
    assert(crate::text::is_digit(d[0]));
    assert(body[0] == d[0]);
    assert(body.last() == ')');
    lemma_trim_around(before, body, e);
    assert(before + body + e =~= l);
    assert(trim(l) == body);
    assert(body.skip(body.len() - 6) =~= "(MCLK)"@);
    assert(has_suffix(body, "(MCLK)"@));
    assert(seq![l][0] == l);
    assert(mclk_line(seq![l]) == Some(body));
    assert forall|i: int| 0 <= i < d.len() implies !crate::text::is_ws(#[trigger] d[i]) by {
        assert(crate::text::is_digit(d[i]));
    }
    let rest = " MHz (MCLK)"@.drop_first();
    lemma_first_word(e, d, ' ', rest);
    assert(e + d + seq![' '] + rest =~= body);
    assert(words(body)[0] == d);
    assert(unsigned_digits(d) == d);
    assert(parse_u64(d) == Some(n));
    assert(first_u64(body) == Some(n));
    assert(before + d + " MHz (MCLK)"@ =~= l);
}

} // verus!
