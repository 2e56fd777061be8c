//! `/proc/sys/kernel/dyndbg_bench`: switches for the patch backend, the
//! index and candidate narrowing, and requests to time a number of passes
//! over disabled call sites.
use vstd::prelude::*;
use vstd::string::*;
use crate::command::CommandError;
use crate::procfs::parse_reset_command;
use crate::render::{dec_chars, push_decimal};
use crate::state::{DyndbgPatchBackend, DyndbgState};
use crate::text::{
    ascii_tokens, has_prefix, parse_decimal, parse_unsigned, split_ascii_whitespace, str_eq,
    str_views, strip_prefix, trim, trimmed,
};

verus! {

/// What a benchmark run exercises: one call site per pass, or a batch of
/// call sites per pass.
#[derive(Debug, Clone, Copy, PartialEq, Eq, Structural)]
pub enum BenchMode {
    Log,
    LogBatch,
}

impl BenchMode {
    /// `log` or `log_batch`.
    pub fn as_str(self) -> (r: &'static str)
        ensures
            r@ == mode_text(self),
    {
        match self {
            BenchMode::Log => "log",
            BenchMode::LogBatch => "log_batch",
        }
    }
}

/// The name of a benchmark mode.
pub open spec fn mode_text(m: BenchMode) -> Seq<char> {
    match m {
        BenchMode::Log => "log"@,
        BenchMode::LogBatch => "log_batch"@,
    }
}

/// The last benchmark run.
#[derive(Debug, Clone, Copy, PartialEq, Eq, Structural)]
pub struct BenchState {
    pub last_mode: BenchMode,
    pub last_iters: u64,
    pub last_duration_us: u64,
}

impl BenchState {
    /// No run yet.
    pub fn new() -> (r: Self)
        ensures
            r == (BenchState { last_mode: BenchMode::Log, last_iters: 0, last_duration_us: 0 }),
    {
        BenchState { last_mode: BenchMode::Log, last_iters: 0, last_duration_us: 0 }
    }

    /// Remember a finished run.
    pub fn record(&mut self, mode: BenchMode, iters: u64, duration_us: u64)
        ensures
            *final(self) == (BenchState { last_mode: mode, last_iters: iters, last_duration_us: duration_us }),
    {
        self.last_mode = mode;
        self.last_iters = iters;
        self.last_duration_us = duration_us;
    }
}

/// Microseconds between two readings of a time-stamp counter running at
/// `tsc_freq` Hz; `0` when the frequency is unknown or time did not go
/// forward.
pub fn bench_elapsed_us(tsc_start: u64, tsc_end: u64, tsc_freq: u64) -> (r: u64)
    requires
        tsc_freq > 0 && tsc_end > tsc_start ==> (tsc_end - tsc_start) * 1_000_000 <= u64::MAX,
    ensures
        r == (if tsc_freq > 0 && tsc_end > tsc_start {
            ((tsc_end - tsc_start) * 1_000_000 / (tsc_freq as int)) as u64
        } else {
            0
        }),
{
    if tsc_freq > 0 && tsc_end > tsc_start {
        ((tsc_end - tsc_start) * 1_000_000) / tsc_freq
    } else {
        0
    }
}

/// The meaning of a `backend=` value.
pub open spec fn backend_of(v: Seq<char>) -> Result<DyndbgPatchBackend, CommandError> {
    if v == "per_site"@ || v == "persite"@ {
        Ok(DyndbgPatchBackend::PerSite)
    } else if v == "batch"@ {
        Ok(DyndbgPatchBackend::Batch)
    } else {
        Err(CommandError::BadBackend)
    }
}

/// `per_site` (or `persite`) or `batch`.
pub fn parse_backend(value: &str) -> (r: Result<DyndbgPatchBackend, CommandError>)
    ensures
        r == backend_of(value@),
{
    if str_eq(value, "per_site") || str_eq(value, "persite") {
        Ok(DyndbgPatchBackend::PerSite)
    } else if str_eq(value, "batch") {
        Ok(DyndbgPatchBackend::Batch)
    } else {
        Err(CommandError::BadBackend)
    }
}

/// The meaning of an `index=` value.
pub open spec fn index_of(v: Seq<char>) -> Result<bool, CommandError> {
    if v == "on"@ {
        Ok(true)
    } else if v == "off"@ {
        Ok(false)
    } else {
        Err(CommandError::BadIndex)
    }
}

/// `on` or `off`.
pub fn parse_index(value: &str) -> (r: Result<bool, CommandError>)
    ensures
        r == index_of(value@),
{
    if str_eq(value, "on") {
        Ok(true)
    } else if str_eq(value, "off") {
        Ok(false)
    } else {
        Err(CommandError::BadIndex)
    }
}

/// The meaning of a `recompute=` value.
pub open spec fn recompute_of(v: Seq<char>) -> Result<bool, CommandError> {
    if v == "incremental"@ {
        Ok(true)
    } else if v == "full"@ {
        Ok(false)
    } else {
        Err(CommandError::BadRecompute)
    }
}

/// `incremental` (candidate narrowing on) or `full` (off).
pub fn parse_recompute(value: &str) -> (r: Result<bool, CommandError>)
    ensures
        r == recompute_of(value@),
{
    if str_eq(value, "incremental") {
        Ok(true)
    } else if str_eq(value, "full") {
        Ok(false)
    } else {
        Err(CommandError::BadRecompute)
    }
}

/// The meaning of a `mode=` value.
pub open spec fn mode_of(v: Seq<char>) -> Result<BenchMode, CommandError> {
    if v == "log"@ {
        Ok(BenchMode::Log)
    } else if v == "log_batch"@ {
        Ok(BenchMode::LogBatch)
    } else {
        Err(CommandError::BadMode)
    }
}

/// `log` or `log_batch`.
pub fn parse_mode(value: &str) -> (r: Result<BenchMode, CommandError>)
    ensures
        r == mode_of(value@),
{
    if str_eq(value, "log") {
        Ok(BenchMode::Log)
    } else if str_eq(value, "log_batch") {
        Ok(BenchMode::LogBatch)
    } else {
        Err(CommandError::BadMode)
    }
}

/// The settings and the run a benchmark command names.
pub struct BenchArgs {
    pub backend: Option<DyndbgPatchBackend>,
    pub index: Option<bool>,
    pub recompute: Option<bool>,
    pub mode: Option<BenchMode>,
    pub iters: Option<u64>,
}

/// Nothing named.
pub open spec fn no_args() -> BenchArgs {
    BenchArgs { backend: None, index: None, recompute: None, mode: None, iters: None }
}

/// Read the tokens `toks[i..]` on top of `a`; a later token for the same
/// setting replaces an earlier one.
pub open spec fn bench_scan(toks: Seq<Seq<char>>, i: int, a: BenchArgs) -> Result<BenchArgs, CommandError>
    decreases toks.len() - i,
{
    if i >= toks.len() || i < 0 {
        Ok(a)
    } else {
        let t = toks[i];
        if has_prefix(t, "backend="@) {
            match backend_of(t.skip(8)) {
                Ok(b) => bench_scan(toks, i + 1, BenchArgs { backend: Some(b), ..a }),
                Err(e) => Err(e),
            }
        } else if has_prefix(t, "index="@) {
            match index_of(t.skip(6)) {
                Ok(b) => bench_scan(toks, i + 1, BenchArgs { index: Some(b), ..a }),
                Err(e) => Err(e),
            }
        } else if has_prefix(t, "recompute="@) {
            match recompute_of(t.skip(10)) {
                Ok(b) => bench_scan(toks, i + 1, BenchArgs { recompute: Some(b), ..a }),
                Err(e) => Err(e),
            }
        } else if has_prefix(t, "mode="@) {
            match mode_of(t.skip(5)) {
                Ok(m) => bench_scan(toks, i + 1, BenchArgs { mode: Some(m), ..a }),
                Err(e) => Err(e),
            }
        } else if has_prefix(t, "iters="@) {
            match parse_unsigned(t.skip(6), u64::MAX as int) {
                Some(n) => if n == 0 {
                    Err(CommandError::ZeroIters)
                } else {
                    bench_scan(toks, i + 1, BenchArgs { iters: Some(n as u64), ..a })
                },
                None => Err(CommandError::BadIters),
            }
        } else {
            Err(CommandError::UnknownToken)
        }
    }
}

/// The run a command asks for once its settings are applied.
pub open spec fn bench_request(a: BenchArgs) -> Result<Option<(BenchMode, u64)>, CommandError> {
    if a.mode is None && a.iters is None {
        Ok(None)
    } else if a.mode is None {
        Err(CommandError::MissingMode)
    } else if a.iters is None {
        Err(CommandError::MissingIters)
    } else {
        Ok(Some((a.mode->Some_0, a.iters->Some_0)))
    }
}

/// Apply the settings of a benchmark command (`backend=`, `index=`,
/// `recompute=`) and return the run it asks for (`mode=` and `iters=`,
/// both needed), if any.  A rejected token changes nothing; a missing
/// `mode=` or `iters=` is reported after the settings are applied.
pub fn run_bench(state: &mut DyndbgState, command: &str) -> (r: Result<Option<(BenchMode, u64)>, CommandError>)
    ensures
        match bench_scan(ascii_tokens(command@), 0, no_args()) {
            Err(e) => r == Err::<Option<(BenchMode, u64)>, CommandError>(e) && *final(state) == *old(state),
            Ok(a) => {
                &&& r == bench_request(a)
                &&& final(state).same_core(old(state))
                &&& final(state).backend_code() == (match a.backend {
                    Some(b) => b.to_u8_spec(),
                    None => old(state).backend_code(),
                })
                &&& final(state).index_on() == (match a.index {
                    Some(b) => b,
                    None => old(state).index_on(),
                })
                &&& final(state).recompute_on() == (match a.recompute {
                    Some(b) => b,
                    None => old(state).recompute_on(),
                })
                &&& final(state).stat_recomputed() == old(state).stat_recomputed()
                &&& final(state).stat_modules_repatched() == old(state).stat_modules_repatched()
                &&& final(state).stat_sites_patched() == old(state).stat_sites_patched()
                &&& final(state).stat_transactions() == old(state).stat_transactions()
                &&& final(state).stat_latency() == old(state).stat_latency()
            },
        },
{
    let tokens = split_ascii_whitespace(command);
    let ghost toks = str_views(tokens@);
    let mut backend: Option<DyndbgPatchBackend> = None;
    let mut index_enabled: Option<bool> = None;
    let mut recompute_enabled: Option<bool> = None;
    let mut mode: Option<BenchMode> = None;
    let mut iters: Option<u64> = None;
    let mut i: usize = 0;
    while i < tokens.len()
        invariant
            toks == str_views(tokens@),
            toks == ascii_tokens(command@),
            i <= tokens@.len(),
            bench_scan(toks, i as int, BenchArgs { backend, index: index_enabled, recompute: recompute_enabled, mode, iters })
                == bench_scan(toks, 0, no_args()),
        decreases tokens.len() - i,
    {
        let token = tokens[i];
        assert(token@ == toks[i as int]);
        proof {
            reveal_strlit("backend=");
            reveal_strlit("index=");
            reveal_strlit("recompute=");
            reveal_strlit("mode=");
            reveal_strlit("iters=");
        }
        if let Some(value) = strip_prefix(token, "backend=") {
            match parse_backend(value) {
                Ok(b) => backend = Some(b),
                Err(e) => return Err(e),
            }
        } else if let Some(value) = strip_prefix(token, "index=") {
            match parse_index(value) {
                Ok(b) => index_enabled = Some(b),
                Err(e) => return Err(e),
            }
        } else if let Some(value) = strip_prefix(token, "recompute=") {
            match parse_recompute(value) {
                Ok(b) => recompute_enabled = Some(b),
                Err(e) => return Err(e),
            }
        } else if let Some(value) = strip_prefix(token, "mode=") {
            match parse_mode(value) {
                Ok(m) => mode = Some(m),
                Err(e) => return Err(e),
            }
        } else if let Some(value) = strip_prefix(token, "iters=") {
            match parse_decimal(value, u64::MAX) {
                Some(n) => {
                    if n == 0 {
                        return Err(CommandError::ZeroIters);
                    }
                    iters = Some(n);
                },
                None => return Err(CommandError::BadIters),
            }
        } else {
            return Err(CommandError::UnknownToken);
        }
        i += 1;
    }
    let ghost s0 = *state;
    proof { s0.lemma_same_core_trans(&s0, &s0); }
    match backend {
        Some(b) => state.set_dyndbg_patch_backend(b),
        None => {},
    }
    let ghost s1 = *state;
    match index_enabled {
        Some(b) => state.set_dyndbg_index_enabled(b),
        None => {},
    }
    let ghost s2 = *state;
    proof { s2.lemma_same_core_trans(&s1, &s0); s1.lemma_same_core_trans(&s1, &s1); s2.lemma_same_core_trans(&s2, &s2); }
    match recompute_enabled {
        Some(b) => state.set_dyndbg_recompute_enabled(b),
        None => {},
    }
    proof { let s3 = *state; s3.lemma_same_core_trans(&s2, &s0); }
    if mode.is_none() && iters.is_none() {
        return Ok(None);
    }
    let mode = match mode {
        Some(m) => m,
        None => return Err(CommandError::MissingMode),
    };
    let iters = match iters {
        Some(n) => n,
        None => return Err(CommandError::MissingIters),
    };
    Ok(Some((mode, iters)))
}

/// The benchmark file: the last run, the current switches, the counter,
/// then the usage.
pub open spec fn bench_text(s: &DyndbgState, b: BenchState, counter: u64) -> Seq<char> {
    "last_mode="@ + mode_text(b.last_mode) + "\n"@ + "last_iters="@ + dec_chars(b.last_iters as nat)
        + "\n"@ + "last_duration_us="@ + dec_chars(b.last_duration_us as nat) + "\n"@ + "backend="@
        + (if s.backend_code() == 0 {
        "per_site"@
    } else {
        "batch"@
    }) + "\n"@ + "index="@ + (if s.index_on() {
        "on"@
    } else {
        "off"@
    }) + "\n"@ + "recompute="@ + (if s.recompute_on() {
        "incremental"@
    } else {
        "full"@
    }) + "\n"@ + "counter="@ + dec_chars(counter as nat) + "\n"@
        + "usage: backend=per_site|batch index=on|off recompute=incremental|full mode=log|log_batch iters=<n>\n"@
}

/// `/proc/sys/kernel/dyndbg_bench`.
pub struct DyndbgBenchFileOps;

impl DyndbgBenchFileOps {
    /// The contents of the file.
    pub fn render(&self, state: &DyndbgState, bench: &BenchState, counter: u64) -> (r: String)
        ensures
            r@ == bench_text(state, *bench, counter),
    {
        let mut buf = String::new();
        buf.append("last_mode=");
        buf.append(bench.last_mode.as_str());
        buf.append("\n");
        buf.append("last_iters=");
        push_decimal(&mut buf, bench.last_iters);
        buf.append("\n");
        buf.append("last_duration_us=");
        push_decimal(&mut buf, bench.last_duration_us);
        buf.append("\n");
        buf.append("backend=");
        buf.append(state.get_dyndbg_patch_backend().as_str());
        buf.append("\n");
        buf.append("index=");
        if state.get_dyndbg_index_enabled() {
            buf.append("on");
        } else {
            buf.append("off");
        }
        buf.append("\n");
        buf.append("recompute=");
        if state.get_dyndbg_recompute_enabled() {
            buf.append("incremental");
        } else {
            buf.append("full");
        }
        buf.append("\n");
        buf.append("counter=");
        push_decimal(&mut buf, counter);
        buf.append("\n");
        buf.append(
            "usage: backend=per_site|batch index=on|off recompute=incremental|full mode=log|log_batch iters=<n>\n",
        );
        assert(buf@ =~= bench_text(state, *bench, counter));
        buf
    }

    /// Carry out a written command (surrounding white space ignored; an
    /// empty command is rejected) and return the run it asks for, if any.
    pub fn write_command(&self, state: &mut DyndbgState, command: &str) -> (r: Result<Option<(BenchMode, u64)>, CommandError>)
        ensures
            trimmed(command@).len() == 0 ==> r == Err::<Option<(BenchMode, u64)>, CommandError>(CommandError::EmptyCommand)
                && *final(state) == *old(state),
            trimmed(command@).len() > 0 ==> match bench_scan(ascii_tokens(trimmed(command@)), 0, no_args()) {
                Err(e) => r == Err::<Option<(BenchMode, u64)>, CommandError>(e) && *final(state) == *old(state),
                Ok(a) => {
                    &&& r == bench_request(a)
                    &&& final(state).same_core(old(state))
                    &&& final(state).backend_code() == (match a.backend {
                        Some(b) => b.to_u8_spec(),
                        None => old(state).backend_code(),
                    })
                    &&& final(state).index_on() == (match a.index {
                        Some(b) => b,
                        None => old(state).index_on(),
                    })
                    &&& final(state).recompute_on() == (match a.recompute {
                        Some(b) => b,
                        None => old(state).recompute_on(),
                    })
                },
            },
    {
        let command = trim(command);
        if command.unicode_len() == 0 {
            return Err(CommandError::EmptyCommand);
        }
        run_bench(state, command)
    }
}

} // verus!
