//! The contents of the `/proc/sys/kernel` control files and what writing to
//! them does: `dynamic_debug`, `dyndbg_stats`, `dyndbg_hotspots`,
//! `dyndbg_trace` and `tsc`.
use vstd::prelude::*;
use vstd::string::*;
use crate::command::{
    action_of_token, action_scan, apply_command, command_effect, command_kind, empty_action, flag_bit,
    is_appended_entry, only_file, only_func, only_module, CommandError, ParsedAction,
};
use crate::descriptor::{
    opt_string_view, DebugDescriptor, DescriptorView, FLAG_FUNCTION, FLAG_LINE, FLAG_MODULE,
    FLAG_THREAD, MAX_DYNDBG_MODULES,
};
use crate::dyndbg_trace::{snapshot_events, TraceEvent, TraceRings};
use crate::event_ring::{drained_upto, law_drain_of_ring, lost_upto, produced, sort_by_stamp, RingView};
use crate::render::{dec_chars, function_or_unknown, hex_chars, push_decimal, push_function_name, push_hex};
use crate::rules::{snapshot_of_entry, DyndbgRuleActionSnapshot, DyndbgRuleEntry, DyndbgRuleEntrySnapshot};
use crate::state::{gate_patch_counts, gate_patches, gates_follow, patch_stats_follow, same_sites, DyndbgState};
use crate::static_key::StaticKeyRegistry;
use crate::text::{str_eq, trim, trimmed};

verus! {

// ───────────────────────────── format flags ─────────────────────────────

/// The letters of the flag bits set in `bits`, in the order `f l m t`.
pub open spec fn flag_letters(bits: u8) -> Seq<char> {
    (if bits & FLAG_FUNCTION != 0 {
        seq!['f']
    } else {
        Seq::empty()
    }) + (if bits & FLAG_LINE != 0 {
        seq!['l']
    } else {
        Seq::empty()
    }) + (if bits & FLAG_MODULE != 0 {
        seq!['m']
    } else {
        Seq::empty()
    }) + (if bits & FLAG_THREAD != 0 {
        seq!['t']
    } else {
        Seq::empty()
    })
}

/// The flag operation of a rule as shown in the rule listing: `=fl` (or
/// `=_`) for an overwrite, else `+fl` for the bits set and `-m` for the
/// bits cleared (`+_` when everything is cleared), or `-` for none.
pub open spec fn flags_text(set: u8, clear: u8, override_flags: Option<u8>) -> Seq<char> {
    match override_flags {
        Some(v) => seq!['='] + (if v == 0 {
            seq!['_']
        } else {
            flag_letters(v)
        }),
        None => if set == 0 && clear == 0 {
            seq!['-']
        } else {
            (if set != 0 {
                seq!['+'] + flag_letters(set)
            } else {
                Seq::empty()
            }) + (if clear == 0xff {
                seq!['+', '_']
            } else if clear != 0 {
                seq!['-'] + flag_letters(clear)
            } else {
                Seq::empty()
            })
        },
    }
}

/// The flags in effect on a call site as shown in the call-site listing:
/// `+fl`, or `-` for none.
pub open spec fn active_flags_text(flags: u8) -> Seq<char> {
    if flags != 0 {
        seq!['+'] + flag_letters(flags)
    } else {
        seq!['-']
    }
}

fn push_flag_letters(buf: &mut String, bits: u8)
    ensures
        final(buf)@ == old(buf)@ + flag_letters(bits),
{
    let ghost b0 = buf@;
    if bits & FLAG_FUNCTION != 0 {
        proof { reveal_strlit("f"); }
        buf.append("f");
    }
    if bits & FLAG_LINE != 0 {
        proof { reveal_strlit("l"); }
        buf.append("l");
    }
    if bits & FLAG_MODULE != 0 {
        proof { reveal_strlit("m"); }
        buf.append("m");
    }
    if bits & FLAG_THREAD != 0 {
        proof { reveal_strlit("t"); }
        buf.append("t");
    }
    assert(buf@ =~= b0 + flag_letters(bits));
}

/// Render the flag operation of a rule: `=fl` / `=_`, or `+fl`, `-m`,
/// `+_`, or `-` when there is none.
pub fn format_flags(set: u8, clear: u8, override_flags: Option<u8>) -> (r: String)
    ensures
        r@ == flags_text(set, clear, override_flags),
{
    let mut s = String::new();
    match override_flags {
        Some(v) => {
            proof { reveal_strlit("="); }
            s.append("=");
            if v == 0 {
                proof { reveal_strlit("_"); }
                s.append("_");
            } else {
                push_flag_letters(&mut s, v);
            }
            assert(s@ =~= flags_text(set, clear, override_flags));
            return s;
        },
        None => {},
    }
    if set != 0 {
        proof { reveal_strlit("+"); }
        s.append("+");
        push_flag_letters(&mut s, set);
    }
    let ghost s1 = s@;
    if clear == 0xff {
        proof { reveal_strlit("+_"); }
        s.append("+_");
    } else if clear != 0 {
        proof { reveal_strlit("-"); }
        s.append("-");
        push_flag_letters(&mut s, clear);
    }
    if set == 0 && clear == 0 {
        proof { reveal_strlit("-"); }
        s.append("-");
    }
    assert(s@ =~= flags_text(set, clear, override_flags));
    s
}

/// Render the flags in effect on a call site: `+fl`, or `-` for none.
pub fn format_active_flags(flags: u8) -> (r: String)
    ensures
        r@ == active_flags_text(flags),
{
    let mut s = String::new();
    if flags != 0 {
        proof { reveal_strlit("+"); }
        s.append("+");
        push_flag_letters(&mut s, flags);
    } else {
        proof { reveal_strlit("-"); }
        s.append("-");
    }
    assert(s@ =~= active_flags_text(flags));
    s
}

// ───────────────────────────── dynamic_debug ─────────────────────────────

/// A keyword, or `*` when the selector is absent.
pub open spec fn keyword_text(o: Option<String>) -> Seq<char> {
    match opt_string_view(o) {
        Some(s) => s,
        None => "*"@,
    }
}

/// A line selector, or `*` when absent.
pub open spec fn line_text(o: Option<u32>) -> Seq<char> {
    match o {
        Some(l) => dec_chars(l as nat),
        None => "*"@,
    }
}

/// The switch of a rule as shown in the listing.
pub open spec fn action_text(a: DyndbgRuleActionSnapshot) -> Seq<char> {
    match a {
        DyndbgRuleActionSnapshot::EnableLog => "+p"@,
        DyndbgRuleActionSnapshot::DisableLog => "-p"@,
        DyndbgRuleActionSnapshot::EnableTrace => "+trace"@,
        DyndbgRuleActionSnapshot::DisableTrace => "-trace"@,
        DyndbgRuleActionSnapshot::KeepState => "flags-only"@,
    }
}

/// Line `i` of the rule listing:
/// `i: file=.. module=.. func=.. line=.. <switch> <flags>`.
pub open spec fn rule_line(i: nat, e: DyndbgRuleEntrySnapshot) -> Seq<char> {
    dec_chars(i) + ": file="@ + keyword_text(e.rule.file_keyword) + " module="@ + keyword_text(
        e.rule.module_keyword,
    ) + " func="@ + keyword_text(e.rule.function_keyword) + " line="@ + line_text(e.rule.line)
        + " "@ + action_text(e.action) + " "@ + flags_text(
        e.rule.flags_set,
        e.rule.flags_clear,
        e.rule.flags_override,
    ) + "\n"@
}

/// The listing of the first `n` rules.
pub open spec fn rules_text(chain: Seq<DyndbgRuleEntry>, n: int) -> Seq<char>
    decreases n,
{
    if n <= 0 {
        Seq::empty()
    } else {
        rules_text(chain, n - 1) + rule_line((n - 1) as nat, snapshot_of_entry(chain[n - 1]))
    }
}

/// A call site in the listing: `file:line [module] function +p|-p
/// +trace|-trace <flags>`.
pub open spec fn descriptor_line(d: DescriptorView) -> Seq<char> {
    d.file + ":"@ + dec_chars(d.line as nat) + " ["@ + d.mod_path + "] "@ + function_or_unknown(d)
        + " "@ + (if d.log {
        "+p"@
    } else {
        "-p"@
    }) + " "@ + (if d.trace {
        "+trace"@
    } else {
        "-trace"@
    }) + " "@ + active_flags_text(d.flags) + "\n"@
}

/// The listing of the first `n` call sites.
pub open spec fn descriptors_text(ds: Seq<DescriptorView>, n: int) -> Seq<char>
    decreases n,
{
    if n <= 0 {
        Seq::empty()
    } else {
        descriptors_text(ds, n - 1) + descriptor_line(ds[n - 1])
    }
}

/// The usage note at the end of the file.
pub open spec fn dynamic_debug_usage() -> Seq<char> {
    "usage: [file=<kw>] [module=<kw>] [func=<kw>] [line=<n>] <action> | del <id> | clear\naction: +p|-p|+trace|-trace [+|-|=][f][l][m][t][_]  e.g. +pfl (enable log with func+line prefixes), +f (flags only), =fl (overwrite to func+line), +_ (clear all flags)\n"@
}

/// The whole file: the rule chain, then every call site, then the usage.
pub open spec fn dynamic_debug_text(chain: Seq<DyndbgRuleEntry>, ds: Seq<DescriptorView>) -> Seq<char> {
    "rules="@ + dec_chars(chain.len()) + " (last-match-wins)\n"@ + rules_text(chain, chain.len() as int)
        + "descriptors="@ + dec_chars(ds.len()) + "\n"@ + descriptors_text(ds, ds.len() as int)
        + dynamic_debug_usage()
}

fn push_keyword(buf: &mut String, o: &Option<String>)
    ensures
        final(buf)@ == old(buf)@ + keyword_text(*o),
{
    match o {
        Some(k) => buf.append(k.as_str()),
        None => buf.append("*"),
    }
}

fn push_line_selector(buf: &mut String, o: Option<u32>)
    ensures
        final(buf)@ == old(buf)@ + line_text(o),
{
    match o {
        Some(l) => push_decimal(buf, l as u64),
        None => buf.append("*"),
    }
}

fn push_action(buf: &mut String, a: DyndbgRuleActionSnapshot)
    ensures
        final(buf)@ == old(buf)@ + action_text(a),
{
    match a {
        DyndbgRuleActionSnapshot::EnableLog => buf.append("+p"),
        DyndbgRuleActionSnapshot::DisableLog => buf.append("-p"),
        DyndbgRuleActionSnapshot::EnableTrace => buf.append("+trace"),
        DyndbgRuleActionSnapshot::DisableTrace => buf.append("-trace"),
        DyndbgRuleActionSnapshot::KeepState => buf.append("flags-only"),
    }
}

#[verifier::spinoff_prover]
#[verifier::rlimit(30)]
fn push_rule_line(buf: &mut String, i: usize, e: &DyndbgRuleEntrySnapshot)
    ensures
        final(buf)@ == old(buf)@ + rule_line(i as nat, *e),
{
    let ghost b0 = buf@;
    push_decimal(buf, i as u64);
    buf.append(": file=");
    push_keyword(buf, &e.rule.file_keyword);
    buf.append(" module=");
    push_keyword(buf, &e.rule.module_keyword);
    buf.append(" func=");
    push_keyword(buf, &e.rule.function_keyword);
    buf.append(" line=");
    push_line_selector(buf, e.rule.line);
    buf.append(" ");
    push_action(buf, e.action);
    buf.append(" ");
    let flags = format_flags(e.rule.flags_set, e.rule.flags_clear, e.rule.flags_override);
    buf.append(flags.as_str());
    buf.append("\n");
    assert(buf@ =~= b0 + rule_line(i as nat, *e));
}

#[verifier::spinoff_prover]
#[verifier::rlimit(30)]
fn push_descriptor_line(buf: &mut String, d: &DebugDescriptor)
    ensures
        final(buf)@ == old(buf)@ + descriptor_line(d@),
{
    let ghost b0 = buf@;
    buf.append(d.file());
    buf.append(":");
    push_decimal(buf, d.line() as u64);
    buf.append(" [");
    buf.append(d.mod_path());
    buf.append("] ");
    push_function_name(buf, d);
    buf.append(" ");
    if d.should_log_fast() {
        buf.append("+p");
    } else {
        buf.append("-p");
    }
    buf.append(" ");
    if d.should_trace_fast() {
        buf.append("+trace");
    } else {
        buf.append("-trace");
    }
    buf.append(" ");
    let flags = format_active_flags(d.format_flags());
    buf.append(flags.as_str());
    buf.append("\n");
    assert(buf@ =~= b0 + descriptor_line(d@));
}

/// `/proc/sys/kernel/dynamic_debug`: the rule chain and the state of every
/// call site when read, a command when written.
pub struct DynamicDebugFileOps;

impl DynamicDebugFileOps {
    /// The contents of the file.
    #[verifier::spinoff_prover]
    #[verifier::rlimit(30)]
    pub fn render(&self, state: &DyndbgState) -> (r: String)
        ensures
            r@ == dynamic_debug_text(state.rule_chain(), state.descs()),
    {
        let mut buf = String::new();
        let rules = state.get_dyndbg_rule_chain_snapshot();
        buf.append("rules=");
        push_decimal(&mut buf, rules.len() as u64);
        buf.append(" (last-match-wins)\n");
        let ghost head = buf@;
        let mut i: usize = 0;
        while i < rules.len()
            invariant
                i <= rules@.len(),
                rules@.len() == state.rule_chain().len(),
                forall|q: int| 0 <= q < rules@.len() ==> #[trigger] rules@[q] == snapshot_of_entry(state.rule_chain()[q]),
                buf@ == head + rules_text(state.rule_chain(), i as int),
            decreases rules.len() - i,
        {
            push_rule_line(&mut buf, i, &rules[i]);
            i += 1;
        }
        let n = state.descriptor_count();
        buf.append("descriptors=");
        push_decimal(&mut buf, n as u64);
        buf.append("\n");
        let ghost mid = buf@;
        let mut j: usize = 0;
        while j < n
            invariant
                j <= n,
                n == state.descs().len(),
                buf@ == mid + descriptors_text(state.descs(), j as int),
            decreases n - j,
        {
            push_descriptor_line(&mut buf, state.descriptor(j));
            j += 1;
        }
        buf.append(
            "usage: [file=<kw>] [module=<kw>] [func=<kw>] [line=<n>] <action> | del <id> | clear\naction: +p|-p|+trace|-trace [+|-|=][f][l][m][t][_]  e.g. +pfl (enable log with func+line prefixes), +f (flags only), =fl (overwrite to func+line), +_ (clear all flags)\n",
        );
        assert(buf@ =~= dynamic_debug_text(state.rule_chain(), state.descs()));
        buf
    }

    /// Carry out a written command (surrounding white space ignored; an
    /// empty command is rejected).
    pub fn write_command(&self, state: &mut DyndbgState, keys: &mut StaticKeyRegistry, command: &str) -> (r: Result<(), CommandError>)
        requires
            old(state).wf(),
            old(state).keys_cover(old(keys)@),
        ensures
            final(state).wf(),
            final(state).keys_cover(final(keys)@),
            old(state).synced() ==> final(state).synced(),
            same_sites(old(state).descs(), final(state).descs()),
            trimmed(command@).len() == 0 ==> r == Err::<(), CommandError>(CommandError::EmptyCommand)
                && *final(state) == *old(state),
            trimmed(command@).len() > 0 ==> command_effect(old(state), final(state), command_kind(trimmed(command@)), r),
            r is Err ==> final(keys)@ == old(keys)@,
            r is Ok ==> gates_follow(*old(state), *final(state)),
            r is Ok ==> final(keys)@ == gate_patches(old(keys)@, *old(state), *final(state), MAX_DYNDBG_MODULES as int),
            r is Ok ==> patch_stats_follow(*old(state), *final(state)),
    {
        let command = trim(command);
        if command.unicode_len() == 0 {
            return Err(CommandError::EmptyCommand);
        }
        apply_command(state, keys, command)
    }
}

// ───────────────────────────── dyndbg_stats ─────────────────────────────

/// The statistics file: one `name=value` line per counter, then the usage.
pub open spec fn stats_text(s: &DyndbgState) -> Seq<char> {
    "descriptors_recomputed="@ + dec_chars(s.stat_recomputed() as nat) + "\n"@ + "modules_repatched="@
        + dec_chars(s.stat_modules_repatched() as nat) + "\n"@ + "sites_patched="@ + dec_chars(
        s.stat_sites_patched() as nat,
    ) + "\n"@ + "patch_transactions="@ + dec_chars(s.stat_transactions() as nat) + "\n"@
        + "last_update_latency_us="@ + dec_chars(s.stat_latency() as nat) + "\n"@
        + "usage: reset\n"@
}

/// Check a written command of a file whose only command is `reset`:
/// white space around it is ignored, an empty command and any other
/// command are rejected.
pub fn parse_reset_command(command: &str) -> (r: Result<(), CommandError>)
    ensures
        r == (if trimmed(command@).len() == 0 {
            Err(CommandError::EmptyCommand)
        } else if trimmed(command@) == "reset"@ {
            Ok(())
        } else {
            Err(CommandError::UnknownCommand)
        }),
{
    let command = trim(command);
    if command.unicode_len() == 0 {
        return Err(CommandError::EmptyCommand);
    }
    if str_eq(command, "reset") {
        return Ok(());
    }
    Err(CommandError::UnknownCommand)
}

/// `/proc/sys/kernel/dyndbg_stats`: the rule-update counters; writing
/// `reset` zeroes them.
pub struct DyndbgStatsFileOps;

impl DyndbgStatsFileOps {
    /// The contents of the file.
    #[verifier::spinoff_prover]
    #[verifier::rlimit(30)]
    pub fn render(&self, state: &DyndbgState) -> (r: String)
        ensures
            r@ == stats_text(state),
    {
        let stats = state.get_dyndbg_stats_snapshot();
        let mut buf = String::new();
        buf.append("descriptors_recomputed=");
        push_decimal(&mut buf, stats.descriptors_recomputed);
        buf.append("\n");
        buf.append("modules_repatched=");
        push_decimal(&mut buf, stats.modules_repatched);
        buf.append("\n");
        buf.append("sites_patched=");
        push_decimal(&mut buf, stats.sites_patched);
        buf.append("\n");
        buf.append("patch_transactions=");
        push_decimal(&mut buf, stats.patch_transactions);
        buf.append("\n");
        buf.append("last_update_latency_us=");
        push_decimal(&mut buf, stats.last_update_latency_us);
        buf.append("\n");
        buf.append("usage: reset\n");
        assert(buf@ =~= stats_text(state));
        buf
    }

    /// `reset` zeroes the counters; anything else is rejected.
    pub fn write_command(&self, state: &mut DyndbgState, command: &str) -> (r: Result<(), CommandError>)
        ensures
            r == (if trimmed(command@).len() == 0 {
                Err(CommandError::EmptyCommand)
            } else if trimmed(command@) == "reset"@ {
                Ok(())
            } else {
                Err(CommandError::UnknownCommand)
            }),
            r is Ok ==> {
                &&& final(state).same_core(old(state))
                &&& final(state).stat_recomputed() == 0
                &&& final(state).stat_modules_repatched() == 0
                &&& final(state).stat_sites_patched() == 0
                &&& final(state).stat_transactions() == 0
                &&& final(state).stat_latency() == 0
                &&& final(state).backend_code() == old(state).backend_code()
                &&& final(state).index_on() == old(state).index_on()
                &&& final(state).recompute_on() == old(state).recompute_on()
            },
            r is Err ==> *final(state) == *old(state),
    {
        let r = parse_reset_command(command);
        if r.is_ok() {
            state.reset_dyndbg_stats();
        }
        r
    }
}

// ───────────────────────────── dyndbg_hotspots ─────────────────────────────

/// How many hot call sites the hotspot file lists.
pub const TOP_N: usize = 10;

/// A hot call site in the listing: `rank. file:line [module] function
/// count=n`.
pub open spec fn hot_line(rank: nat, d: DescriptorView, count: u64) -> Seq<char> {
    dec_chars(rank) + ". "@ + d.file + ":"@ + dec_chars(d.line as nat) + " ["@ + d.mod_path + "] "@
        + function_or_unknown(d) + " count="@ + dec_chars(count as nat) + "\n"@
}

/// The listing of the first `n` hot sites (those whose index names no
/// registered call site are left out).
pub open spec fn hot_lines(ds: Seq<DescriptorView>, hot: Seq<(usize, u64)>, n: int) -> Seq<char>
    decreases n,
{
    if n <= 0 {
        Seq::empty()
    } else {
        hot_lines(ds, hot, n - 1) + (if (hot[n - 1].0 as int) < ds.len() {
            hot_line(n as nat, ds[hot[n - 1].0 as int], hot[n - 1].1)
        } else {
            Seq::empty()
        })
    }
}

/// The hotspot file: a header, the hot sites (or a note that there are
/// none), then the usage.
pub open spec fn hotspots_text(ds: Seq<DescriptorView>, hot: Seq<(usize, u64)>) -> Seq<char> {
    "top=10 (sites with trace hits, counts summed across CPUs; reset with: reset)\n"@ + (if hot.len()
        == 0 {
        "(no trace hits recorded; enable with +trace)\n"@
    } else {
        Seq::empty()
    }) + hot_lines(ds, hot, hot.len() as int) + "usage: reset\n"@
}

/// `/proc/sys/kernel/dyndbg_hotspots`: the call sites with the most trace
/// hits; writing `reset` asks for the hit counts to be zeroed.
pub struct DyndbgHotspotsFileOps;

impl DyndbgHotspotsFileOps {
    /// The contents of the file for the hot sites `hot` (hotspot index,
    /// hit count), hottest first; a hotspot index is a call-site id.
    #[verifier::spinoff_prover]
    #[verifier::rlimit(30)]
    pub fn render(&self, state: &DyndbgState, hot: &[(usize, u64)]) -> (r: String)
        requires
            hot@.len() < usize::MAX,
        ensures
            r@ == hotspots_text(state.descs(), hot@),
    {
        let mut buf = String::new();
        buf.append("top=10 (sites with trace hits, counts summed across CPUs; reset with: reset)\n");
        if hot.len() == 0 {
            buf.append("(no trace hits recorded; enable with +trace)\n");
        }
        let ghost head = buf@;
        let n = state.descriptor_count();
        let mut i: usize = 0;
        while i < hot.len()
            invariant
                i <= hot@.len(),
                hot@.len() < usize::MAX,
                n == state.descs().len(),
                buf@ == head + hot_lines(state.descs(), hot@, i as int),
            decreases hot.len() - i,
        {
            let (idx, count) = hot[i];
            if idx < n {
                let ghost b0 = buf@;
                let d = state.descriptor(idx);
                push_decimal(&mut buf, (i + 1) as u64);
                buf.append(". ");
                buf.append(d.file());
                buf.append(":");
                push_decimal(&mut buf, d.line() as u64);
                buf.append(" [");
                buf.append(d.mod_path());
                buf.append("] ");
                push_function_name(&mut buf, d);
                buf.append(" count=");
                push_decimal(&mut buf, count);
                buf.append("\n");
                assert(buf@ =~= b0 + hot_line((i + 1) as nat, state.descs()[idx as int], count));
            }
            i += 1;
        }
        buf.append("usage: reset\n");
        assert(buf@ =~= hotspots_text(state.descs(), hot@));
        buf
    }

    /// Check a written command: only `reset` is accepted.
    pub fn write_command(&self, command: &str) -> (r: Result<(), CommandError>)
        ensures
            r == (if trimmed(command@).len() == 0 {
                Err(CommandError::EmptyCommand)
            } else if trimmed(command@) == "reset"@ {
                Ok(())
            } else {
                Err(CommandError::UnknownCommand)
            }),
    {
        parse_reset_command(command)
    }
}

/// `a` is hotter than `b` (both `(index, hit count)`): more hits, or as
/// many hits and the lower index.
pub open spec fn hotter(a: (usize, u64), b: (usize, u64)) -> bool {
    a.1 > b.1 || (a.1 == b.1 && a.0 < b.0)
}

/// Site `k` appears in the listing `hot`.
pub open spec fn listed(hot: Seq<(usize, u64)>, k: int) -> bool {
    exists|i: int| 0 <= i < hot.len() && #[trigger] hot[i].0 == k
}

/// The `n` hottest sites with at least one hit, hottest first, from the hit
/// counts `counts` of every site (index = hotspot index): each entry is
/// `(index, count)`, entries are ordered by [`hotter`], and a site with hits
/// is left out only when `n` entries are listed and all of them are hotter.
pub fn hot_top(counts: &[u64], n: usize) -> (r: Vec<(usize, u64)>)
    ensures
        r@.len() <= n,
        forall|i: int|
            0 <= i < r@.len() ==> (#[trigger] r@[i].0 as int) < counts@.len() && r@[i].1 == counts@[r@[i].0 as int]
                && r@[i].1 > 0,
        forall|i: int, j: int| 0 <= i < j < r@.len() ==> hotter(#[trigger] r@[i], #[trigger] r@[j]),
        forall|k: int|
            0 <= k < counts@.len() && #[trigger] counts@[k] > 0 && !listed(r@, k) ==> r@.len() == n && (n > 0
                ==> hotter(r@.last(), (k as usize, counts@[k]))),
{
    let mut r: Vec<(usize, u64)> = Vec::new();
    let mut done = false;
    while r.len() < n && !done
        invariant
            r@.len() <= n,
            forall|i: int|
                0 <= i < r@.len() ==> (#[trigger] r@[i].0 as int) < counts@.len() && r@[i].1 == counts@[r@[i].0 as int]
                    && r@[i].1 > 0,
            forall|i: int, j: int| 0 <= i < j < r@.len() ==> hotter(#[trigger] r@[i], #[trigger] r@[j]),
            forall|k: int|
                0 <= k < counts@.len() && #[trigger] counts@[k] > 0 && !listed(r@, k) ==> (r@.len() > 0
                    ==> hotter(r@.last(), (k as usize, counts@[k]))),
            done ==> forall|k: int| 0 <= k < counts@.len() && #[trigger] counts@[k] > 0 ==> listed(r@, k),
        decreases n - r@.len() + (if done { 0int } else { 1int }),
    {
        let ghost prev = r@;
        let has_last = r.len() > 0;
        let (li, lc) = if has_last {
            r[r.len() - 1]
        } else {
            (0usize, 0u64)
        };
        let mut best: Option<usize> = None;
        let mut j: usize = 0;
        while j < counts.len()
            invariant
                j <= counts@.len(),
                r@ == prev,
                has_last == (prev.len() > 0),
                has_last ==> (li, lc) == prev.last(),
                match best {
                    Some(b) => {
                        &&& (b as int) < j
                        &&& counts@[b as int] > 0
                        &&& (has_last ==> hotter((li, lc), (b, counts@[b as int])))
                        &&& forall|k: int|
                            0 <= k < j && #[trigger] counts@[k] > 0 && (has_last ==> hotter(
                                (li, lc),
                                (k as usize, counts@[k]),
                            )) ==> k == b || hotter((b, counts@[b as int]), (k as usize, counts@[k]))
                    },
                    None => forall|k: int|
                        0 <= k < j && #[trigger] counts@[k] > 0 ==> (has_last && !hotter(
                            (li, lc),
                            (k as usize, counts@[k]),
                        )),
                },
            decreases counts.len() - j,
        {
            let c = counts[j];
            let after = !has_last || c < lc || (c == lc && j > li);
            if c > 0 && after {
                match best {
                    None => {
                        best = Some(j);
                    },
                    Some(b) => {
                        let cb = counts[b];
                        if c > cb || (c == cb && j < b) {
                            best = Some(j);
                        }
                    },
                }
            }
            j += 1;
        }
        match best {
            None => {
                done = true;
                assert forall|k: int| 0 <= k < counts@.len() && #[trigger] counts@[k] > 0 implies listed(
                    r@,
                    k,
                ) by {
                    if !listed(r@, k) {
                        assert(counts@[k] > 0);
                    }
                }
            },
            Some(b) => {
                let cb = counts[b];
                r.push((b, cb));
                assert(r@ == prev.push((b, cb)));
                assert(r@[prev.len() as int].0 == b);
                assert forall|k: int|
                    0 <= k < counts@.len() && #[trigger] counts@[k] > 0 && !listed(r@, k) implies hotter(
                    r@.last(),
                    (k as usize, counts@[k]),
                ) by {
                    if listed(prev, k) {
                        let i = choose|i: int| 0 <= i < prev.len() && #[trigger] prev[i].0 == k;
                        assert(r@[i].0 == k);
                    }
                    assert(k != b);
                }
                assert forall|i: int, j2: int| 0 <= i < j2 < r@.len() implies hotter(
                    #[trigger] r@[i],
                    #[trigger] r@[j2],
                ) by {
                    if j2 == prev.len() {
                        if i < prev.len() - 1 {
                            assert(hotter(prev[i], prev[prev.len() - 1]));
                        }
                    } else {
                        assert(hotter(prev[i], prev[j2]));
                    }
                }
            },
        }
    }
    assert forall|k: int| 0 <= k < counts@.len() && #[trigger] counts@[k] > 0 && !listed(r@, k) implies r@.len()
        == n && (n > 0 ==> hotter(r@.last(), (k as usize, counts@[k]))) by {
        if done {
        }
    }
    r
}

// ───────────────────────────── dyndbg_trace ─────────────────────────────

/// What a trace event names: `file:line [module] function`, or
/// `id=0x.. (unknown)` for an id of no registered call site.
pub open spec fn resolved_text(ds: Seq<DescriptorView>, id: u64) -> Seq<char> {
    if (id as int) < ds.len() {
        let d = ds[id as int];
        d.file + ":"@ + dec_chars(d.line as nat) + " ["@ + d.mod_path + "] "@ + function_or_unknown(d)
    } else {
        "id=0x"@ + hex_chars(id as nat) + " (unknown)"@
    }
}

/// Describe the call site with id `descriptor_id`.
#[verifier::spinoff_prover]
#[verifier::rlimit(30)]
pub fn resolve_descriptor(state: &DyndbgState, descriptor_id: u64) -> (r: String)
    ensures
        r@ == resolved_text(state.descs(), descriptor_id),
{
    let mut buf = String::new();
    let n = state.descriptor_count();
    if (descriptor_id as u128) < (n as u128) {
        let d = state.descriptor(descriptor_id as usize);
        buf.append(d.file());
        buf.append(":");
        push_decimal(&mut buf, d.line() as u64);
        buf.append(" [");
        buf.append(d.mod_path());
        buf.append("] ");
        push_function_name(&mut buf, d);
    } else {
        buf.append("id=0x");
        push_hex(&mut buf, descriptor_id);
        buf.append(" (unknown)");
    }
    assert(buf@ =~= resolved_text(state.descs(), descriptor_id));
    buf
}

/// A trace snapshot being read: its events and how many were lost.
pub struct PendingSnapshot {
    pub events: Vec<TraceEvent>,
    pub lost_this_read: u64,
}

/// The event lines of a snapshot: `cpu=.. tsc=.. <call site>`.
pub open spec fn event_lines(ds: Seq<DescriptorView>, evs: Seq<TraceEvent>, n: int) -> Seq<char>
    decreases n,
{
    if n <= 0 {
        Seq::empty()
    } else {
        event_lines(ds, evs, n - 1) + "cpu="@ + dec_chars(evs[n - 1].cpu as nat) + " tsc="@ + dec_chars(
            evs[n - 1].tsc as nat,
        ) + " "@ + resolved_text(ds, evs[n - 1].descriptor_id) + "\n"@
    }
}

/// The trace file: the event and loss counts, the snapshot being read (if
/// any), then the usage.
pub open spec fn trace_text(
    ds: Seq<DescriptorView>,
    count: u64,
    lost: u64,
    snap: Option<(Seq<TraceEvent>, u64)>,
) -> Seq<char> {
    "events="@ + dec_chars(count as nat) + "\n"@ + "lost="@ + dec_chars(lost as nat) + "\n"@ + (match snap {
        Some(p) => "snapshot: "@ + dec_chars(p.0.len()) + " events, "@ + dec_chars(p.1 as nat)
            + " lost (this read)\n"@ + (if p.0.len() == 0 {
            "(no events)\n"@
        } else {
            Seq::empty()
        }) + event_lines(ds, p.0, p.0.len() as int),
        None => Seq::empty(),
    }) + "usage: reset\n"@
}

/// `/proc/sys/kernel/dyndbg_trace`: reading from the start takes a
/// snapshot of the trace rings, which the rest of the read session shows;
/// writing `reset` empties the rings.
pub struct DyndbgTraceFileOps {
    pub pending: Option<PendingSnapshot>,
}

impl DyndbgTraceFileOps {
    /// No snapshot taken yet.
    pub fn new() -> (r: Self)
        ensures
            r.pending is None,
    {
        DyndbgTraceFileOps { pending: None }
    }

    /// The contents of the file for a read at `offset`: a read from the
    /// start first takes a new snapshot of the rings.
    #[verifier::spinoff_prover]
    #[verifier::rlimit(30)]
    pub fn render(&mut self, state: &DyndbgState, rings: &mut TraceRings, offset: usize) -> (r: String)
        requires
            old(rings).wf(),
        ensures
            final(rings).wf(),
            offset == 0 ==> (final(self).pending matches Some(p) && p.events@ == sort_by_stamp(
                drained_upto(old(rings).views(), old(rings).views().len() as int),
            ) && p.lost_this_read as int == lost_upto(old(rings).views(), old(rings).views().len() as int)
                % 0x1_0000_0000_0000_0000),
            offset != 0 ==> final(self).pending == old(self).pending && *final(rings) == *old(rings),
            r@ == trace_text(
                state.descs(),
                final(rings).count(),
                final(rings).lost_total(),
                match final(self).pending {
                    Some(p) => Some((p.events@, p.lost_this_read)),
                    None => None,
                },
            ),
    {
        if offset == 0 {
            let (events, lost_this_read) = snapshot_events(rings);
            self.pending = Some(PendingSnapshot { events, lost_this_read });
        }
        let count = crate::dyndbg_trace::event_count(rings);
        let lost = crate::dyndbg_trace::lost_count(rings);
        let mut buf = String::new();
        buf.append("events=");
        push_decimal(&mut buf, count);
        buf.append("\n");
        buf.append("lost=");
        push_decimal(&mut buf, lost);
        buf.append("\n");
        let ghost b1 = buf@;
        match &self.pending {
            Some(snapshot) => {
                buf.append("snapshot: ");
                push_decimal(&mut buf, snapshot.events.len() as u64);
                buf.append(" events, ");
                push_decimal(&mut buf, snapshot.lost_this_read);
                buf.append(" lost (this read)\n");
                if snapshot.events.len() == 0 {
                    buf.append("(no events)\n");
                }
                let ghost b2 = buf@;
                let mut i: usize = 0;
                while i < snapshot.events.len()
                    invariant
                        i <= snapshot.events@.len(),
                        buf@ == b2 + event_lines(state.descs(), snapshot.events@, i as int),
                    decreases snapshot.events.len() - i,
                {
                    let e = snapshot.events[i];
                    buf.append("cpu=");
                    push_decimal(&mut buf, e.cpu as u64);
                    buf.append(" tsc=");
                    push_decimal(&mut buf, e.tsc);
                    buf.append(" ");
                    let info = resolve_descriptor(state, e.descriptor_id);
                    buf.append(info.as_str());
                    buf.append("\n");
                    proof {
                        let ev = snapshot.events@;
                        assert(event_lines(state.descs(), ev, i + 1) =~= event_lines(state.descs(), ev, i as int) + "cpu="@ + dec_chars(ev[i as int].cpu as nat) + " tsc="@ + dec_chars(ev[i as int].tsc as nat) + " "@ + resolved_text(state.descs(), ev[i as int].descriptor_id) + "\n"@);
                    }
                    i += 1;
                }
            },
            None => {},
        }
        buf.append("usage: reset\n");
        assert(buf@ =~= trace_text(
            state.descs(),
            rings.count(),
            rings.lost_total(),
            match self.pending {
                Some(p) => Some((p.events@, p.lost_this_read)),
                None => None,
            },
        ));
        buf
    }

    /// `reset` empties the trace rings and zeroes their counters; anything
    /// else is rejected.
    pub fn write_command(&self, rings: &mut TraceRings, command: &str) -> (r: Result<(), CommandError>)
        requires
            old(rings).wf(),
        ensures
            final(rings).wf(),
            r == (if trimmed(command@).len() == 0 {
                Err(CommandError::EmptyCommand)
            } else if trimmed(command@) == "reset"@ {
                Ok(())
            } else {
                Err(CommandError::UnknownCommand)
            }),
            r is Err ==> *final(rings) == *old(rings),
            r is Ok ==> {
                &&& final(rings).views().len() == old(rings).views().len()
                &&& forall|i: int| 0 <= i < old(rings).views().len() ==> #[trigger] final(rings).views()[i].log.len() == 0
                    && final(rings).views()[i].watermark == 0 && final(rings).views()[i].cap == old(rings).views()[i].cap
                &&& final(rings).count() == 0
                &&& final(rings).lost_total() == 0
            },
    {
        let r = parse_reset_command(command);
        if r.is_ok() {
            crate::dyndbg_trace::reset(rings);
        }
        r
    }
}

// ───────────────────────────── tsc ─────────────────────────────

/// `/proc/sys/kernel/tsc`: the time-stamp counter frequency and value.
pub struct TscFileOps;

impl TscFileOps {
    /// The contents of the file: `<frequency in Hz> <counter>`.
    pub fn render(&self, tsc_freq: u64, tsc: u64) -> (r: String)
        ensures
            r@ == dec_chars(tsc_freq as nat) + " "@ + dec_chars(tsc as nat) + "\n"@,
    {
        let mut buf = String::new();
        push_decimal(&mut buf, tsc_freq);
        buf.append(" ");
        push_decimal(&mut buf, tsc);
        buf.append("\n");
        assert(buf@ =~= dec_chars(tsc_freq as nat) + " "@ + dec_chars(tsc as nat) + "\n"@);
        buf
    }
}

// ───────────────────────────── /proc/sys/kernel ─────────────────────────────

/// A child of `/proc/sys/kernel`.
#[derive(Debug, Clone, Copy, PartialEq, Eq, Structural)]
pub enum KernelEntry {
    CapLastCap,
    DynamicDebug,
    DyndbgBench,
    DyndbgStats,
    PidMax,
    Tsc,
    Yama,
}

/// The file name of a child of `/proc/sys/kernel`.
pub open spec fn kernel_entry_name(e: KernelEntry) -> Seq<char> {
    match e {
        KernelEntry::CapLastCap => "cap_last_cap"@,
        KernelEntry::DynamicDebug => "dynamic_debug"@,
        KernelEntry::DyndbgBench => "dyndbg_bench"@,
        KernelEntry::DyndbgStats => "dyndbg_stats"@,
        KernelEntry::PidMax => "pid_max"@,
        KernelEntry::Tsc => "tsc"@,
        KernelEntry::Yama => "yama"@,
    }
}

/// The children of `/proc/sys/kernel`, in listing order.
pub open spec fn kernel_entries() -> Seq<KernelEntry> {
    seq![
        KernelEntry::CapLastCap,
        KernelEntry::DynamicDebug,
        KernelEntry::DyndbgBench,
        KernelEntry::DyndbgStats,
        KernelEntry::PidMax,
        KernelEntry::Tsc,
        KernelEntry::Yama,
    ]
}

/// The directory `/proc/sys/kernel`: a fixed table of children.
pub struct KernelDirOps;

impl KernelDirOps {
    /// The file name of `entry`.
    pub fn entry_name(&self, entry: KernelEntry) -> (r: &'static str)
        ensures
            r@ == kernel_entry_name(entry),
    {
        match entry {
            KernelEntry::CapLastCap => "cap_last_cap",
            KernelEntry::DynamicDebug => "dynamic_debug",
            KernelEntry::DyndbgBench => "dyndbg_bench",
            KernelEntry::DyndbgStats => "dyndbg_stats",
            KernelEntry::PidMax => "pid_max",
            KernelEntry::Tsc => "tsc",
            KernelEntry::Yama => "yama",
        }
    }

    /// The child called `name`; `None` when the directory has no such file.
    pub fn lookup_child(&self, name: &str) -> (r: Option<KernelEntry>)
        ensures
            match r {
                Some(e) => kernel_entry_name(e) == name@,
                None => forall|e: KernelEntry| kernel_entry_name(e) != name@,
            },
    {
        let mut i: usize = 0;
        let children = self.children();
        while i < children.len()
            invariant
                children@ == kernel_entries(),
                i <= children@.len(),
                forall|k: int| 0 <= k < i ==> kernel_entry_name(#[trigger] kernel_entries()[k]) != name@,
            decreases children.len() - i,
        {
            let e = children[i];
            if str_eq(self.entry_name(e), name) {
                return Some(e);
            }
            i += 1;
        }
        assert forall|e: KernelEntry| kernel_entry_name(e) != name@ by {
            match e {
                KernelEntry::CapLastCap => assert(kernel_entries()[0] == e),
                KernelEntry::DynamicDebug => assert(kernel_entries()[1] == e),
                KernelEntry::DyndbgBench => assert(kernel_entries()[2] == e),
                KernelEntry::DyndbgStats => assert(kernel_entries()[3] == e),
                KernelEntry::PidMax => assert(kernel_entries()[4] == e),
                KernelEntry::Tsc => assert(kernel_entries()[5] == e),
                KernelEntry::Yama => assert(kernel_entries()[6] == e),
            }
        }
        None
    }

    /// Every child, in listing order.
    pub fn children(&self) -> (r: Vec<KernelEntry>)
        ensures
            r@ == kernel_entries(),
    {
        let r = vec![
            KernelEntry::CapLastCap,
            KernelEntry::DynamicDebug,
            KernelEntry::DyndbgBench,
            KernelEntry::DyndbgStats,
            KernelEntry::PidMax,
            KernelEntry::Tsc,
            KernelEntry::Yama,
        ];
        assert(r@ =~= kernel_entries());
        r
    }
}

// ───────────────────────────── printed flags parse back ─────────────────────────────

proof fn lemma_or_facts(x: u8, y: u8, z: u8)
    by (bit_vector)
    ensures
        (x | y) | z == x | (y | z),
        x | 0u8 == x,
        0u8 | x == x,
        x < 16 && y < 16 ==> (x | y) < 16,
{
}

proof fn lemma_low_bits(v: u8)
    by (bit_vector)
    requires
        v < 16,
    ensures
        (((if v & 1u8 != 0 { 1u8 } else { 0u8 }) | (if v & 2u8 != 0 { 2u8 } else { 0u8 })) | (if v & 4u8 != 0 {
            4u8
        } else {
            0u8
        })) | (if v & 8u8 != 0 { 8u8 } else { 0u8 }) == v,
{
}

/// The flag bits the characters of `s` stand for, together.
spec fn flag_bits(s: Seq<char>) -> u8
    decreases s.len(),
{
    if s.len() == 0 {
        0
    } else {
        flag_bit(s[0]) | flag_bits(s.drop_first())
    }
}

/// Every character of `s` is a flag character.
spec fn all_flag_chars(s: Seq<char>) -> bool {
    forall|k: int| 0 <= k < s.len() ==> flag_bit(#[trigger] s[k]) != 0
}

proof fn lemma_flag_bits_concat(a: Seq<char>, b: Seq<char>)
    ensures
        flag_bits(a + b) == flag_bits(a) | flag_bits(b),
    decreases a.len(),
{
    if a.len() == 0 {
        assert(a + b =~= b);
        lemma_or_facts(flag_bits(b), 0, 0);
    } else {
        lemma_flag_bits_concat(a.drop_first(), b);
        assert((a + b).drop_first() =~= a.drop_first() + b);
        lemma_or_facts(flag_bit(a[0]), flag_bits(a.drop_first()), flag_bits(b));
    }
}

proof fn lemma_one_letter(c: char)
    ensures
        flag_bits(seq![c]) == flag_bit(c),
{
    assert(seq![c].drop_first() =~= Seq::<char>::empty());
    assert(flag_bits(Seq::<char>::empty()) == 0);
    assert(seq![c][0] == c);
    assert(flag_bits(seq![c]) == flag_bit(c) | flag_bits(seq![c].drop_first()));
    lemma_or_facts(flag_bit(c), 0, 0);
}

/// The letters of a flag set below 16 stand for exactly that set.
proof fn lemma_flag_letters(v: u8)
    requires
        v < 16,
    ensures
        flag_bits(flag_letters(v)) == v,
        all_flag_chars(flag_letters(v)),
        flag_letters(v).len() <= 4,
        v != 0 ==> flag_letters(v).len() > 0,
{
    let a: Seq<char> = if v & FLAG_FUNCTION != 0 { seq!['f'] } else { Seq::empty() };
    let b: Seq<char> = if v & FLAG_LINE != 0 { seq!['l'] } else { Seq::empty() };
    let c: Seq<char> = if v & FLAG_MODULE != 0 { seq!['m'] } else { Seq::empty() };
    let d: Seq<char> = if v & FLAG_THREAD != 0 { seq!['t'] } else { Seq::empty() };
    assert(flag_letters(v) == a + b + c + d);
    lemma_one_letter('f');
    lemma_one_letter('l');
    lemma_one_letter('m');
    lemma_one_letter('t');
    lemma_flag_bits_concat(a, b);
    lemma_flag_bits_concat(a + b, c);
    lemma_flag_bits_concat(a + b + c, d);
    lemma_low_bits(v);
    assert forall|k: int| 0 <= k < flag_letters(v).len() implies flag_bit(#[trigger] flag_letters(v)[k]) != 0 by {
        let l = flag_letters(v);
        assert(l[k] == 'f' || l[k] == 'l' || l[k] == 'm' || l[k] == 't');
    }
    if v != 0 && flag_letters(v).len() == 0 {
        assert(a.len() == 0 && b.len() == 0 && c.len() == 0 && d.len() == 0);
        assert(flag_bits(a) == 0 && flag_bits(b) == 0 && flag_bits(c) == 0 && flag_bits(d) == 0);
    }
}

/// What scanning the flag characters `s` with operator `op` gives on top of
/// `acc`.
spec fn scanned(op: char, acc: ParsedAction, s: Seq<char>) -> ParsedAction {
    if s.len() == 0 {
        acc
    } else if op == '=' {
        ParsedAction {
            flags_override: Some(
                match acc.flags_override {
                    Some(v) => v,
                    None => 0u8,
                } | flag_bits(s),
            ),
            ..acc
        }
    } else if op == '-' {
        ParsedAction { flags_clear: acc.flags_clear | flag_bits(s), ..acc }
    } else {
        ParsedAction { flags_set: acc.flags_set | flag_bits(s), ..acc }
    }
}

proof fn lemma_scan_flags(t: Seq<char>, op: char, i: int, acc: ParsedAction)
    requires
        0 <= i <= t.len(),
        all_flag_chars(t.subrange(i, t.len() as int)),
    ensures
        action_scan(t, op, i, acc) == Ok::<ParsedAction, CommandError>(scanned(op, acc, t.subrange(i, t.len() as int))),
    decreases t.len() - i,
{
    let s = t.subrange(i, t.len() as int);
    if i < t.len() {
        let c = t[i];
        assert(s[0] == c);
        assert(flag_bit(c) != 0);
        let bit = flag_bit(c);
        let next = if op == '=' {
            ParsedAction {
                flags_override: Some(
                    match acc.flags_override {
                        Some(v) => v,
                        None => 0u8,
                    } | bit,
                ),
                ..acc
            }
        } else if op == '-' {
            ParsedAction { flags_clear: acc.flags_clear | bit, ..acc }
        } else {
            ParsedAction { flags_set: acc.flags_set | bit, ..acc }
        };
        let rest = t.subrange(i + 1, t.len() as int);
        assert(s.drop_first() =~= rest);
        assert forall|k: int| 0 <= k < rest.len() implies flag_bit(#[trigger] rest[k]) != 0 by {
            assert(rest[k] == s[k + 1]);
        }
        lemma_scan_flags(t, op, i + 1, next);
        assert(action_scan(t, op, i, acc) == action_scan(t, op, i + 1, next));
        let base = match acc.flags_override {
            Some(v) => v,
            None => 0u8,
        };
        lemma_or_facts(base, bit, flag_bits(rest));
        lemma_or_facts(acc.flags_clear, bit, flag_bits(rest));
        lemma_or_facts(acc.flags_set, bit, flag_bits(rest));
        lemma_or_facts(bit, 0, 0);
    } else {
        assert(s.len() == 0);
    }
}

/// Flag operations that a parsed action token can carry.
spec fn action_flags_ok(op: char, a: ParsedAction) -> bool {
    &&& a.flags_set < 16
    &&& (a.flags_clear < 16 || a.flags_clear == 0xffu8)
    &&& op == '=' ==> a.flags_set == 0 && a.flags_clear == 0 && (a.flags_override matches Some(v) ==> v < 16)
    &&& op != '=' ==> a.flags_override is None
    &&& op == '-' ==> a.flags_set == 0 && a.flags_clear < 16
}

proof fn lemma_scan_keeps_flags_ok(t: Seq<char>, op: char, i: int, acc: ParsedAction, p: ParsedAction)
    requires
        0 <= i,
        action_scan(t, op, i, acc) == Ok::<ParsedAction, CommandError>(p),
        action_flags_ok(op, acc),
    ensures
        action_flags_ok(op, p),
    decreases t.len() - i,
{
    if i < t.len() {
        let c = t[i];
        let bit = flag_bit(c);
        lemma_or_facts(acc.flags_set, FLAG_FUNCTION, 0);
        lemma_or_facts(acc.flags_set, FLAG_LINE, 0);
        lemma_or_facts(acc.flags_set, FLAG_MODULE, 0);
        lemma_or_facts(acc.flags_set, FLAG_THREAD, 0);
        lemma_or_facts(acc.flags_clear, FLAG_FUNCTION, 0);
        lemma_or_facts(acc.flags_clear, FLAG_LINE, 0);
        lemma_or_facts(acc.flags_clear, FLAG_MODULE, 0);
        lemma_or_facts(acc.flags_clear, FLAG_THREAD, 0);
        let base = match acc.flags_override {
            Some(v) => v,
            None => 0u8,
        };
        lemma_or_facts(base, FLAG_FUNCTION, 0);
        lemma_or_facts(base, FLAG_LINE, 0);
        lemma_or_facts(base, FLAG_MODULE, 0);
        lemma_or_facts(base, FLAG_THREAD, 0);
        if c == 'p' {
            let next = ParsedAction {
                action: Some(
                    if op == '-' {
                        DyndbgRuleActionSnapshot::DisableLog
                    } else {
                        DyndbgRuleActionSnapshot::EnableLog
                    },
                ),
                ..acc
            };
            lemma_scan_keeps_flags_ok(t, op, i + 1, next, p);
        } else if c == '_' {
            if op == '=' {
                lemma_scan_keeps_flags_ok(t, op, i + 1, ParsedAction { flags_override: Some(0u8), ..acc }, p);
            } else if op != '-' {
                lemma_scan_keeps_flags_ok(t, op, i + 1, ParsedAction { flags_clear: 0xffu8, ..acc }, p);
            }
        } else if bit != 0 {
            if op == '=' {
                lemma_scan_keeps_flags_ok(
                    t,
                    op,
                    i + 1,
                    ParsedAction { flags_override: Some(base | bit), ..acc },
                    p,
                );
            } else if op == '-' {
                lemma_scan_keeps_flags_ok(t, op, i + 1, ParsedAction { flags_clear: acc.flags_clear | bit, ..acc }, p);
            } else {
                lemma_scan_keeps_flags_ok(t, op, i + 1, ParsedAction { flags_set: acc.flags_set | bit, ..acc }, p);
            }
        }
    }
}

/// Printing the flag operation of a parsed action token and parsing the
/// printed text again gives the same flag operation back, unless the token
/// both set and cleared flags (`+f` followed by `_`), whose printed form
/// `+f+_` is not one token.
pub proof fn law_flags_text_parses_back(t: Seq<char>, p: ParsedAction)
    requires
        action_of_token(t) == Ok::<ParsedAction, CommandError>(p),
        !(p.flags_set != 0 && p.flags_clear != 0),
    ensures
        action_of_token(flags_text(p.flags_set, p.flags_clear, p.flags_override)) matches Ok(q) && q.flags_set
            == p.flags_set && q.flags_clear == p.flags_clear && q.flags_override == p.flags_override,
{
    reveal_strlit("+trace");
    reveal_strlit("-trace");
    if t != "+trace"@ && t != "-trace"@ {
        lemma_scan_keeps_flags_ok(t, t[0], 1, empty_action(), p);
    }
    let txt = flags_text(p.flags_set, p.flags_clear, p.flags_override);
    let e = empty_action();
    match p.flags_override {
        Some(v) => {
            lemma_flag_letters(v);
            if v == 0 {
                assert(txt =~= seq!['=', '_']);
                assert(action_scan(txt, '=', 1, e) == action_scan(txt, '=', 2, ParsedAction { flags_override: Some(0u8), ..e }));
            } else {
                let l = flag_letters(v);
                assert(txt == seq!['='] + l);
                assert(txt.subrange(1, txt.len() as int) =~= l);
                lemma_scan_flags(txt, '=', 1, e);
                lemma_or_facts(v, 0, 0);
            }
        },
        None => {
            if p.flags_set == 0 && p.flags_clear == 0 {
                assert(txt =~= seq!['-']);
            } else if p.flags_set != 0 {
                let l = flag_letters(p.flags_set);
                lemma_flag_letters(p.flags_set);
                assert(txt =~= seq!['+'] + l);
                assert(txt.subrange(1, txt.len() as int) =~= l);
                lemma_scan_flags(txt, '+', 1, e);
                lemma_or_facts(p.flags_set, 0, 0);
            } else if p.flags_clear == 0xffu8 {
                assert(txt =~= seq!['+', '_']);
                assert(action_scan(txt, '+', 1, e) == action_scan(txt, '+', 2, ParsedAction { flags_clear: 0xffu8, ..e }));
            } else {
                let l = flag_letters(p.flags_clear);
                lemma_flag_letters(p.flags_clear);
                assert(txt =~= seq!['-'] + l);
                assert(txt.subrange(1, txt.len() as int) =~= l);
                lemma_scan_flags(txt, '-', 1, e);
                lemma_or_facts(p.flags_clear, 0, 0);
            }
        },
    }
}

// ───────────────────────────── what the files show ─────────────────────────────

/// `s` starts with `p`.
pub open spec fn starts_with(s: Seq<char>, p: Seq<char>) -> bool {
    p.len() <= s.len() && s.take(p.len() as int) == p
}

proof fn lemma_starts_with(p: Seq<char>, t: Seq<char>)
    ensures
        starts_with(p + t, p),
{
    assert((p + t).take(p.len() as int) =~= p);
}

/// The rule listing shows each selector under its own name: a rule that a
/// single `file=<v>`, `module=<v>` or `func=<v>` selector made is listed
/// with `v` after `file=`, `module=` or `func=` respectively and `*` after
/// the other two.
pub proof fn law_listing_shows_selectors(i: nat, e: DyndbgRuleEntry, v: Seq<char>, a: ParsedAction)
    ensures
        is_appended_entry(e, only_file(v), a) ==> starts_with(
            rule_line(i, snapshot_of_entry(e)),
            dec_chars(i) + ": file="@ + v + " module="@ + "*"@ + " func="@ + "*"@ + " line="@,
        ),
        is_appended_entry(e, only_module(v), a) ==> starts_with(
            rule_line(i, snapshot_of_entry(e)),
            dec_chars(i) + ": file="@ + "*"@ + " module="@ + v + " func="@ + "*"@ + " line="@,
        ),
        is_appended_entry(e, only_func(v), a) ==> starts_with(
            rule_line(i, snapshot_of_entry(e)),
            dec_chars(i) + ": file="@ + "*"@ + " module="@ + "*"@ + " func="@ + v + " line="@,
        ),
{
    let s = snapshot_of_entry(e);
    let t = line_text(s.rule.line) + " "@ + action_text(s.action) + " "@ + flags_text(
        s.rule.flags_set,
        s.rule.flags_clear,
        s.rule.flags_override,
    ) + "\n"@;
    if is_appended_entry(e, only_file(v), a) {
        assert(rule_line(i, s) == dec_chars(i) + ": file="@ + v + " module="@ + "*"@ + " func="@ + "*"@
            + " line="@ + t);
        lemma_starts_with(dec_chars(i) + ": file="@ + v + " module="@ + "*"@ + " func="@ + "*"@ + " line="@, t);
    }
    if is_appended_entry(e, only_module(v), a) {
        assert(rule_line(i, s) == dec_chars(i) + ": file="@ + "*"@ + " module="@ + v + " func="@ + "*"@
            + " line="@ + t);
        lemma_starts_with(dec_chars(i) + ": file="@ + "*"@ + " module="@ + v + " func="@ + "*"@ + " line="@, t);
    }
    if is_appended_entry(e, only_func(v), a) {
        assert(rule_line(i, s) == dec_chars(i) + ": file="@ + "*"@ + " module="@ + "*"@ + " func="@ + v
            + " line="@ + t);
        lemma_starts_with(dec_chars(i) + ": file="@ + "*"@ + " module="@ + "*"@ + " func="@ + v + " line="@, t);
    }
}

proof fn lemma_no_loss<T>(vs: Seq<RingView<T>>, n: int)
    requires
        0 <= n <= vs.len(),
        forall|i: int|
            0 <= i < vs.len() ==> (#[trigger] vs[i]).cap > 0 && 0 <= vs[i].watermark <= vs[i].log.len()
                && produced(vs[i]) <= vs[i].cap,
    ensures
        lost_upto(vs, n) == 0,
    decreases n,
{
    if n > 0 {
        lemma_no_loss(vs, n - 1);
        law_drain_of_ring(vs[n - 1]);
    }
}

/// A trace read reports, on its `snapshot:` line, what its own snapshot
/// lost rather than the running total: when no ring overflowed since the
/// previous snapshot the line reads `0 lost`, whatever the total on the
/// `lost=` line is.
pub proof fn law_trace_read_reports_its_own_loss(
    ds: Seq<DescriptorView>,
    count: u64,
    total: u64,
    vs: Seq<RingView<TraceEvent>>,
    evs: Seq<TraceEvent>,
)
    requires
        forall|i: int|
            0 <= i < vs.len() ==> (#[trigger] vs[i]).cap > 0 && 0 <= vs[i].watermark <= vs[i].log.len()
                && produced(vs[i]) <= vs[i].cap,
    ensures
        starts_with(
            trace_text(ds, count, total, Some((evs, (lost_upto(vs, vs.len() as int) % 0x1_0000_0000_0000_0000) as u64))),
            "events="@ + dec_chars(count as nat) + "\n"@ + "lost="@ + dec_chars(total as nat) + "\n"@ + "snapshot: "@
                + dec_chars(evs.len()) + " events, "@ + "0"@ + " lost (this read)\n"@,
        ),
{
    lemma_no_loss(vs, vs.len() as int);
    reveal_strlit("0");
    assert(dec_chars(0) =~= "0"@);
    let t = (if evs.len() == 0 {
        "(no events)\n"@
    } else {
        Seq::empty()
    }) + event_lines(ds, evs, evs.len() as int) + "usage: reset\n"@;
    assert(trace_text(ds, count, total, Some((evs, 0u64))) == "events="@ + dec_chars(count as nat) + "\n"@
        + "lost="@ + dec_chars(total as nat) + "\n"@ + "snapshot: "@ + dec_chars(evs.len()) + " events, "@
        + "0"@ + " lost (this read)\n"@ + t);
    lemma_starts_with(
        "events="@ + dec_chars(count as nat) + "\n"@ + "lost="@ + dec_chars(total as nat) + "\n"@ + "snapshot: "@
            + dec_chars(evs.len()) + " events, "@ + "0"@ + " lost (this read)\n"@,
        t,
    );
}

proof fn lemma_hot_lines_prefix(ds: Seq<DescriptorView>, hot: Seq<(usize, u64)>, k: int, n: int)
    requires
        0 <= k <= n,
    ensures
        exists|t: Seq<char>| hot_lines(ds, hot, n) == hot_lines(ds, hot, k) + t,
    decreases n - k,
{
    if k < n {
        lemma_hot_lines_prefix(ds, hot, k, n - 1);
        let t0 = choose|t: Seq<char>| hot_lines(ds, hot, n - 1) == hot_lines(ds, hot, k) + t;
        let last = if (hot[n - 1].0 as int) < ds.len() {
            hot_line(n as nat, ds[hot[n - 1].0 as int], hot[n - 1].1)
        } else {
            Seq::empty()
        };
        assert(hot_lines(ds, hot, n) == hot_lines(ds, hot, k) + (t0 + last));
    } else {
        assert(hot_lines(ds, hot, n) == hot_lines(ds, hot, k) + Seq::<char>::empty());
    }
}

/// The hotspot listing follows the ranking: after its header it lists
/// `hot[0]` as rank 1 first, then `hot[1]` as rank 2, and in general the
/// lines of the first `k` hot sites come before all the others.
pub proof fn law_hotspots_in_rank_order(ds: Seq<DescriptorView>, hot: Seq<(usize, u64)>, k: int)
    requires
        hot.len() >= 1,
        forall|i: int| 0 <= i < hot.len() ==> (#[trigger] hot[i].0 as int) < ds.len(),
        0 <= k <= hot.len(),
    ensures
        starts_with(
            hotspots_text(ds, hot),
            "top=10 (sites with trace hits, counts summed across CPUs; reset with: reset)\n"@ + hot_line(
                1,
                ds[hot[0].0 as int],
                hot[0].1,
            ) + (if hot.len() >= 2 {
                hot_line(2, ds[hot[1].0 as int], hot[1].1)
            } else {
                Seq::empty()
            }),
        ),
        starts_with(
            hotspots_text(ds, hot),
            "top=10 (sites with trace hits, counts summed across CPUs; reset with: reset)\n"@ + hot_lines(ds, hot, k),
        ),
{
    let head = "top=10 (sites with trace hits, counts summed across CPUs; reset with: reset)\n"@;
    let n = hot.len() as int;
    let first_two = if n >= 2 { 2int } else { 1int };
    lemma_hot_lines_prefix(ds, hot, first_two, n);
    let t = choose|t: Seq<char>| hot_lines(ds, hot, n) == hot_lines(ds, hot, first_two) + t;
    assert((hot[0].0 as int) < ds.len());
    assert(hot_lines(ds, hot, 0) == Seq::<char>::empty());
    assert(hot_lines(ds, hot, 1) == Seq::<char>::empty() + hot_line(1, ds[hot[0].0 as int], hot[0].1));
    if n >= 2 {
        assert((hot[1].0 as int) < ds.len());
    }
    assert(hot_lines(ds, hot, first_two) =~= hot_line(1, ds[hot[0].0 as int], hot[0].1) + (if n >= 2 {
        hot_line(2, ds[hot[1].0 as int], hot[1].1)
    } else {
        Seq::empty()
    }));
    assert(hotspots_text(ds, hot) == head + hot_line(1, ds[hot[0].0 as int], hot[0].1) + (if n >= 2 {
        hot_line(2, ds[hot[1].0 as int], hot[1].1)
    } else {
        Seq::empty()
    }) + (t + "usage: reset\n"@));
    lemma_starts_with(head + hot_line(1, ds[hot[0].0 as int], hot[0].1) + (if n >= 2 {
        hot_line(2, ds[hot[1].0 as int], hot[1].1)
    } else {
        Seq::empty()
    }), t + "usage: reset\n"@);
    lemma_hot_lines_prefix(ds, hot, k, n);
    let t2 = choose|t: Seq<char>| hot_lines(ds, hot, n) == hot_lines(ds, hot, k) + t;
    assert(hotspots_text(ds, hot) == head + hot_lines(ds, hot, k) + (t2 + "usage: reset\n"@));
    lemma_starts_with(head + hot_lines(ds, hot, k), t2 + "usage: reset\n"@);
}

proof fn lemma_counts_bounds(s0: DyndbgState, s1: DyndbgState, upto: int)
    requires
        0 <= upto,
    ensures
        0 <= gate_patch_counts(s0, s1, upto).0 <= upto,
        0 <= gate_patch_counts(s0, s1, upto).1,
    decreases upto,
{
    if upto > 0 {
        lemma_counts_bounds(s0, s1, upto - 1);
    }
}

/// The statistics file reports the patching: starting from zeroed
/// statistics, after a change that patched the modules whose gates
/// flipped, it reads after `modules_repatched=` the number of those modules
/// (that have sites) and after `sites_patched=` the number of their sites.
pub proof fn law_stats_report_patches(s0: DyndbgState, s1: DyndbgState)
    requires
        s0.stat_modules_repatched() == 0,
        s0.stat_sites_patched() == 0,
        s0.stat_transactions() == 0,
        patch_stats_follow(s0, s1),
        gate_patch_counts(s0, s1, MAX_DYNDBG_MODULES as int).1 < 0x1_0000_0000_0000_0000,
    ensures
        starts_with(
            stats_text(&s1),
            "descriptors_recomputed="@ + dec_chars(s1.stat_recomputed() as nat) + "\n"@ + "modules_repatched="@
                + dec_chars(gate_patch_counts(s0, s1, MAX_DYNDBG_MODULES as int).0 as nat) + "\n"@ + "sites_patched="@
                + dec_chars(gate_patch_counts(s0, s1, MAX_DYNDBG_MODULES as int).1 as nat) + "\n"@,
        ),
{
    let c = gate_patch_counts(s0, s1, MAX_DYNDBG_MODULES as int);
    lemma_counts_bounds(s0, s1, MAX_DYNDBG_MODULES as int);
    assert(s1.stat_modules_repatched() as int == c.0);
    assert(s1.stat_sites_patched() as int == c.1);
    let t = "patch_transactions="@ + dec_chars(s1.stat_transactions() as nat) + "\n"@ + "last_update_latency_us="@
        + dec_chars(s1.stat_latency() as nat) + "\n"@ + "usage: reset\n"@;
    assert(stats_text(&s1) == "descriptors_recomputed="@ + dec_chars(s1.stat_recomputed() as nat) + "\n"@
        + "modules_repatched="@ + dec_chars(c.0 as nat) + "\n"@ + "sites_patched="@ + dec_chars(c.1 as nat)
        + "\n"@ + t);
    lemma_starts_with(
        "descriptors_recomputed="@ + dec_chars(s1.stat_recomputed() as nat) + "\n"@ + "modules_repatched="@
            + dec_chars(c.0 as nat) + "\n"@ + "sites_patched="@ + dec_chars(c.1 as nat) + "\n"@,
        t,
    );
}

} // verus!
