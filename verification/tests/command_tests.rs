use aster_dyndbg::bench::{
    bench_elapsed_us, parse_backend, parse_index, parse_mode, parse_recompute, run_bench, BenchMode,
    BenchState, DyndbgBenchFileOps,
};
use aster_dyndbg::command::{
    append_rule, apply_command, delete_rule, parse_action, parse_selector, CommandError, ParsedAction, EINVAL,
};
use aster_dyndbg::descriptor::DebugDescriptor;
use aster_dyndbg::dyndbg_trace::{new_trace_rings, push_trace_event};
use aster_dyndbg::procfs::{
    format_active_flags, format_flags, resolve_descriptor, DynamicDebugFileOps, DyndbgHotspotsFileOps,
    DyndbgStatsFileOps, DyndbgTraceFileOps, TscFileOps,
};
use aster_dyndbg::rules::DyndbgRuleActionSnapshot;
use aster_dyndbg::rules::DyndbgRuleActionSnapshot::{DisableLog, DisableTrace, EnableLog, EnableTrace};
use aster_dyndbg::state::{DyndbgPatchBackend, DyndbgState};
use aster_dyndbg::static_key::StaticKeyRegistry;
use aster_dyndbg::static_patch::PatchEnvironment;

fn env() -> PatchEnvironment {
    PatchEnvironment { num_cpus: 1, in_bootstrap: true, irqs_enabled: false, ipi_ready: false }
}

fn pa(action: Option<DyndbgRuleActionSnapshot>, set: u8, clear: u8, ovr: Option<u8>) -> ParsedAction {
    ParsedAction { action, flags_set: set, flags_clear: clear, flags_override: ovr }
}

fn one_site() -> (DyndbgState, StaticKeyRegistry) {
    let mut state = DyndbgState::new();
    let mut keys = StaticKeyRegistry::new(env());
    state.register_descriptor(&mut keys, DebugDescriptor::new("a.rs", "m", Some("f"), 7));
    (state, keys)
}

#[test]
fn parse_action_switches() {
    assert_eq!(parse_action("+p"), Ok(pa(Some(EnableLog), 0, 0, None)));
    assert_eq!(parse_action("-p"), Ok(pa(Some(DisableLog), 0, 0, None)));
    assert_eq!(parse_action("+trace"), Ok(pa(Some(EnableTrace), 0, 0, None)));
    assert_eq!(parse_action("-trace"), Ok(pa(Some(DisableTrace), 0, 0, None)));
    assert_eq!(parse_action("=p"), Ok(pa(Some(EnableLog), 0, 0, None)));
}

#[test]
fn parse_action_flags() {
    assert_eq!(parse_action("+pfl"), Ok(pa(Some(EnableLog), 3, 0, None)));
    assert_eq!(parse_action("+f"), Ok(pa(None, 1, 0, None)));
    assert_eq!(parse_action("-fl"), Ok(pa(None, 0, 3, None)));
    assert_eq!(parse_action("=fl"), Ok(pa(None, 0, 0, Some(3))));
    assert_eq!(parse_action("+_"), Ok(pa(None, 0, 255, None)));
    assert_eq!(parse_action("=_"), Ok(pa(None, 0, 0, Some(0))));
    assert_eq!(parse_action("=_t"), Ok(pa(None, 0, 0, Some(8))));
    assert_eq!(parse_action("=t_"), Ok(pa(None, 0, 0, Some(0))));
    assert_eq!(parse_action("-pm"), Ok(pa(Some(DisableLog), 0, 4, None)));
    assert_eq!(parse_action("+"), Ok(pa(None, 0, 0, None)));
}

#[test]
fn parse_action_errors() {
    assert_eq!(parse_action(""), Err(CommandError::EmptyAction));
    assert_eq!(parse_action("p"), Err(CommandError::BadActionOperator));
    assert_eq!(parse_action("+x"), Err(CommandError::UnknownFlag));
    assert_eq!(parse_action("-_"), Err(CommandError::UnderscoreCleared));
    assert_eq!(parse_action("+tracex"), Err(CommandError::UnknownFlag));
}

#[test]
fn selectors_split_at_first_equals() {
    assert_eq!(parse_selector("file=a.rs"), Ok(("file", "a.rs")));
    assert_eq!(parse_selector("a=b=c"), Ok(("a", "b=c")));
    assert_eq!(parse_selector("file"), Err(CommandError::NotKeyValue));
    assert_eq!(parse_selector("file="), Err(CommandError::EmptySelectorValue));
}

#[test]
fn command_errors() {
    let (mut state, mut keys) = one_site();
    assert_eq!(apply_command(&mut state, &mut keys, "line=abc +p"), Err(CommandError::BadLine));
    assert_eq!(apply_command(&mut state, &mut keys, "line=4294967296 +p"), Err(CommandError::BadLine));
    assert_eq!(apply_command(&mut state, &mut keys, "foo=1 +p"), Err(CommandError::UnknownSelectorKey));
    assert_eq!(apply_command(&mut state, &mut keys, "file=a.rs"), Err(CommandError::BadActionOperator));
    assert_eq!(apply_command(&mut state, &mut keys, "file +p"), Err(CommandError::NotKeyValue));
    assert_eq!(apply_command(&mut state, &mut keys, "del  "), Err(CommandError::MissingRuleId));
    assert_eq!(apply_command(&mut state, &mut keys, "del x"), Err(CommandError::BadRuleId));
    assert_eq!(apply_command(&mut state, &mut keys, "del -1"), Err(CommandError::BadRuleId));
    assert_eq!(apply_command(&mut state, &mut keys, "del 0"), Err(CommandError::RuleIdOutOfRange));
    assert_eq!(apply_command(&mut state, &mut keys, " \t"), Err(CommandError::EmptyCommand));
    assert_eq!(state.get_dyndbg_rule_chain_snapshot().len(), 0);
    assert!(!state.descriptor(0).should_log_fast());
}

#[test]
fn commands_drive_the_rule_chain() {
    let (mut state, mut keys) = one_site();
    assert_eq!(apply_command(&mut state, &mut keys, "file=a.rs line=7 +pl"), Ok(()));
    assert!(state.descriptor(0).should_log_fast());
    assert_eq!(state.descriptor(0).format_flags(), 2);
    let chain = state.get_dyndbg_rule_chain_snapshot();
    assert_eq!(chain.len(), 1);
    assert_eq!(chain[0].rule.file_keyword.as_deref(), Some("a.rs"));
    assert_eq!(chain[0].rule.line, Some(7));
    assert_eq!(apply_command(&mut state, &mut keys, "func=f line=8 -p"), Ok(()));
    assert!(state.descriptor(0).should_log_fast());
    assert_eq!(apply_command(&mut state, &mut keys, "module=m\t+f"), Ok(()));
    assert_eq!(state.descriptor(0).format_flags(), 3);
    assert_eq!(state.get_dyndbg_rule_chain_snapshot()[2].action, DyndbgRuleActionSnapshot::KeepState);
    assert_eq!(apply_command(&mut state, &mut keys, "del +0"), Ok(()));
    assert!(!state.descriptor(0).should_log_fast());
    assert_eq!(state.descriptor(0).format_flags(), 1);
    assert_eq!(apply_command(&mut state, &mut keys, "clear"), Ok(()));
    assert_eq!(state.get_dyndbg_rule_chain_snapshot().len(), 0);
    assert_eq!(state.descriptor(0).format_flags(), 0);
}

#[test]
fn delete_and_append_directly() {
    let (mut state, mut keys) = one_site();
    assert_eq!(delete_rule(&mut state, &mut keys, ""), Err(CommandError::MissingRuleId));
    assert_eq!(append_rule(&mut state, &mut keys, &["file=a.rs"], pa(None, 8, 0, None)), Ok(()));
    assert_eq!(state.descriptor(0).format_flags(), 8);
    assert_eq!(delete_rule(&mut state, &mut keys, "0"), Ok(()));
    assert_eq!(state.descriptor(0).format_flags(), 0);
}

#[test]
fn write_command_trims_and_rejects_empty() {
    let (mut state, mut keys) = one_site();
    let ops = DynamicDebugFileOps;
    assert_eq!(ops.write_command(&mut state, &mut keys, "  \n"), Err(CommandError::EmptyCommand));
    assert_eq!(ops.write_command(&mut state, &mut keys, "\u{3000}file=a.rs +p\n"), Ok(()));
    assert!(state.descriptor(0).should_log_fast());
    assert_eq!(ops.write_command(&mut state, &mut keys, " clear "), Ok(()));
    assert!(!state.descriptor(0).should_log_fast());
    assert_eq!(ops.write_command(&mut state, &mut keys, "del"), Err(CommandError::BadActionOperator));
}

#[test]
fn error_numbers_and_messages() {
    assert_eq!(CommandError::EmptyCommand.errno(), EINVAL);
    assert_eq!(CommandError::EmptyCommand.message(), "empty command");
    assert_eq!(CommandError::RuleIdOutOfRange.message(), "rule id out of range");
    assert_eq!(CommandError::BadActionOperator.message(), "action must start with +, -, or =");
    assert_eq!(CommandError::UnknownSelectorKey.message(), "selector key must be file/module/func/line");
    assert_eq!(CommandError::ZeroIters.message(), "iters must be greater than 0");
}

#[test]
fn flag_rendering() {
    assert_eq!(format_flags(3, 0, None), "+fl");
    assert_eq!(format_flags(0, 4, None), "-m");
    assert_eq!(format_flags(1, 255, None), "+f+_");
    assert_eq!(format_flags(8, 2, None), "+t-l");
    assert_eq!(format_flags(0, 0, None), "-");
    assert_eq!(format_flags(0, 0, Some(0)), "=_");
    assert_eq!(format_flags(9, 0, Some(10)), "=lt");
    assert_eq!(format_active_flags(0), "-");
    assert_eq!(format_active_flags(15), "+flmt");
}

#[test]
fn dynamic_debug_listing() {
    let (mut state, mut keys) = one_site();
    assert_eq!(apply_command(&mut state, &mut keys, "file=a.rs +pl"), Ok(()));
    let text = DynamicDebugFileOps.render(&state);
    let expected = String::from("rules=1 (last-match-wins)\n")
        + "0: file=a.rs module=* func=* line=* +p +l\n"
        + "descriptors=1\n"
        + "a.rs:7 [m] f +p -trace +l\n"
        + "usage: [file=<kw>] [module=<kw>] [func=<kw>] [line=<n>] <action> | del <id> | clear\n"
        + "action: +p|-p|+trace|-trace [+|-|=][f][l][m][t][_]  e.g. +pfl (enable log with func+line prefixes), +f (flags only), =fl (overwrite to func+line), +_ (clear all flags)\n";
    assert_eq!(text, expected);
}

#[test]
fn stats_file() {
    let (mut state, _) = one_site();
    state.record_update_latency(0, 5, 1_000_000);
    let ops = DyndbgStatsFileOps;
    assert_eq!(
        ops.render(&state),
        "descriptors_recomputed=0\nmodules_repatched=0\nsites_patched=0\npatch_transactions=0\nlast_update_latency_us=5\nusage: reset\n"
    );
    assert_eq!(ops.write_command(&mut state, "bogus"), Err(CommandError::UnknownCommand));
    assert_eq!(ops.write_command(&mut state, ""), Err(CommandError::EmptyCommand));
    assert_eq!(ops.write_command(&mut state, " reset\n"), Ok(()));
    assert_eq!(state.get_dyndbg_stats_snapshot().last_update_latency_us, 0);
}

#[test]
fn hotspots_file() {
    let (state, _) = one_site();
    let ops = DyndbgHotspotsFileOps;
    assert_eq!(
        ops.render(&state, &[]),
        "top=10 (sites with trace hits, counts summed across CPUs; reset with: reset)\n(no trace hits recorded; enable with +trace)\nusage: reset\n"
    );
    assert_eq!(
        ops.render(&state, &[(5, 1), (0, 42)]),
        "top=10 (sites with trace hits, counts summed across CPUs; reset with: reset)\n2. a.rs:7 [m] f count=42\nusage: reset\n"
    );
    assert_eq!(ops.write_command("reset"), Ok(()));
    assert_eq!(ops.write_command("x"), Err(CommandError::UnknownCommand));
}

#[test]
fn trace_file() {
    let (state, _) = one_site();
    let mut rings = new_trace_rings(1);
    let mut ops = DyndbgTraceFileOps::new();
    assert_eq!(ops.render(&state, &mut rings, 5), "events=0\nlost=0\nusage: reset\n");
    push_trace_event(&mut rings, 0, 0, 77);
    push_trace_event(&mut rings, 0, 31, 78);
    let text = ops.render(&state, &mut rings, 0);
    assert_eq!(
        text,
        "events=2\nlost=0\nsnapshot: 2 events, 0 lost (this read)\ncpu=0 tsc=77 a.rs:7 [m] f\ncpu=0 tsc=78 id=0x1f (unknown)\nusage: reset\n"
    );
    let again = ops.render(&state, &mut rings, 10);
    assert_eq!(again, text);
    let fresh = ops.render(&state, &mut rings, 0);
    assert_eq!(fresh, "events=2\nlost=0\nsnapshot: 0 events, 0 lost (this read)\n(no events)\nusage: reset\n");
    assert_eq!(ops.write_command(&mut rings, "reset"), Ok(()));
    assert_eq!(ops.write_command(&mut rings, "nope"), Err(CommandError::UnknownCommand));
    assert_eq!(resolve_descriptor(&state, 0), "a.rs:7 [m] f");
}

#[test]
fn tsc_file() {
    assert_eq!(TscFileOps.render(1000, 42), "1000 42\n");
}

#[test]
fn bench_value_parsers() {
    assert_eq!(parse_backend("per_site"), Ok(DyndbgPatchBackend::PerSite));
    assert_eq!(parse_backend("persite"), Ok(DyndbgPatchBackend::PerSite));
    assert_eq!(parse_backend("batch"), Ok(DyndbgPatchBackend::Batch));
    assert_eq!(parse_backend("x"), Err(CommandError::BadBackend));
    assert_eq!(parse_index("on"), Ok(true));
    assert_eq!(parse_index("off"), Ok(false));
    assert_eq!(parse_index("x"), Err(CommandError::BadIndex));
    assert_eq!(parse_recompute("incremental"), Ok(true));
    assert_eq!(parse_recompute("full"), Ok(false));
    assert_eq!(parse_recompute("x"), Err(CommandError::BadRecompute));
    assert_eq!(parse_mode("log"), Ok(BenchMode::Log));
    assert_eq!(parse_mode("log_batch"), Ok(BenchMode::LogBatch));
    assert_eq!(parse_mode("x"), Err(CommandError::BadMode));
    assert_eq!(BenchMode::LogBatch.as_str(), "log_batch");
}

#[test]
fn bench_commands() {
    let mut state = DyndbgState::new();
    assert_eq!(run_bench(&mut state, "backend=per_site index=off recompute=full"), Ok(None));
    assert_eq!(state.get_dyndbg_patch_backend(), DyndbgPatchBackend::PerSite);
    assert!(!state.get_dyndbg_index_enabled());
    assert!(!state.get_dyndbg_recompute_enabled());
    assert_eq!(run_bench(&mut state, "mode=log_batch iters=5"), Ok(Some((BenchMode::LogBatch, 5))));
    assert_eq!(run_bench(&mut state, "iters=0"), Err(CommandError::ZeroIters));
    assert_eq!(run_bench(&mut state, "iters=x"), Err(CommandError::BadIters));
    assert_eq!(run_bench(&mut state, "bogus"), Err(CommandError::UnknownToken));
    assert_eq!(run_bench(&mut state, "index=on mode=log"), Err(CommandError::MissingIters));
    assert!(state.get_dyndbg_index_enabled());
    assert_eq!(run_bench(&mut state, "iters=3"), Err(CommandError::MissingMode));
    assert_eq!(run_bench(&mut state, "backend=batch index=maybe"), Err(CommandError::BadIndex));
    assert_eq!(state.get_dyndbg_patch_backend(), DyndbgPatchBackend::PerSite);
}

#[test]
fn bench_file() {
    let mut state = DyndbgState::new();
    let mut bench = BenchState::new();
    bench.record(BenchMode::LogBatch, 10, bench_elapsed_us(100, 2100, 1000));
    let ops = DyndbgBenchFileOps;
    assert_eq!(
        ops.render(&state, &bench, 3),
        "last_mode=log_batch\nlast_iters=10\nlast_duration_us=2000000\nbackend=batch\nindex=on\nrecompute=incremental\ncounter=3\nusage: backend=per_site|batch index=on|off recompute=incremental|full mode=log|log_batch iters=<n>\n"
    );
    assert_eq!(ops.write_command(&mut state, "   "), Err(CommandError::EmptyCommand));
    assert_eq!(ops.write_command(&mut state, " mode=log iters=1 "), Ok(Some((BenchMode::Log, 1))));
    assert_eq!(bench_elapsed_us(5, 5, 100), 0);
    assert_eq!(bench_elapsed_us(0, 1, 0), 0);
}

#[test]
fn printed_flags_parse_back() {
    for token in ["+pfl", "-mt", "=fl", "=_", "+_", "+trace", "-p", "+t"] {
        let p = parse_action(token).unwrap();
        let printed = aster_dyndbg::procfs::format_flags(p.flags_set, p.flags_clear, p.flags_override);
        let q = parse_action(&printed).unwrap();
        assert_eq!((q.flags_set, q.flags_clear, q.flags_override), (p.flags_set, p.flags_clear, p.flags_override));
    }
}
