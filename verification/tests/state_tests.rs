use aster_dyndbg::descriptor::{DebugDescriptor, UNASSIGNED_HOT_INDEX, UNASSIGNED_MODULE_ID};
use aster_dyndbg::rules::{DyndbgRuleActionSnapshot, DyndbgRuleSnapshot};
use aster_dyndbg::state::{DyndbgKeyMapping, DyndbgPatchBackend, DyndbgState};
use aster_dyndbg::static_key::{StaticKeyRegistry, StaticKeySite};
use aster_dyndbg::static_patch::PatchEnvironment;

fn env() -> PatchEnvironment {
    PatchEnvironment { num_cpus: 1, in_bootstrap: true, irqs_enabled: false, ipi_ready: false }
}

fn rule(file: Option<&str>, module: Option<&str>) -> DyndbgRuleSnapshot {
    DyndbgRuleSnapshot {
        file_keyword: file.map(String::from),
        module_keyword: module.map(String::from),
        function_keyword: None,
        line: None,
        flags_set: 0,
        flags_clear: 0,
        flags_override: None,
    }
}

fn sample() -> (DyndbgState, StaticKeyRegistry) {
    let mut state = DyndbgState::new();
    let mut keys = StaticKeyRegistry::new(env());
    state.pre_register_dyndbg_descriptors(
        &mut keys,
        vec![
            DebugDescriptor::new("fs/ext2/dir.rs", "kernel::fs::ext2::dir", Some("read_dir"), 10),
            DebugDescriptor::new("fs/ext2/inode.rs", "kernel::fs::ext2::inode", Some("write"), 20),
            DebugDescriptor::new("mm/vm.rs", "kernel::mm::vm", None, 30),
            DebugDescriptor::new("fs/ext2/dir.rs", "kernel::fs::ext2::dir", Some("lookup"), 40),
        ],
    );
    (state, keys)
}

fn logs(state: &DyndbgState) -> Vec<bool> {
    (0..state.descriptor_count()).map(|i| state.descriptor(i).should_log_fast()).collect()
}

#[test]
fn new_descriptor_is_unregistered() {
    let d = DebugDescriptor::new("a.rs", "m", None, 1);
    assert!(!d.should_log_fast());
    assert!(!d.should_trace_fast());
    assert_eq!(d.format_flags(), 0);
    assert_eq!(d.hot_index(), UNASSIGNED_HOT_INDEX);
    assert_eq!(d.module_id(), UNASSIGNED_MODULE_ID);
    assert_eq!(d.function_name(), None);
}

#[test]
fn registration_assigns_ids_in_order() {
    let (state, _) = sample();
    assert_eq!(state.descriptor_count(), 4);
    for i in 0..4 {
        assert_eq!(state.descriptor(i).hot_index(), i as u32);
    }
    assert_eq!(state.descriptor(0).module_id(), 0);
    assert_eq!(state.descriptor(1).module_id(), 1);
    assert_eq!(state.descriptor(2).module_id(), 2);
    assert_eq!(state.descriptor(3).module_id(), 0);
    assert_eq!(logs(&state), vec![false, false, false, false]);
}

#[test]
fn module_segment_rule_selects_modules() {
    let (mut state, mut keys) = sample();
    state.append_dyndbg_rule(&mut keys, rule(None, Some("ext2")), DyndbgRuleActionSnapshot::EnableLog);
    assert_eq!(logs(&state), vec![true, true, false, true]);
    assert!(state.dyndbg_should_log(0));
    assert!(state.dyndbg_module_enabled(1));
    assert!(!state.dyndbg_module_enabled(2));
    assert!(!state.dyndbg_should_trace(0));
    assert_eq!(state.get_dyndbg_stats_snapshot().descriptors_recomputed, 3);
}

#[test]
fn index_and_linear_scan_agree() {
    for index in [true, false] {
        for recompute in [true, false] {
            let (mut state, mut keys) = sample();
            state.set_dyndbg_index_enabled(index);
            state.set_dyndbg_recompute_enabled(recompute);
            state.append_dyndbg_rule(&mut keys, rule(Some("dir.rs"), None), DyndbgRuleActionSnapshot::EnableLog);
            assert_eq!(logs(&state), vec![true, false, false, true]);
            state.append_dyndbg_rule(&mut keys, rule(Some("fs/ext2/dir.rs"), Some("ext2::dir")), DyndbgRuleActionSnapshot::DisableLog);
            assert_eq!(logs(&state), vec![false, false, false, false]);
            state.append_dyndbg_rule(&mut keys, rule(Some("*.rs"), Some("kernel::m*")), DyndbgRuleActionSnapshot::EnableLog);
            assert_eq!(logs(&state), vec![false, false, true, false]);
        }
    }
}

#[test]
fn whole_value_match_does_not_hide_segment_matches() {
    let mut state = DyndbgState::new();
    let mut keys = StaticKeyRegistry::new(env());
    state.register_descriptor(&mut keys, DebugDescriptor::new("b.rs", "x", None, 1));
    state.register_descriptor(&mut keys, DebugDescriptor::new("a/b.rs", "y", None, 2));
    state.append_dyndbg_rule(&mut keys, rule(Some("b.rs"), None), DyndbgRuleActionSnapshot::EnableLog);
    assert_eq!(logs(&state), vec![true, true]);
}

#[test]
fn last_matching_rule_wins_and_remove_replays() {
    let (mut state, mut keys) = sample();
    state.append_dyndbg_rule(&mut keys, rule(None, Some("ext2")), DyndbgRuleActionSnapshot::EnableLog);
    state.append_dyndbg_rule(&mut keys, rule(Some("inode.rs"), None), DyndbgRuleActionSnapshot::DisableLog);
    assert_eq!(logs(&state), vec![true, false, false, true]);
    assert!(state.remove_dyndbg_rule_by_id(&mut keys, 1));
    assert_eq!(logs(&state), vec![true, true, false, true]);
    assert!(!state.remove_dyndbg_rule_by_id(&mut keys, 5));
    assert!(state.remove_dyndbg_rule_by_id(&mut keys, 0));
    assert_eq!(logs(&state), vec![false, false, false, false]);
    assert_eq!(state.get_dyndbg_rule_chain_snapshot().len(), 0);
}

#[test]
fn clear_turns_everything_off() {
    let (mut state, mut keys) = sample();
    state.append_dyndbg_rule(&mut keys, rule(None, None), DyndbgRuleActionSnapshot::EnableLog);
    state.append_dyndbg_rule(&mut keys, rule(None, Some("mm")), DyndbgRuleActionSnapshot::EnableTrace);
    assert_eq!(logs(&state), vec![true, true, true, true]);
    assert!(state.descriptor(2).should_trace_fast());
    state.clear_dyndbg_rules(&mut keys);
    assert_eq!(logs(&state), vec![false, false, false, false]);
    assert!(!state.descriptor(2).should_trace_fast());
    state.append_dyndbg_rule(&mut keys, rule(None, None), DyndbgRuleActionSnapshot::EnableLog);
    state.clear_dyndbg_rule(&mut keys);
    assert_eq!(logs(&state), vec![false, false, false, false]);
}

#[test]
fn trace_and_log_are_independent() {
    let (mut state, mut keys) = sample();
    state.append_dyndbg_rule(&mut keys, rule(None, Some("vm")), DyndbgRuleActionSnapshot::EnableTrace);
    assert!(state.descriptor(2).should_trace_fast());
    assert!(!state.descriptor(2).should_log_fast());
    assert!(state.dyndbg_should_trace(2));
    state.append_dyndbg_rule(&mut keys, rule(None, Some("vm")), DyndbgRuleActionSnapshot::EnableLog);
    state.append_dyndbg_rule(&mut keys, rule(None, Some("vm")), DyndbgRuleActionSnapshot::DisableTrace);
    assert!(state.descriptor(2).should_log_fast());
    assert!(!state.descriptor(2).should_trace_fast());
}

#[test]
fn flags_replay_in_chain_order() {
    let (mut state, mut keys) = sample();
    let mut r = rule(Some("dir.rs"), None);
    r.flags_set = 3;
    state.append_dyndbg_rule(&mut keys, r, DyndbgRuleActionSnapshot::KeepState);
    assert_eq!(state.descriptor(0).format_flags(), 3);
    assert!(!state.descriptor(0).should_log_fast());
    let mut c = rule(None, None);
    c.flags_clear = 1;
    state.append_dyndbg_rule(&mut keys, c, DyndbgRuleActionSnapshot::KeepState);
    assert_eq!(state.descriptor(0).format_flags(), 2);
    let mut o = rule(None, Some("mm"));
    o.flags_override = Some(12);
    state.append_dyndbg_rule(&mut keys, o, DyndbgRuleActionSnapshot::KeepState);
    assert_eq!(state.descriptor(2).format_flags(), 12);
    assert!(state.remove_dyndbg_rule_by_id(&mut keys, 1));
    assert_eq!(state.descriptor(0).format_flags(), 3);
    assert_eq!(state.descriptor(2).format_flags(), 12);
}

#[test]
fn module_gate_patches_its_sites() {
    let (mut state, mut keys) = sample();
    keys.register(StaticKeySite::new(0x1000, 0x2000, "dyndbg"));
    keys.register(StaticKeySite::new(0x3000, 0x4000, "dyndbg"));
    state.pre_register_dyndbg_keys(
        &mut keys,
        &[
            DyndbgKeyMapping { descriptor: 0, static_key_site: 0 },
            DyndbgKeyMapping { descriptor: 2, static_key_site: 1 },
        ],
    );
    assert!(!keys.site(0).is_enabled());
    state.append_dyndbg_rule(&mut keys, rule(Some("dir.rs"), None), DyndbgRuleActionSnapshot::EnableLog);
    assert!(keys.site(0).is_enabled());
    assert!(!keys.site(1).is_enabled());
    let stats = state.get_dyndbg_stats_snapshot();
    assert_eq!(stats.modules_repatched, 1);
    assert_eq!(stats.sites_patched, 1);
    assert_eq!(stats.patch_transactions, 1);
    assert_eq!(keys.take_pending().len(), 1);
    state.append_dyndbg_rule(&mut keys, rule(Some("dir.rs"), None), DyndbgRuleActionSnapshot::DisableLog);
    assert!(!keys.site(0).is_enabled());
    state.set_dyndbg_patch_backend(DyndbgPatchBackend::PerSite);
    assert_eq!(state.get_dyndbg_patch_backend(), DyndbgPatchBackend::PerSite);
    state.append_dyndbg_rule(&mut keys, rule(None, Some("vm")), DyndbgRuleActionSnapshot::EnableTrace);
    assert!(keys.site(1).is_enabled());
}

#[test]
fn key_registered_after_enable_is_patched_on() {
    let (mut state, mut keys) = sample();
    state.append_dyndbg_rule(&mut keys, rule(None, Some("vm")), DyndbgRuleActionSnapshot::EnableLog);
    keys.register(StaticKeySite::new(0x1000, 0x2000, "dyndbg"));
    state.register_dyndbg_key(&mut keys, DyndbgKeyMapping { descriptor: 2, static_key_site: 0 });
    assert!(keys.site(0).is_enabled());
}

#[test]
fn descriptor_registered_under_rules_takes_their_state() {
    let mut state = DyndbgState::new();
    let mut keys = StaticKeyRegistry::new(env());
    let mut r = rule(None, Some("net"));
    r.flags_set = 2;
    state.append_dyndbg_rule(&mut keys, r, DyndbgRuleActionSnapshot::EnableLog);
    let id = state.register_descriptor(&mut keys, DebugDescriptor::new("net/tcp.rs", "kernel::net::tcp", None, 5));
    assert_eq!(id, 0);
    assert!(state.descriptor(0).should_log_fast());
    assert_eq!(state.descriptor(0).format_flags(), 2);
    assert!(state.dyndbg_module_enabled(0));
}

#[test]
fn settings_and_snapshots() {
    let mut state = DyndbgState::new();
    assert_eq!(state.get_dyndbg_patch_backend(), DyndbgPatchBackend::Batch);
    assert!(state.get_dyndbg_index_enabled());
    assert!(state.get_dyndbg_recompute_enabled());
    state.set_dyndbg_index_enabled(false);
    state.set_dyndbg_recompute_enabled(false);
    assert!(!state.get_dyndbg_index_enabled());
    assert!(!state.get_dyndbg_recompute_enabled());
    let empty = state.get_dyndbg_rule_snapshot();
    assert_eq!(empty.file_keyword, None);
    assert_eq!(empty.line, None);
    assert_eq!(DyndbgPatchBackend::from_u8(0), DyndbgPatchBackend::PerSite);
    assert_eq!(DyndbgPatchBackend::from_u8(7), DyndbgPatchBackend::Batch);
    assert_eq!(DyndbgPatchBackend::PerSite.as_str(), "per_site");
    assert_eq!(DyndbgPatchBackend::Batch.as_str(), "batch");
}

#[test]
fn latency_and_reset() {
    let (mut state, mut keys) = sample();
    state.append_dyndbg_rule(&mut keys, rule(None, None), DyndbgRuleActionSnapshot::EnableLog);
    state.record_update_latency(100, 3100, 1000);
    assert_eq!(state.get_dyndbg_stats_snapshot().last_update_latency_us, 3_000_000);
    state.record_update_latency(5, 5, 1000);
    assert_eq!(state.get_dyndbg_stats_snapshot().last_update_latency_us, 3_000_000);
    state.record_update_latency(1, 5, 0);
    assert_eq!(state.get_dyndbg_stats_snapshot().last_update_latency_us, 3_000_000);
    state.reset_dyndbg_stats();
    let stats = state.get_dyndbg_stats_snapshot();
    assert_eq!(stats.descriptors_recomputed, 0);
    assert_eq!(stats.last_update_latency_us, 0);
    let last = state.get_dyndbg_rule_snapshot();
    assert_eq!(last.file_keyword, None);
    let chain = state.get_dyndbg_rule_chain_snapshot();
    assert_eq!(chain.len(), 1);
    assert_eq!(chain[0].action, DyndbgRuleActionSnapshot::EnableLog);
}

#[test]
fn recompute_counts_follow_the_affected_sites() {
    let (mut state, mut keys) = sample();
    let recomputed = |s: &DyndbgState| s.get_dyndbg_stats_snapshot().descriptors_recomputed;
    state.append_dyndbg_rule(&mut keys, rule(Some("dir.rs"), None), DyndbgRuleActionSnapshot::EnableLog);
    assert_eq!(recomputed(&state), 2);
    state.append_dyndbg_rule(&mut keys, rule(None, Some("mm")), DyndbgRuleActionSnapshot::EnableLog);
    assert_eq!(recomputed(&state), 3);
    assert!(state.remove_dyndbg_rule_by_id(&mut keys, 0));
    assert_eq!(recomputed(&state), 5);
    assert!(!state.remove_dyndbg_rule_by_id(&mut keys, 7));
    assert_eq!(recomputed(&state), 5);
    state.clear_dyndbg_rules(&mut keys);
    assert_eq!(recomputed(&state), 6);
    state.set_dyndbg_recompute_enabled(false);
    state.append_dyndbg_rule(&mut keys, rule(None, Some("mm")), DyndbgRuleActionSnapshot::EnableLog);
    assert_eq!(recomputed(&state), 10);
    assert_eq!(logs(&state), vec![false, false, true, false]);
}

#[test]
fn gated_sites_follow_their_module_through_updates() {
    let (mut state, mut keys) = sample();
    keys.register(StaticKeySite::new(0x1000, 0x2000, "dyndbg"));
    keys.register(StaticKeySite::new(0x3000, 0x4000, "dyndbg"));
    keys.register(StaticKeySite::new(0x5000, 0x6000, "dyndbg"));
    state.pre_register_dyndbg_keys(
        &mut keys,
        &[
            DyndbgKeyMapping { descriptor: 0, static_key_site: 0 },
            DyndbgKeyMapping { descriptor: 3, static_key_site: 1 },
            DyndbgKeyMapping { descriptor: 2, static_key_site: 2 },
        ],
    );
    let flags = |k: &StaticKeyRegistry| (0..3).map(|i| k.site(i).is_enabled()).collect::<Vec<_>>();
    state.append_dyndbg_rule(&mut keys, rule(Some("dir.rs"), None), DyndbgRuleActionSnapshot::EnableLog);
    assert_eq!(flags(&keys), vec![true, true, false]);
    let stats = state.get_dyndbg_stats_snapshot();
    assert_eq!((stats.modules_repatched, stats.sites_patched, stats.patch_transactions), (1, 2, 1));
    state.append_dyndbg_rule(&mut keys, rule(None, None), DyndbgRuleActionSnapshot::EnableTrace);
    assert_eq!(flags(&keys), vec![true, true, true]);
    assert!(state.remove_dyndbg_rule_by_id(&mut keys, 1));
    assert_eq!(flags(&keys), vec![true, true, false]);
    state.clear_dyndbg_rules(&mut keys);
    assert_eq!(flags(&keys), vec![false, false, false]);
    let stats = state.get_dyndbg_stats_snapshot();
    assert_eq!((stats.modules_repatched, stats.sites_patched, stats.patch_transactions), (4, 6, 4));
}

#[test]
fn later_function_rule_overrides_module_rule() {
    let mut state = DyndbgState::new();
    let mut keys = StaticKeyRegistry::new(env());
    state.pre_register_dyndbg_descriptors(
        &mut keys,
        vec![
            DebugDescriptor::new("mm/vmar.rs", "aster_kernel::mm::vmar", Some("alloc"), 10),
            DebugDescriptor::new("mm/vmar.rs", "aster_kernel::mm::vmar", Some("map"), 20),
        ],
    );
    state.clear_dyndbg_rules(&mut keys);
    state.append_dyndbg_rule(&mut keys, rule(None, Some("mm")), DyndbgRuleActionSnapshot::EnableLog);
    let mut f = rule(None, None);
    f.function_keyword = Some(String::from("alloc"));
    state.append_dyndbg_rule(&mut keys, f, DyndbgRuleActionSnapshot::DisableLog);
    assert!(!state.descriptor(0).should_log_fast());
    assert!(!state.dyndbg_should_log(0));
    assert!(state.descriptor(1).should_log_fast());
    assert!(state.dyndbg_should_log(1));
}

#[test]
fn hot_index_beyond_the_hotspot_table_is_unassigned() {
    let mut state = DyndbgState::new();
    let mut keys = StaticKeyRegistry::new(env());
    let descriptors: Vec<DebugDescriptor> =
        (0..4097u32).map(|i| DebugDescriptor::new("a.rs", "kernel::a", None, i)).collect();
    state.pre_register_dyndbg_descriptors(&mut keys, descriptors);
    assert_eq!(state.descriptor(4095).hot_index(), 4095);
    assert_eq!(state.descriptor(4096).hot_index(), UNASSIGNED_HOT_INDEX);
}
