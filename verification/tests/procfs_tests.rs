use aster_dyndbg::procfs::{hot_top, KernelDirOps, KernelEntry};
use aster_dyndbg::syslog::{syslog_action, SyslogAction, SyslogError};

#[test]
fn hot_top_orders_by_hits_then_index() {
    let counts = [0u64, 5, 2, 5, 0, 9, 1];
    assert_eq!(hot_top(&counts, 10), vec![(5, 9), (1, 5), (3, 5), (2, 2), (6, 1)]);
    assert_eq!(hot_top(&counts, 3), vec![(5, 9), (1, 5), (3, 5)]);
    assert_eq!(hot_top(&counts, 0), vec![]);
}

#[test]
fn hot_top_skips_sites_without_hits() {
    assert_eq!(hot_top(&[0u64, 0, 0], 10), vec![]);
    assert_eq!(hot_top(&[], 10), vec![]);
}

#[test]
fn kernel_dir_finds_its_children() {
    let dir = KernelDirOps;
    assert_eq!(dir.lookup_child("dynamic_debug"), Some(KernelEntry::DynamicDebug));
    assert_eq!(dir.lookup_child("tsc"), Some(KernelEntry::Tsc));
    assert_eq!(dir.lookup_child("yama"), Some(KernelEntry::Yama));
    assert_eq!(dir.lookup_child("dyndbg_trace"), None);
    assert_eq!(dir.lookup_child(""), None);
    let names: Vec<&str> = dir.children().into_iter().map(|e| dir.entry_name(e)).collect();
    assert_eq!(
        names,
        vec!["cap_last_cap", "dynamic_debug", "dyndbg_bench", "dyndbg_stats", "pid_max", "tsc", "yama"]
    );
}

#[test]
fn syslog_actions() {
    assert_eq!(syslog_action(3, 100), Ok(SyslogAction::ReadAll { len: 100 }));
    assert_eq!(syslog_action(4, 7), Ok(SyslogAction::ReadClear { len: 7 }));
    assert_eq!(syslog_action(5, 0), Ok(SyslogAction::Clear));
    assert_eq!(syslog_action(10, -1), Ok(SyslogAction::SizeBuffer));
    assert_eq!(syslog_action(3, 0), Err(SyslogError::InvalidBufferLength));
    assert_eq!(syslog_action(4, -5), Err(SyslogError::InvalidBufferLength));
    assert_eq!(syslog_action(2, 10), Err(SyslogError::UnsupportedAction));
    assert_eq!(SyslogError::UnsupportedAction.errno(), 22);
    assert_eq!(SyslogError::InvalidBufferLength.message(), "invalid buffer length");
}
