//! Rules of the dynamic-debug rule chain, their snapshot mirrors, and the
//! last-match-wins replay that gives each call site its state.
use vstd::prelude::*;
use vstd::string::*;
use vstd::utf8::encode_utf8;
use crate::descriptor::{opt_string_view, DebugDescriptor, DescriptorView, DEFAULT_DEBUG_ENABLED};
use crate::matching::{selector_match, selector_match_spec};

verus! {

#[derive(Debug, Clone, Copy, PartialEq, Eq, Structural)]
pub enum DyndbgRuleAction {
    EnableLog,
    DisableLog,
    EnableTrace,
    DisableTrace,
    /// Flags-only rule: applies format-flag bits without touching the switch.
    KeepState,
}

/// A rule: optional selectors plus the format-flag operation it carries.
#[derive(Debug)]
pub struct DyndbgRule {
    pub file_keyword: Option<String>,
    pub module_keyword: Option<String>,
    pub function_keyword: Option<String>,
    pub line: Option<u32>,
    /// Format-flag bits to set on matched descriptors (`+f/+l/+m/+t`).
    pub flags_set: u8,
    /// Format-flag bits to clear on matched descriptors (`-f/-l/-m/-t`).
    pub flags_clear: u8,
    /// Exact format-flag value to overwrite on matched descriptors (`=fl`).
    pub flags_override: Option<u8>,
}

#[derive(Debug)]
pub struct DyndbgRuleEntry {
    pub rule: DyndbgRule,
    pub action: DyndbgRuleAction,
}

/// Copy of an optional string.
pub fn clone_opt_string(o: &Option<String>) -> (r: Option<String>)
    ensures
        r == *o,
{
    match o {
        Some(s) => Some(s.clone()),
        None => None,
    }
}

impl Clone for DyndbgRule {
    fn clone(&self) -> (r: Self)
        ensures
            r == *self,
    {
        DyndbgRule {
            file_keyword: clone_opt_string(&self.file_keyword),
            module_keyword: clone_opt_string(&self.module_keyword),
            function_keyword: clone_opt_string(&self.function_keyword),
            line: self.line,
            flags_set: self.flags_set,
            flags_clear: self.flags_clear,
            flags_override: self.flags_override,
        }
    }
}

impl Clone for DyndbgRuleEntry {
    fn clone(&self) -> (r: Self)
        ensures
            r == *self,
    {
        DyndbgRuleEntry { rule: self.rule.clone(), action: self.action }
    }
}

// ───────────────────────────── selector semantics ─────────────────────────────

/// UTF-8 bytes of an optional text.
pub open spec fn opt_bytes(o: Option<Seq<char>>) -> Option<Seq<u8>> {
    match o {
        Some(s) => Some(encode_utf8(s)),
        None => None,
    }
}

/// UTF-8 bytes of an optional keyword.
pub open spec fn keyword_bytes(o: Option<String>) -> Option<Seq<u8>> {
    opt_bytes(opt_string_view(o))
}

/// Path separator of file values.
pub open spec fn file_sep() -> Seq<u8> {
    seq![47u8]
}

/// Path separator of module values.
pub open spec fn module_sep() -> Seq<u8> {
    seq![58u8, 58u8]
}

pub open spec fn rule_has_selector(r: DyndbgRule) -> bool {
    r.file_keyword is Some || r.module_keyword is Some || r.function_keyword is Some
        || r.line is Some
}

/// The file selector of `r` selects the file of `d`.
pub open spec fn file_selected(r: DyndbgRule, d: DescriptorView) -> bool {
    selector_match_spec(keyword_bytes(r.file_keyword), Some(encode_utf8(d.file)), Some(file_sep()))
}

/// The module selector of `r` selects the module path of `d`.
pub open spec fn module_selected(r: DyndbgRule, d: DescriptorView) -> bool {
    selector_match_spec(
        keyword_bytes(r.module_keyword),
        Some(encode_utf8(d.mod_path)),
        Some(module_sep()),
    )
}

/// The function selector of `r` selects the function of `d`.
pub open spec fn function_selected(r: DyndbgRule, d: DescriptorView) -> bool {
    selector_match_spec(keyword_bytes(r.function_keyword), opt_bytes(d.function), None)
}

/// The line selector of `r` selects the line of `d`.
pub open spec fn line_selected(r: DyndbgRule, d: DescriptorView) -> bool {
    match r.line {
        Some(l) => d.line == l,
        None => true,
    }
}

/// A rule without selectors matches every call site; otherwise every present
/// selector must select the call site.
pub open spec fn rule_matches(r: DyndbgRule, d: DescriptorView) -> bool {
    !rule_has_selector(r) || (file_selected(r, d) && module_selected(r, d) && function_selected(
        r,
        d,
    ) && line_selected(r, d))
}

/// The state a call site gets from the rule chain: `(log, trace, flags)`.
pub struct Verdict {
    pub log: bool,
    pub trace: bool,
    pub flags: u8,
}

/// The state of an unmatched call site.
pub open spec fn initial_verdict() -> Verdict {
    Verdict { log: DEFAULT_DEBUG_ENABLED, trace: false, flags: 0 }
}

/// Flags after applying the flag operation of `r` to `flags`: set bits,
/// then clear bits, then an optional overwrite.
pub open spec fn apply_flags(flags: u8, r: DyndbgRule) -> u8 {
    match r.flags_override {
        Some(v) => v,
        None => (flags | r.flags_set) & !r.flags_clear,
    }
}

/// The effect of one matching rule entry: its action sets its own switch
/// (log or trace) and leaves the other; its flag operation is applied.
pub open spec fn apply_entry(v: Verdict, e: DyndbgRuleEntry) -> Verdict {
    Verdict {
        log: match e.action {
            DyndbgRuleAction::EnableLog => true,
            DyndbgRuleAction::DisableLog => false,
            _ => v.log,
        },
        trace: match e.action {
            DyndbgRuleAction::EnableTrace => true,
            DyndbgRuleAction::DisableTrace => false,
            _ => v.trace,
        },
        flags: apply_flags(v.flags, e.rule),
    }
}

/// Replay of the rule chain on a call site: entries apply in chain order,
/// each only where it matches, so for each switch the last matching rule
/// that sets it wins.
pub open spec fn replay(rules: Seq<DyndbgRuleEntry>, d: DescriptorView) -> Verdict
    decreases rules.len(),
{
    if rules.len() == 0 {
        initial_verdict()
    } else {
        let prev = replay(rules.drop_last(), d);
        if rule_matches(rules.last().rule, d) {
            apply_entry(prev, rules.last())
        } else {
            prev
        }
    }
}

impl DyndbgRule {
    /// The rule has at least one selector.
    pub fn has_any_selector(&self) -> (r: bool)
        ensures
            r == rule_has_selector(*self),
    {
        self.file_keyword.is_some() || self.module_keyword.is_some()
            || self.function_keyword.is_some() || self.line.is_some()
    }

    /// Whether the rule selects the call site `descriptor`.
    pub fn matches_descriptor(&self, descriptor: &DebugDescriptor) -> (r: bool)
        ensures
            r == rule_matches(*self, descriptor@),
    {
        if !self.has_any_selector() {
            return true;
        }
        let file_sep_bytes = vec![47u8];
        let module_sep_bytes = vec![58u8, 58u8];
        assert(file_sep_bytes@ =~= file_sep());
        assert(module_sep_bytes@ =~= module_sep());
        let file_kw = match &self.file_keyword {
            Some(k) => Some(k.as_str().as_bytes()),
            None => None,
        };
        let module_kw = match &self.module_keyword {
            Some(k) => Some(k.as_str().as_bytes()),
            None => None,
        };
        let function_kw = match &self.function_keyword {
            Some(k) => Some(k.as_str().as_bytes()),
            None => None,
        };
        let function_value = match descriptor.function_name() {
            Some(f) => Some(f.as_bytes()),
            None => None,
        };
        selector_match(file_kw, Some(descriptor.file().as_bytes()), Some(file_sep_bytes.as_slice()))
            && selector_match(
            module_kw,
            Some(descriptor.mod_path().as_bytes()),
            Some(module_sep_bytes.as_slice()),
        ) && selector_match(function_kw, function_value, None) && match self.line {
            Some(line) => descriptor.line() == line,
            None => true,
        }
    }
}

// ───────────────────────────── snapshot mirrors ─────────────────────────────

/// Public mirror of a rule: its selectors and format-flag operation.
#[derive(Debug, Clone, Default)]
pub struct DyndbgRuleSnapshot {
    pub file_keyword: Option<String>,
    pub module_keyword: Option<String>,
    pub function_keyword: Option<String>,
    pub line: Option<u32>,
    /// Format-flag bits to set on matched descriptors (`+f/+l/+m/+t`).
    pub flags_set: u8,
    /// Format-flag bits to clear on matched descriptors (`-f/-l/-m/-t`).
    pub flags_clear: u8,
    /// Exact format-flag value to overwrite on matched descriptors (`=fl`).
    pub flags_override: Option<u8>,
}

/// Public mirror of [`DyndbgRuleAction`] for the snapshot API.
#[derive(Debug, Clone, Copy, PartialEq, Eq, Structural)]
pub enum DyndbgRuleActionSnapshot {
    /// Enable log output (`+p`).
    EnableLog,
    /// Disable log output (`-p`).
    DisableLog,
    /// Enable structured tracing (`+trace`).
    EnableTrace,
    /// Disable structured tracing (`-trace`).
    DisableTrace,
    /// Flags-only rule (`+f` etc.): format flags only, switch untouched.
    KeepState,
}

#[derive(Debug, Clone)]
pub struct DyndbgRuleEntrySnapshot {
    pub rule: DyndbgRuleSnapshot,
    pub action: DyndbgRuleActionSnapshot,
}

/// Counters of the rule-update machinery.
#[derive(Debug, Clone)]
pub struct DyndbgStatsSnapshot {
    pub descriptors_recomputed: u64,
    pub modules_repatched: u64,
    pub sites_patched: u64,
    pub patch_transactions: u64,
    pub last_update_latency_us: u64,
}

pub open spec fn rule_of_snapshot(s: DyndbgRuleSnapshot) -> DyndbgRule {
    DyndbgRule {
        file_keyword: s.file_keyword,
        module_keyword: s.module_keyword,
        function_keyword: s.function_keyword,
        line: s.line,
        flags_set: s.flags_set,
        flags_clear: s.flags_clear,
        flags_override: s.flags_override,
    }
}

pub open spec fn snapshot_of_rule(r: DyndbgRule) -> DyndbgRuleSnapshot {
    DyndbgRuleSnapshot {
        file_keyword: r.file_keyword,
        module_keyword: r.module_keyword,
        function_keyword: r.function_keyword,
        line: r.line,
        flags_set: r.flags_set,
        flags_clear: r.flags_clear,
        flags_override: r.flags_override,
    }
}

pub open spec fn action_of_snapshot(a: DyndbgRuleActionSnapshot) -> DyndbgRuleAction {
    match a {
        DyndbgRuleActionSnapshot::EnableLog => DyndbgRuleAction::EnableLog,
        DyndbgRuleActionSnapshot::DisableLog => DyndbgRuleAction::DisableLog,
        DyndbgRuleActionSnapshot::EnableTrace => DyndbgRuleAction::EnableTrace,
        DyndbgRuleActionSnapshot::DisableTrace => DyndbgRuleAction::DisableTrace,
        DyndbgRuleActionSnapshot::KeepState => DyndbgRuleAction::KeepState,
    }
}

pub open spec fn snapshot_of_action(a: DyndbgRuleAction) -> DyndbgRuleActionSnapshot {
    match a {
        DyndbgRuleAction::EnableLog => DyndbgRuleActionSnapshot::EnableLog,
        DyndbgRuleAction::DisableLog => DyndbgRuleActionSnapshot::DisableLog,
        DyndbgRuleAction::EnableTrace => DyndbgRuleActionSnapshot::EnableTrace,
        DyndbgRuleAction::DisableTrace => DyndbgRuleActionSnapshot::DisableTrace,
        DyndbgRuleAction::KeepState => DyndbgRuleActionSnapshot::KeepState,
    }
}

pub open spec fn entry_of_snapshot(s: DyndbgRuleEntrySnapshot) -> DyndbgRuleEntry {
    DyndbgRuleEntry { rule: rule_of_snapshot(s.rule), action: action_of_snapshot(s.action) }
}

pub open spec fn snapshot_of_entry(e: DyndbgRuleEntry) -> DyndbgRuleEntrySnapshot {
    DyndbgRuleEntrySnapshot { rule: snapshot_of_rule(e.rule), action: snapshot_of_action(e.action) }
}

impl From<DyndbgRuleSnapshot> for DyndbgRule {
    fn from(snapshot: DyndbgRuleSnapshot) -> (r: Self) {
        DyndbgRule {
            file_keyword: snapshot.file_keyword,
            module_keyword: snapshot.module_keyword,
            function_keyword: snapshot.function_keyword,
            line: snapshot.line,
            flags_set: snapshot.flags_set,
            flags_clear: snapshot.flags_clear,
            flags_override: snapshot.flags_override,
        }
    }
}

impl vstd::std_specs::convert::FromSpecImpl<DyndbgRuleSnapshot> for DyndbgRule {
    open spec fn obeys_from_spec() -> bool {
        true
    }

    open spec fn from_spec(snapshot: DyndbgRuleSnapshot) -> DyndbgRule {
        rule_of_snapshot(snapshot)
    }
}

impl From<DyndbgRuleEntrySnapshot> for DyndbgRuleEntry {
    fn from(snapshot: DyndbgRuleEntrySnapshot) -> (r: Self) {
        DyndbgRuleEntry {
            rule: DyndbgRule::from(snapshot.rule),
            action: match snapshot.action {
                DyndbgRuleActionSnapshot::EnableLog => DyndbgRuleAction::EnableLog,
                DyndbgRuleActionSnapshot::DisableLog => DyndbgRuleAction::DisableLog,
                DyndbgRuleActionSnapshot::EnableTrace => DyndbgRuleAction::EnableTrace,
                DyndbgRuleActionSnapshot::DisableTrace => DyndbgRuleAction::DisableTrace,
                DyndbgRuleActionSnapshot::KeepState => DyndbgRuleAction::KeepState,
            },
        }
    }
}

impl vstd::std_specs::convert::FromSpecImpl<DyndbgRuleEntrySnapshot> for DyndbgRuleEntry {
    open spec fn obeys_from_spec() -> bool {
        true
    }

    open spec fn from_spec(snapshot: DyndbgRuleEntrySnapshot) -> DyndbgRuleEntry {
        entry_of_snapshot(snapshot)
    }
}

impl DyndbgRuleSnapshot {
    /// Snapshot of a rule (its keywords copied).
    pub fn from_rule(rule: &DyndbgRule) -> (r: Self)
        ensures
            r == snapshot_of_rule(*rule),
    {
        DyndbgRuleSnapshot {
            file_keyword: clone_opt_string(&rule.file_keyword),
            module_keyword: clone_opt_string(&rule.module_keyword),
            function_keyword: clone_opt_string(&rule.function_keyword),
            line: rule.line,
            flags_set: rule.flags_set,
            flags_clear: rule.flags_clear,
            flags_override: rule.flags_override,
        }
    }
}

impl DyndbgRuleEntrySnapshot {
    /// Snapshot of a rule entry.
    pub fn from_entry(entry: &DyndbgRuleEntry) -> (r: Self)
        ensures
            r == snapshot_of_entry(*entry),
    {
        DyndbgRuleEntrySnapshot {
            rule: DyndbgRuleSnapshot::from_rule(&entry.rule),
            action: match entry.action {
                DyndbgRuleAction::EnableLog => DyndbgRuleActionSnapshot::EnableLog,
                DyndbgRuleAction::DisableLog => DyndbgRuleActionSnapshot::DisableLog,
                DyndbgRuleAction::EnableTrace => DyndbgRuleActionSnapshot::EnableTrace,
                DyndbgRuleAction::DisableTrace => DyndbgRuleActionSnapshot::DisableTrace,
                DyndbgRuleAction::KeepState => DyndbgRuleActionSnapshot::KeepState,
            },
        }
    }
}

} // verus!
