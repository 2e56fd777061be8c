//! The command language of `/proc/sys/kernel/dynamic_debug`:
//! `[file=<kw>] [module=<kw>] [func=<kw>] [line=<n>] <action>`, `del <id>`
//! and `clear`, where an action is `+trace`, `-trace` or
//! `[+|-|=][p][f][l][m][t][_]`.
use vstd::prelude::*;
use vstd::string::*;
use crate::descriptor::{opt_string_view, FLAG_FUNCTION, FLAG_LINE, FLAG_MODULE, FLAG_THREAD};
use crate::rules::{action_of_snapshot, rule_matches, DyndbgRuleActionSnapshot, DyndbgRuleEntry, DyndbgRuleSnapshot};
use crate::descriptor::{DescriptorView, MAX_DYNDBG_MODULES};
use crate::matching::is_wildcard;
use vstd::utf8::encode_utf8;
use crate::state::{gate_patches, gates_follow, patch_stats_follow, same_sites, DyndbgState};
use crate::static_key::StaticKeyRegistry;
use crate::text::{
    ascii_tokens, find_char, has_prefix, lemma_find_char, parse_decimal, parse_unsigned, split_ascii_whitespace,
    split_once, str_eq, str_views, strip_prefix, trim, trimmed,
};

verus! {

/// `EINVAL`, the error number of every rejected command.
pub const EINVAL: i32 = 22;

/// Why a procfs command was rejected.
#[derive(Debug, Clone, Copy, PartialEq, Eq, Structural)]
pub enum CommandError {
    NotUtf8,
    EmptyCommand,
    MissingAction,
    EmptyAction,
    BadActionOperator,
    UnderscoreCleared,
    UnknownFlag,
    MissingRuleId,
    BadRuleId,
    RuleIdOutOfRange,
    NotKeyValue,
    EmptySelectorValue,
    BadLine,
    UnknownSelectorKey,
    UnknownToken,
    BadBackend,
    BadIndex,
    BadRecompute,
    BadMode,
    BadIters,
    ZeroIters,
    MissingMode,
    MissingIters,
    UnknownCommand,
}

impl CommandError {
    /// The error number reported to the writer (always `EINVAL`).
    pub fn errno(&self) -> (r: i32)
        ensures
            r == EINVAL,
    {
        EINVAL
    }

    /// The message reported with the error.
    pub fn message(&self) -> (r: &'static str)
        ensures
            r@ == (match *self {
                CommandError::NotUtf8 => "command is not valid UTF-8"@,
                CommandError::EmptyCommand => "empty command"@,
                CommandError::MissingAction => "missing action (+p/-p)"@,
                CommandError::EmptyAction => "empty action"@,
                CommandError::BadActionOperator => "action must start with +, -, or ="@,
                CommandError::UnderscoreCleared => "'_' cannot be cleared"@,
                CommandError::UnknownFlag => "unknown flag character in action"@,
                CommandError::MissingRuleId => "missing rule id"@,
                CommandError::BadRuleId => "rule id must be a valid usize"@,
                CommandError::RuleIdOutOfRange => "rule id out of range"@,
                CommandError::NotKeyValue => "selector must be key=value"@,
                CommandError::EmptySelectorValue => "selector value must not be empty"@,
                CommandError::BadLine => "line must be a valid u32"@,
                CommandError::UnknownSelectorKey => "selector key must be file/module/func/line"@,
                CommandError::UnknownToken => "unknown token"@,
                CommandError::BadBackend => "backend must be per_site or batch"@,
                CommandError::BadIndex => "index must be on or off"@,
                CommandError::BadRecompute => "recompute must be incremental or full"@,
                CommandError::BadMode => "mode must be log or log_batch"@,
                CommandError::BadIters => "iters must be a valid u64"@,
                CommandError::ZeroIters => "iters must be greater than 0"@,
                CommandError::MissingMode => "missing mode"@,
                CommandError::MissingIters => "missing iters"@,
                CommandError::UnknownCommand => "unknown command"@,
            }),
    {
        match *self {
            CommandError::NotUtf8 => "command is not valid UTF-8",
            CommandError::EmptyCommand => "empty command",
            CommandError::MissingAction => "missing action (+p/-p)",
            CommandError::EmptyAction => "empty action",
            CommandError::BadActionOperator => "action must start with +, -, or =",
            CommandError::UnderscoreCleared => "'_' cannot be cleared",
            CommandError::UnknownFlag => "unknown flag character in action",
            CommandError::MissingRuleId => "missing rule id",
            CommandError::BadRuleId => "rule id must be a valid usize",
            CommandError::RuleIdOutOfRange => "rule id out of range",
            CommandError::NotKeyValue => "selector must be key=value",
            CommandError::EmptySelectorValue => "selector value must not be empty",
            CommandError::BadLine => "line must be a valid u32",
            CommandError::UnknownSelectorKey => "selector key must be file/module/func/line",
            CommandError::UnknownToken => "unknown token",
            CommandError::BadBackend => "backend must be per_site or batch",
            CommandError::BadIndex => "index must be on or off",
            CommandError::BadRecompute => "recompute must be incremental or full",
            CommandError::BadMode => "mode must be log or log_batch",
            CommandError::BadIters => "iters must be a valid u64",
            CommandError::ZeroIters => "iters must be greater than 0",
            CommandError::MissingMode => "missing mode",
            CommandError::MissingIters => "missing iters",
            CommandError::UnknownCommand => "unknown command",
        }
    }
}

/// One parsed action token: an optional log/trace switch and the
/// format-flag operation it carries.
#[derive(Debug, Clone, Copy, PartialEq, Eq, Structural)]
pub struct ParsedAction {
    pub action: Option<DyndbgRuleActionSnapshot>,
    pub flags_set: u8,
    pub flags_clear: u8,
    pub flags_override: Option<u8>,
}

/// The flag bit a flag character stands for (`0` for any other character).
pub open spec fn flag_bit(c: char) -> u8 {
    if c == 'f' {
        FLAG_FUNCTION
    } else if c == 'l' {
        FLAG_LINE
    } else if c == 'm' {
        FLAG_MODULE
    } else if c == 't' {
        FLAG_THREAD
    } else {
        0
    }
}

/// Parse the characters `t[i..]` of an action with operator `op`, on top
/// of what the earlier characters gave.
pub open spec fn action_scan(t: Seq<char>, op: char, i: int, acc: ParsedAction) -> Result<ParsedAction, CommandError>
    decreases t.len() - i,
{
    if i >= t.len() {
        Ok(acc)
    } else {
        let c = t[i];
        if c == 'p' {
            action_scan(
                t,
                op,
                i + 1,
                ParsedAction {
                    action: Some(
                        if op == '-' {
                            DyndbgRuleActionSnapshot::DisableLog
                        } else {
                            DyndbgRuleActionSnapshot::EnableLog
                        },
                    ),
                    ..acc
                },
            )
        } else if c == '_' {
            if op == '-' {
                Err(CommandError::UnderscoreCleared)
            } else if op == '=' {
                action_scan(t, op, i + 1, ParsedAction { flags_override: Some(0u8), ..acc })
            } else {
                action_scan(t, op, i + 1, ParsedAction { flags_clear: 0xffu8, ..acc })
            }
        } else if flag_bit(c) != 0 {
            let bit = flag_bit(c);
            if op == '=' {
                action_scan(
                    t,
                    op,
                    i + 1,
                    ParsedAction {
                        flags_override: Some(
                            match acc.flags_override {
                                Some(v) => v,
                                None => 0u8,
                            } | bit,
                        ),
                        ..acc
                    },
                )
            } else if op == '-' {
                action_scan(t, op, i + 1, ParsedAction { flags_clear: acc.flags_clear | bit, ..acc })
            } else {
                action_scan(t, op, i + 1, ParsedAction { flags_set: acc.flags_set | bit, ..acc })
            }
        } else {
            Err(CommandError::UnknownFlag)
        }
    }
}

/// A switch-less action with no flag operation.
pub open spec fn empty_action() -> ParsedAction {
    ParsedAction { action: None, flags_set: 0, flags_clear: 0, flags_override: None }
}

/// The meaning of an action token.
pub open spec fn action_of_token(t: Seq<char>) -> Result<ParsedAction, CommandError> {
    if t == "+trace"@ {
        Ok(ParsedAction { action: Some(DyndbgRuleActionSnapshot::EnableTrace), ..empty_action() })
    } else if t == "-trace"@ {
        Ok(ParsedAction { action: Some(DyndbgRuleActionSnapshot::DisableTrace), ..empty_action() })
    } else if t.len() == 0 {
        Err(CommandError::EmptyAction)
    } else if t[0] != '+' && t[0] != '-' && t[0] != '=' {
        Err(CommandError::BadActionOperator)
    } else {
        action_scan(t, t[0], 1, empty_action())
    }
}

/// Parse an action token: `+trace` / `-trace`, or an operator (`+` sets,
/// `-` clears, `=` overwrites) followed by `p` (the log switch) and flag
/// characters `f`, `l`, `m`, `t`, and `_` (all flags).
pub fn parse_action(token: &str) -> (r: Result<ParsedAction, CommandError>)
    ensures
        r == action_of_token(token@),
{
    if str_eq(token, "+trace") {
        return Ok(
            ParsedAction {
                action: Some(DyndbgRuleActionSnapshot::EnableTrace),
                flags_set: 0,
                flags_clear: 0,
                flags_override: None,
            },
        );
    }
    if str_eq(token, "-trace") {
        return Ok(
            ParsedAction {
                action: Some(DyndbgRuleActionSnapshot::DisableTrace),
                flags_set: 0,
                flags_clear: 0,
                flags_override: None,
            },
        );
    }
    let n = token.unicode_len();
    if n == 0 {
        return Err(CommandError::EmptyAction);
    }
    let op = token.get_char(0);
    if op != '+' && op != '-' && op != '=' {
        return Err(CommandError::BadActionOperator);
    }
    let clearing = op == '-';
    let overwriting = op == '=';
    let mut acc = ParsedAction { action: None, flags_set: 0, flags_clear: 0, flags_override: None };
    let mut i: usize = 1;
    while i < n
        invariant
            n == token@.len(),
            1 <= i <= n,
            op == token@[0],
            clearing == (op == '-'),
            overwriting == (op == '='),
            action_scan(token@, op, i as int, acc) == action_of_token(token@),
        decreases n - i,
    {
        let c = token.get_char(i);
        if c == 'p' {
            acc.action = Some(
                if clearing {
                    DyndbgRuleActionSnapshot::DisableLog
                } else {
                    DyndbgRuleActionSnapshot::EnableLog
                },
            );
        } else if c == '_' {
            if clearing {
                return Err(CommandError::UnderscoreCleared);
            }
            if overwriting {
                acc.flags_override = Some(0);
            } else {
                acc.flags_clear = 0xff;
            }
        } else {
            let bit: u8 = if c == 'f' {
                FLAG_FUNCTION
            } else if c == 'l' {
                FLAG_LINE
            } else if c == 'm' {
                FLAG_MODULE
            } else if c == 't' {
                FLAG_THREAD
            } else {
                return Err(CommandError::UnknownFlag);
            };
            if overwriting {
                let cur = match acc.flags_override {
                    Some(v) => v,
                    None => 0,
                };
                acc.flags_override = Some(cur | bit);
            } else if clearing {
                acc.flags_clear = acc.flags_clear | bit;
            } else {
                acc.flags_set = acc.flags_set | bit;
            }
        }
        i += 1;
    }
    Ok(acc)
}

/// Split a selector `key=value` at its first `=`; the value must not be
/// empty.
pub fn parse_selector(selector: &str) -> (r: Result<(&str, &str), CommandError>)
    ensures
        ({
            let s = selector@;
            let eq = find_char(s, '=', 0);
            if eq >= s.len() {
                r == Err::<(&str, &str), CommandError>(CommandError::NotKeyValue)
            } else if eq + 1 == s.len() {
                r == Err::<(&str, &str), CommandError>(CommandError::EmptySelectorValue)
            } else {
                r matches Ok(p) && p.0@ == s.take(eq) && p.1@ == s.skip(eq + 1)
            }
        }),
{
    proof {
        lemma_find_char(selector@, '=', 0);
    }
    match split_once(selector, '=') {
        None => Err(CommandError::NotKeyValue),
        Some((key, value)) => {
            if value.unicode_len() == 0 {
                return Err(CommandError::EmptySelectorValue);
            }
            Ok((key, value))
        },
    }
}

/// The selectors a rule is made of, as text.
pub struct RuleKeys {
    pub file: Option<Seq<char>>,
    pub module: Option<Seq<char>>,
    pub func: Option<Seq<char>>,
    pub line: Option<u32>,
}

/// No selector.
pub open spec fn no_keys() -> RuleKeys {
    RuleKeys { file: None, module: None, func: None, line: None }
}

/// Read the selectors `sels[i..]` on top of `k`; a later selector of the
/// same key replaces an earlier one.
pub open spec fn selectors_scan(sels: Seq<Seq<char>>, i: int, k: RuleKeys) -> Result<RuleKeys, CommandError>
    decreases sels.len() - i,
{
    if i >= sels.len() || i < 0 {
        Ok(k)
    } else {
        let s = sels[i];
        let eq = find_char(s, '=', 0);
        if eq >= s.len() {
            Err(CommandError::NotKeyValue)
        } else if eq + 1 == s.len() {
            Err(CommandError::EmptySelectorValue)
        } else {
            let key = s.take(eq);
            let value = s.skip(eq + 1);
            if key == "file"@ {
                selectors_scan(sels, i + 1, RuleKeys { file: Some(value), ..k })
            } else if key == "module"@ {
                selectors_scan(sels, i + 1, RuleKeys { module: Some(value), ..k })
            } else if key == "func"@ {
                selectors_scan(sels, i + 1, RuleKeys { func: Some(value), ..k })
            } else if key == "line"@ {
                match parse_unsigned(value, u32::MAX as int) {
                    Some(v) => selectors_scan(sels, i + 1, RuleKeys { line: Some(v as u32), ..k }),
                    None => Err(CommandError::BadLine),
                }
            } else {
                Err(CommandError::UnknownSelectorKey)
            }
        }
    }
}

/// The rule snapshot `r` has the selectors `k`.
pub open spec fn has_keys(r: DyndbgRuleSnapshot, k: RuleKeys) -> bool {
    &&& opt_string_view(r.file_keyword) == k.file
    &&& opt_string_view(r.module_keyword) == k.module
    &&& opt_string_view(r.function_keyword) == k.func
    &&& r.line == k.line
}

/// The rule entry a command appends: the selectors `k`, the flag operation
/// of `a`, and the switch of `a` (flags only when it has none).
pub open spec fn is_appended_entry(e: DyndbgRuleEntry, k: RuleKeys, a: ParsedAction) -> bool {
    &&& opt_string_view(e.rule.file_keyword) == k.file
    &&& opt_string_view(e.rule.module_keyword) == k.module
    &&& opt_string_view(e.rule.function_keyword) == k.func
    &&& e.rule.line == k.line
    &&& e.rule.flags_set == a.flags_set
    &&& e.rule.flags_clear == a.flags_clear
    &&& e.rule.flags_override == a.flags_override
    &&& e.action == action_of_snapshot(
        match a.action {
            Some(x) => x,
            None => DyndbgRuleActionSnapshot::KeepState,
        },
    )
}

/// What a dynamic-debug command asks for.
pub enum CommandKind {
    Clear,
    Delete(int),
    Append(RuleKeys, ParsedAction),
}

/// The meaning of a (trimmed, non-empty) dynamic-debug command.
pub open spec fn command_kind(c: Seq<char>) -> Result<CommandKind, CommandError> {
    if c == "clear"@ {
        Ok(CommandKind::Clear)
    } else if has_prefix(c, "del "@) {
        let id = trimmed(c.skip(4));
        if id.len() == 0 {
            Err(CommandError::MissingRuleId)
        } else {
            match parse_unsigned(id, usize::MAX as int) {
                Some(v) => Ok(CommandKind::Delete(v)),
                None => Err(CommandError::BadRuleId),
            }
        }
    } else {
        let toks = ascii_tokens(c);
        if toks.len() == 0 {
            Err(CommandError::EmptyCommand)
        } else {
            match action_of_token(toks.last()) {
                Err(e) => Err(e),
                Ok(a) => match selectors_scan(toks.drop_last(), 0, no_keys()) {
                    Err(e) => Err(e),
                    Ok(k) => Ok(CommandKind::Append(k, a)),
                },
            }
        }
    }
}

/// The effect on the state of a command of kind `kind` with result `r`.
pub open spec fn command_effect(
    s0: &DyndbgState,
    s1: &DyndbgState,
    kind: Result<CommandKind, CommandError>,
    r: Result<(), CommandError>,
) -> bool {
    match kind {
        Err(e) => r == Err::<(), CommandError>(e) && *s1 == *s0,
        Ok(CommandKind::Clear) => r == Ok::<(), CommandError>(()) && s1.rule_chain().len() == 0,
        Ok(CommandKind::Delete(id)) => if id < s0.rule_chain().len() {
            r == Ok::<(), CommandError>(()) && s1.rule_chain() == s0.rule_chain().remove(id)
        } else {
            r == Err::<(), CommandError>(CommandError::RuleIdOutOfRange) && *s1 == *s0
        },
        Ok(CommandKind::Append(k, a)) => {
            &&& r == Ok::<(), CommandError>(())
            &&& s1.rule_chain().len() == s0.rule_chain().len() + 1
            &&& s1.rule_chain().drop_last() == s0.rule_chain()
            &&& is_appended_entry(s1.rule_chain().last(), k, a)
        },
    }
}

/// Remove rule `rule_id` (a decimal number) from the chain.
pub fn delete_rule(state: &mut DyndbgState, keys: &mut StaticKeyRegistry, rule_id: &str) -> (r: Result<(), CommandError>)
    requires
        old(state).wf(),
        old(state).keys_cover(old(keys)@),
    ensures
        final(state).wf(),
        final(state).keys_cover(final(keys)@),
        old(state).synced() ==> final(state).synced(),
        same_sites(old(state).descs(), final(state).descs()),
        command_effect(
            old(state),
            final(state),
            if rule_id@.len() == 0 {
                Err(CommandError::MissingRuleId)
            } else {
                match parse_unsigned(rule_id@, usize::MAX as int) {
                    Some(v) => Ok(CommandKind::Delete(v)),
                    None => Err(CommandError::BadRuleId),
                }
            },
            r,
        ),
        r is Err ==> final(keys)@ == old(keys)@,
        r is Ok ==> gates_follow(*old(state), *final(state)),
        r is Ok ==> final(keys)@ == gate_patches(old(keys)@, *old(state), *final(state), MAX_DYNDBG_MODULES as int),
        r is Ok ==> patch_stats_follow(*old(state), *final(state)),
{
    if rule_id.unicode_len() == 0 {
        return Err(CommandError::MissingRuleId);
    }
    let id = match parse_decimal(rule_id, usize::MAX as u64) {
        Some(v) => v as usize,
        None => return Err(CommandError::BadRuleId),
    };
    if !state.remove_dyndbg_rule_by_id(keys, id) {
        return Err(CommandError::RuleIdOutOfRange);
    }
    Ok(())
}

/// Build the rule of the selectors `selectors` with the flag operation of
/// `parsed` and append it with the switch of `parsed` (a flags-only rule
/// when it has none).
pub fn append_rule(
    state: &mut DyndbgState,
    keys: &mut StaticKeyRegistry,
    selectors: &[&str],
    parsed: ParsedAction,
) -> (r: Result<(), CommandError>)
    requires
        old(state).wf(),
        old(state).keys_cover(old(keys)@),
    ensures
        final(state).wf(),
        final(state).keys_cover(final(keys)@),
        old(state).synced() ==> final(state).synced(),
        same_sites(old(state).descs(), final(state).descs()),
        command_effect(
            old(state),
            final(state),
            match selectors_scan(str_views(selectors@), 0, no_keys()) {
                Err(e) => Err(e),
                Ok(k) => Ok(CommandKind::Append(k, parsed)),
            },
            r,
        ),
        r is Err ==> final(keys)@ == old(keys)@,
        r is Ok ==> gates_follow(*old(state), *final(state)),
        r is Ok ==> final(keys)@ == gate_patches(old(keys)@, *old(state), *final(state), MAX_DYNDBG_MODULES as int),
        r is Ok ==> patch_stats_follow(*old(state), *final(state)),
{
    let ghost sels = str_views(selectors@);
    let mut rule = DyndbgRuleSnapshot {
        file_keyword: None,
        module_keyword: None,
        function_keyword: None,
        line: None,
        flags_set: 0,
        flags_clear: 0,
        flags_override: None,
    };
    let ghost mut k = no_keys();
    let mut i: usize = 0;
    while i < selectors.len()
        invariant
            sels == str_views(selectors@),
            i <= selectors@.len(),
            *state == *old(state),
            keys@ == old(keys)@,
            old(state).wf(),
            old(state).keys_cover(old(keys)@),
            has_keys(rule, k),
            selectors_scan(sels, i as int, k) == selectors_scan(sels, 0, no_keys()),
        decreases selectors.len() - i,
    {
        let sel = selectors[i];
        assert(sel@ == sels[i as int]);
        let (key, value) = match parse_selector(sel) {
            Ok(p) => p,
            Err(e) => return Err(e),
        };
        if str_eq(key, "file") {
            rule.file_keyword = Some(String::from_str(value));
            proof { k = RuleKeys { file: Some(value@), ..k }; }
        } else if str_eq(key, "module") {
            rule.module_keyword = Some(String::from_str(value));
            proof { k = RuleKeys { module: Some(value@), ..k }; }
        } else if str_eq(key, "func") {
            rule.function_keyword = Some(String::from_str(value));
            proof { k = RuleKeys { func: Some(value@), ..k }; }
        } else if str_eq(key, "line") {
            let line = match parse_decimal(value, u32::MAX as u64) {
                Some(v) => v as u32,
                None => return Err(CommandError::BadLine),
            };
            rule.line = Some(line);
            proof { k = RuleKeys { line: Some(line), ..k }; }
        } else {
            return Err(CommandError::UnknownSelectorKey);
        }
        i += 1;
    }
    rule.flags_set = parsed.flags_set;
    rule.flags_clear = parsed.flags_clear;
    rule.flags_override = parsed.flags_override;
    let action = match parsed.action {
        Some(a) => a,
        None => DyndbgRuleActionSnapshot::KeepState,
    };
    let ghost rule_spec = rule;
    state.append_dyndbg_rule(keys, rule, action);
    proof {
        assert(state.rule_chain().drop_last() =~= old(state).rule_chain());
    }
    Ok(())
}

/// Carry out a (trimmed, non-empty) dynamic-debug command: `clear` empties
/// the rule chain, `del <id>` removes rule `id`, anything else is selectors
/// followed by an action and appends a rule.
pub fn apply_command(state: &mut DyndbgState, keys: &mut StaticKeyRegistry, command: &str) -> (r: Result<(), CommandError>)
    requires
        old(state).wf(),
        old(state).keys_cover(old(keys)@),
    ensures
        final(state).wf(),
        final(state).keys_cover(final(keys)@),
        old(state).synced() ==> final(state).synced(),
        same_sites(old(state).descs(), final(state).descs()),
        command_effect(old(state), final(state), command_kind(command@), r),
        r is Err ==> final(keys)@ == old(keys)@,
        r is Ok ==> gates_follow(*old(state), *final(state)),
        r is Ok ==> final(keys)@ == gate_patches(old(keys)@, *old(state), *final(state), MAX_DYNDBG_MODULES as int),
        r is Ok ==> patch_stats_follow(*old(state), *final(state)),
{
    if str_eq(command, "clear") {
        state.clear_dyndbg_rules(keys);
        return Ok(());
    }
    match strip_prefix(command, "del ") {
        Some(rest) => {
            proof {
                reveal_strlit("del ");
            }
            return delete_rule(state, keys, trim(rest));
        },
        None => {},
    }
    let mut parts = split_ascii_whitespace(command);
    if parts.len() == 0 {
        return Err(CommandError::EmptyCommand);
    }
    let ghost toks = str_views(parts@);
    let action_token = parts.pop().unwrap();
    assert(action_token@ == toks.last());
    assert(str_views(parts@) =~= toks.drop_last());
    let parsed = match parse_action(action_token) {
        Ok(p) => p,
        Err(e) => return Err(e),
    };
    append_rule(state, keys, parts.as_slice(), parsed)
}

// ───────────────────────────── what each selector selects ─────────────────────────────

/// Only a `file` selector, `v`.
pub open spec fn only_file(v: Seq<char>) -> RuleKeys {
    RuleKeys { file: Some(v), module: None, func: None, line: None }
}

/// Only a `module` selector, `v`.
pub open spec fn only_module(v: Seq<char>) -> RuleKeys {
    RuleKeys { file: None, module: Some(v), func: None, line: None }
}

/// Only a `func` selector, `v`.
pub open spec fn only_func(v: Seq<char>) -> RuleKeys {
    RuleKeys { file: None, module: None, func: Some(v), line: None }
}

/// The first `=` of `p + v` is the last character of `p` when `p` has no
/// other `=`.
proof fn lemma_first_eq(p: Seq<char>, v: Seq<char>, i: int)
    requires
        p.len() >= 1,
        p[p.len() - 1] == '=',
        forall|k: int| 0 <= k < p.len() - 1 ==> p[k] != '=',
        0 <= i <= p.len() - 1,
    ensures
        find_char(p + v, '=', i) == p.len() - 1,
    decreases p.len() - 1 - i,
{
    if i < p.len() - 1 {
        assert((p + v)[i] == p[i]);
        lemma_first_eq(p, v, i + 1);
    } else {
        assert((p + v)[i] == p[i]);
    }
}

proof fn lemma_one_selector(key: Seq<char>, v: Seq<char>)
    requires
        v.len() > 0,
        forall|k: int| 0 <= k < key.len() ==> key[k] != '=',
    ensures
        ({
            let s = key + seq!['='] + v;
            &&& find_char(s, '=', 0) == key.len()
            &&& s.take(key.len() as int) == key
            &&& s.skip(key.len() + 1int) == v
            &&& s.len() == key.len() + 1 + v.len()
        }),
{
    let p = key + seq!['='];
    assert(key + seq!['='] + v == p + v);
    assert forall|k: int| 0 <= k < p.len() - 1 implies p[k] != '=' by {
        assert(p[k] == key[k]);
    }
    lemma_first_eq(p, v, 0);
    assert((p + v).take(key.len() as int) =~= key);
    assert((p + v).skip(key.len() + 1int) =~= v);
}

/// A selector `file=<v>`, `module=<v>` or `func=<v>` (with a value that is
/// not empty) selects by file, by module path or by function name
/// respectively, and by nothing else: the rule a command with that single
/// selector appends has `v` as exactly that keyword and no other selector.
/// Such a rule selects every call site whose file, module path or function
/// name (respectively) is `v` (without `*` or `?`), whatever its other
/// fields are.
pub proof fn law_selector_keys(v: Seq<char>, e: DyndbgRuleEntry, a: ParsedAction, d: DescriptorView)
    requires
        v.len() > 0,
    ensures
        selectors_scan(seq!["file"@ + seq!['='] + v], 0, no_keys()) == Ok::<RuleKeys, CommandError>(only_file(v)),
        selectors_scan(seq!["module"@ + seq!['='] + v], 0, no_keys()) == Ok::<RuleKeys, CommandError>(only_module(v)),
        selectors_scan(seq!["func"@ + seq!['='] + v], 0, no_keys()) == Ok::<RuleKeys, CommandError>(only_func(v)),
        is_appended_entry(e, only_file(v), a) ==> opt_string_view(e.rule.file_keyword) == Some(v)
            && e.rule.module_keyword is None && e.rule.function_keyword is None && e.rule.line is None,
        is_appended_entry(e, only_module(v), a) ==> opt_string_view(e.rule.module_keyword) == Some(v)
            && e.rule.file_keyword is None && e.rule.function_keyword is None && e.rule.line is None,
        is_appended_entry(e, only_func(v), a) ==> opt_string_view(e.rule.function_keyword) == Some(v)
            && e.rule.file_keyword is None && e.rule.module_keyword is None && e.rule.line is None,
        is_appended_entry(e, only_file(v), a) && d.file == v && !is_wildcard(encode_utf8(v)) ==> rule_matches(
            e.rule,
            d,
        ),
        is_appended_entry(e, only_module(v), a) && d.mod_path == v && !is_wildcard(encode_utf8(v))
            ==> rule_matches(e.rule, d),
        is_appended_entry(e, only_func(v), a) && d.function == Some(v) && !is_wildcard(encode_utf8(v))
            ==> rule_matches(e.rule, d),
{
    reveal_strlit("file");
    reveal_strlit("module");
    reveal_strlit("func");
    reveal_strlit("line");
    assert forall|k: int| 0 <= k < "file"@.len() implies "file"@[k] != '=' by {}
    assert forall|k: int| 0 <= k < "module"@.len() implies "module"@[k] != '=' by {}
    assert forall|k: int| 0 <= k < "func"@.len() implies "func"@[k] != '=' by {}
    lemma_one_selector("file"@, v);
    lemma_one_selector("module"@, v);
    lemma_one_selector("func"@, v);
    let sf = "file"@ + seq!['='] + v;
    let sm = "module"@ + seq!['='] + v;
    let sc = "func"@ + seq!['='] + v;
    assert(seq![sf][0] == sf);
    assert(seq![sm][0] == sm);
    assert(seq![sc][0] == sc);
    assert(selectors_scan(seq![sf], 1, only_file(v)) == Ok::<RuleKeys, CommandError>(only_file(v)));
    assert(selectors_scan(seq![sm], 1, only_module(v)) == Ok::<RuleKeys, CommandError>(only_module(v)));
    assert(selectors_scan(seq![sc], 1, only_func(v)) == Ok::<RuleKeys, CommandError>(only_func(v)));
    assert("module"@.len() != "file"@.len());
    assert("func"@[1] != "file"@[1]);
    assert("func"@.len() != "module"@.len());
}

} // verus!
