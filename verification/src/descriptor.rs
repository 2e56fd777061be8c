//! One dynamic-debug call site: where it is (file, module, function, line)
//! and its current switches (log, trace, output-format flags).
use vstd::prelude::*;
use vstd::string::*;

verus! {

/// Log output of a freshly created or unmatched call site.
pub const DEFAULT_DEBUG_ENABLED: bool = false;

/// Number of module ids that can be handed out.
pub const MAX_DYNDBG_MODULES: usize = 8192;

/// Module id of call sites registered after the module ids ran out; such
/// sites stay disabled for good.
pub const UNASSIGNED_MODULE_ID: u32 = 0xffff_ffffu32;

/// Capacity of the hotspot counter array; later call sites are not counted.
pub const MAX_HOT_SITES: usize = 4096;

/// Hotspot index of a call site that is not counted.
pub const UNASSIGNED_HOT_INDEX: u32 = 0xffff_ffffu32;

/// Format flag `+f`: prefix the function name.
pub const FLAG_FUNCTION: u8 = 1u8;

/// Format flag `+l`: prefix `file:line`.
pub const FLAG_LINE: u8 = 2u8;

/// Format flag `+m`: prefix the module path.
pub const FLAG_MODULE: u8 = 4u8;

/// Format flag `+t`: prefix the current task pointer.
pub const FLAG_THREAD: u8 = 8u8;

/// The abstract state of a call site.
pub struct DescriptorView {
    pub log: bool,
    pub trace: bool,
    pub flags: u8,
    pub hot_index: u32,
    pub file: Seq<char>,
    pub mod_path: Seq<char>,
    pub module_id: u32,
    pub function: Option<Seq<char>>,
    pub line: u32,
}

impl DescriptorView {
    /// Log or trace is on: the call site needs its static branch taken.
    pub open spec fn effective(self) -> bool {
        self.log || self.trace
    }
}

#[derive(Debug)]
pub struct DebugDescriptor {
    log_enabled: bool,
    trace_enabled: bool,
    format_flags: u8,
    hot_index: u32,
    /// Source file path (e.g. `kernel/src/fs/ext2/dir.rs`).
    file: String,
    /// Rust module path (e.g. `aster_kernel::fs::ext2::dir`).
    mod_path: String,
    module_id: u32,
    function: Option<String>,
    /// Source line number.
    line: u32,
}

pub open spec fn opt_string_view(o: Option<String>) -> Option<Seq<char>> {
    match o {
        Some(s) => Some(s@),
        None => None,
    }
}

impl View for DebugDescriptor {
    type V = DescriptorView;

    closed spec fn view(&self) -> DescriptorView {
        DescriptorView {
            log: self.log_enabled,
            trace: self.trace_enabled,
            flags: self.format_flags,
            hot_index: self.hot_index,
            file: self.file@,
            mod_path: self.mod_path@,
            module_id: self.module_id,
            function: opt_string_view(self.function),
            line: self.line,
        }
    }
}

impl DebugDescriptor {
    /// A call site at `file:line` in `mod_path`, inside the function named
    /// `function` (when known); log and trace off, no format flags, no module
    /// id and no hotspot index yet.
    pub fn new(file: &str, mod_path: &str, function: Option<&str>, line: u32) -> (d: Self)
        ensures
            d@.log == DEFAULT_DEBUG_ENABLED,
            !d@.trace,
            d@.flags == 0,
            d@.hot_index == UNASSIGNED_HOT_INDEX,
            d@.file == file@,
            d@.mod_path == mod_path@,
            d@.module_id == UNASSIGNED_MODULE_ID,
            d@.function == (match function {
                Some(f) => Some(f@),
                None => None::<Seq<char>>,
            }),
            d@.line == line,
    {
        let function = match function {
            Some(f) => Some(String::from_str(f)),
            None => None,
        };
        DebugDescriptor {
            log_enabled: DEFAULT_DEBUG_ENABLED,
            trace_enabled: false,
            format_flags: 0,
            hot_index: UNASSIGNED_HOT_INDEX,
            file: String::from_str(file),
            mod_path: String::from_str(mod_path),
            module_id: UNASSIGNED_MODULE_ID,
            function,
            line,
        }
    }

    /// Source file path (e.g. `kernel/src/fs/ext2/dir.rs`).
    pub fn file(&self) -> (r: &str)
        ensures
            r@ == self@.file,
    {
        self.file.as_str()
    }

    /// Rust module path (e.g. `aster_kernel::fs::ext2::dir`).
    pub fn mod_path(&self) -> (r: &str)
        ensures
            r@ == self@.mod_path,
    {
        self.mod_path.as_str()
    }

    /// Source line number.
    pub fn line(&self) -> (r: u32)
        ensures
            r == self@.line,
    {
        self.line
    }

    /// Set both switches (used during registration).
    pub fn init_enabled(&mut self, log_enabled: bool, trace_enabled: bool)
        ensures
            final(self)@ == (DescriptorView { log: log_enabled, trace: trace_enabled, ..old(self)@ }),
    {
        self.log_enabled = log_enabled;
        self.trace_enabled = trace_enabled;
    }

    pub fn init_module_id(&mut self, module_id: u32)
        ensures
            final(self)@ == (DescriptorView { module_id, ..old(self)@ }),
    {
        self.module_id = module_id;
    }

    pub fn module_id(&self) -> (r: u32)
        ensures
            r == self@.module_id,
    {
        self.module_id
    }

    /// Assign the hotspot counter index (registration order).
    pub fn init_hot_index(&mut self, hot_index: u32)
        ensures
            final(self)@ == (DescriptorView { hot_index, ..old(self)@ }),
    {
        self.hot_index = hot_index;
    }

    /// Hotspot counter index, or `UNASSIGNED_HOT_INDEX` when not counted.
    pub fn hot_index(&self) -> (r: u32)
        ensures
            r == self@.hot_index,
    {
        self.hot_index
    }

    /// Set both switches and report `(old_effective, new_effective)`, where a
    /// call site is effective when log or trace is on.
    pub fn update_enabled(&mut self, log_enabled: bool, trace_enabled: bool) -> (r: (bool, bool))
        ensures
            final(self)@ == (DescriptorView { log: log_enabled, trace: trace_enabled, ..old(self)@ }),
            r == (old(self)@.effective(), log_enabled || trace_enabled),
    {
        let old_log = self.log_enabled;
        let old_trace = self.trace_enabled;
        self.log_enabled = log_enabled;
        self.trace_enabled = trace_enabled;
        (old_log || old_trace, log_enabled || trace_enabled)
    }

    /// Log mode is on.
    pub fn should_log_fast(&self) -> (r: bool)
        ensures
            r == self@.log,
    {
        self.log_enabled
    }

    /// Trace mode is on.
    pub fn should_trace_fast(&self) -> (r: bool)
        ensures
            r == self@.trace,
    {
        self.trace_enabled
    }

    /// Overwrite the format flags.
    pub fn set_format_flags(&mut self, flags: u8)
        ensures
            final(self)@ == (DescriptorView { flags, ..old(self)@ }),
    {
        self.format_flags = flags;
    }

    /// The current format flags (`+f/+l/+m/+t` bits).
    pub fn format_flags(&self) -> (r: u8)
        ensures
            r == self@.flags,
    {
        self.format_flags
    }

    /// The function name (without module path), e.g. `ext2_read`.
    pub fn function_name(&self) -> (r: Option<&str>)
        ensures
            match r {
                Some(s) => self@.function == Some(s@),
                None => self@.function is None,
            },
    {
        match &self.function {
            Some(f) => Some(f.as_str()),
            None => None,
        }
    }
}

} // verus!
