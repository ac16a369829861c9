use vstd::prelude::*;

verus! {

pub const NAMESP_SCRIPT_DEBUGGER: &'static str = "ScriptDebugger";

pub const NAMESP_SCRIPT_PROFILER: &'static str = "ScriptProfiler";

pub const NAMESP_SCRIPT_COMPILER: &'static str = "ScriptCompiler";

pub const NAMESP_SCRIPTS: &'static str = "scripts";

pub const NAMESP_REMOTE: &'static str = "Remote";

pub const NAMESP_UTILITY: &'static str = "Utility";

pub const NAMESP_CONFIG: &'static str = "Config";

pub const CMD_BIND: &'static str = "BIND";

pub const SCRIPT_DEBUGGER_UNFILTERED_LOCALS: &'static str = "UnfilteredLocals";

pub const SCRIPT_DEBUGGER_SORT_LOCALS: &'static str = "SortLocals";

pub const SCRIPT_DEBUGGER_OPCODE_REQUEST: &'static str = "OpcodeBreakdownRequest";

pub const SCRIPT_COMPILER_ROOT_PATH: &'static str = "RootPath";

pub const SCRIPTS_RELOAD: &'static str = "reload";

pub const SCRIPTS_MODLIST: &'static str = "pkgSync";

/// The first magic number of an exec command: the bit pattern 0x12345678.
pub const EXEC_MAGIC_1: i32 = 0x12345678;

/// The second magic number of an exec command: the bit pattern 0x81160008.
pub const EXEC_MAGIC_2: i32 = -2129264632;

/// The magic number of a config message: the bit pattern 0xCC00CC00.
pub const CONFIG_VAR: i32 = -872363008;

pub const CONFIG_VAR_LIST: &'static str = "list";

pub const CONFIG_VAR_SET: &'static str = "set";

} // verus!
