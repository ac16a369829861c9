use vstd::prelude::*;
use crate::constants;
use crate::protocol::packet::WitcherPacket;
use crate::protocol::packet_assembly::WitcherPacketAssembler;
use crate::protocol::packet_data::PacketValue;

verus! {

/// Builds the payload of a packet value by value.
pub type WitcherPacketBuilder = WitcherPacketAssembler;

/// The payload that asks the game for the messages of a namespace.
pub open spec fn listen_payload(namespace: Seq<char>) -> Seq<PacketValue> {
    seq![PacketValue::StringUTF8("BIND"@), PacketValue::StringUTF8(namespace)]
}

/// Listen to game messages coming from given namespace
/// * `namespace` - namespace to listen to
pub fn listen(namespace: String) -> (packet: WitcherPacket)
    ensures
        packet@ == listen_payload(namespace@),
{
    let packet = WitcherPacketBuilder::new().string_utf8(constants::CMD_BIND).string_utf8(
        namespace.as_str(),
    ).finish();
    assert(packet@ =~= listen_payload(namespace@));
    packet
}

/// Listen to game messages coming from all namespaces
pub fn listen_all() -> (packets: Vec<WitcherPacket>)
    ensures
        packets@.len() == 7,
        packets@[0]@ == listen_payload("ScriptCompiler"@),
        packets@[1]@ == listen_payload("ScriptDebugger"@),
        packets@[2]@ == listen_payload("ScriptProfiler"@),
        packets@[3]@ == listen_payload("scripts"@),
        packets@[4]@ == listen_payload("Remote"@),
        packets@[5]@ == listen_payload("Utility"@),
        packets@[6]@ == listen_payload("Config"@),
{
    let mut packets: Vec<WitcherPacket> = Vec::new();
    packets.push(listen(constants::NAMESP_SCRIPT_COMPILER.to_owned()));
    packets.push(listen(constants::NAMESP_SCRIPT_DEBUGGER.to_owned()));
    packets.push(listen(constants::NAMESP_SCRIPT_PROFILER.to_owned()));
    packets.push(listen(constants::NAMESP_SCRIPTS.to_owned()));
    packets.push(listen(constants::NAMESP_REMOTE.to_owned()));
    packets.push(listen(constants::NAMESP_UTILITY.to_owned()));
    packets.push(listen(constants::NAMESP_CONFIG.to_owned()));
    packets
}

/// Reload game scripts
pub fn scripts_reload() -> (packet: WitcherPacket)
    ensures
        packet@ == seq![PacketValue::StringUTF8("scripts"@), PacketValue::StringUTF8("reload"@)],
{
    let packet = WitcherPacketBuilder::new().string_utf8(constants::NAMESP_SCRIPTS).string_utf8(
        constants::SCRIPTS_RELOAD,
    ).finish();
    assert(packet@ =~= seq![
        PacketValue::StringUTF8("scripts"@),
        PacketValue::StringUTF8("reload"@),
    ]);
    packet
}

/// Get root directory path of game scripts
pub fn scripts_root_path() -> (packet: WitcherPacket)
    ensures
        packet@ == seq![
            PacketValue::StringUTF8("ScriptCompiler"@),
            PacketValue::StringUTF8("RootPath"@),
        ],
{
    let packet = WitcherPacketBuilder::new().string_utf8(
        constants::NAMESP_SCRIPT_COMPILER,
    ).string_utf8(constants::SCRIPT_COMPILER_ROOT_PATH).finish();
    assert(packet@ =~= seq![
        PacketValue::StringUTF8("ScriptCompiler"@),
        PacketValue::StringUTF8("RootPath"@),
    ]);
    packet
}

/// Run exec function from the game
/// * `command` - exec command to execute in the game
pub fn scripts_execute(command: String) -> (packet: WitcherPacket)
    ensures
        packet@ == seq![
            PacketValue::StringUTF8("Remote"@),
            PacketValue::Int32(constants::EXEC_MAGIC_1),
            PacketValue::Int32(constants::EXEC_MAGIC_2),
            PacketValue::StringUTF8(command@),
        ],
{
    let packet = WitcherPacketBuilder::new().string_utf8(constants::NAMESP_REMOTE).int32(
        constants::EXEC_MAGIC_1,
    ).int32(constants::EXEC_MAGIC_2).string_utf8(command.as_str()).finish();
    assert(packet@ =~= seq![
        PacketValue::StringUTF8("Remote"@),
        PacketValue::Int32(constants::EXEC_MAGIC_1),
        PacketValue::Int32(constants::EXEC_MAGIC_2),
        PacketValue::StringUTF8(command@),
    ]);
    packet
}

/// Get the list of installed mods
pub fn mod_list() -> (packet: WitcherPacket)
    ensures
        packet@ == seq![PacketValue::StringUTF8("scripts"@), PacketValue::StringUTF8("pkgSync"@)],
{
    let packet = WitcherPacketBuilder::new().string_utf8(constants::NAMESP_SCRIPTS).string_utf8(
        constants::SCRIPTS_MODLIST,
    ).finish();
    assert(packet@ =~= seq![
        PacketValue::StringUTF8("scripts"@),
        PacketValue::StringUTF8("pkgSync"@),
    ]);
    packet
}

/// The payload that asks for the opcodes of a function, of a class or of none.
pub open spec fn opcode_payload(func_name: Seq<char>, class_name: Option<Seq<char>>) -> Seq<
    PacketValue,
> {
    let start = seq![
        PacketValue::StringUTF8("ScriptDebugger"@),
        PacketValue::StringUTF8("OpcodeBreakdownRequest"@),
        PacketValue::StringUTF16(func_name),
    ];
    match class_name {
        Some(class) => start + seq![PacketValue::Int8(1), PacketValue::StringUTF16(class)],
        None => start + seq![PacketValue::Int8(0)],
    }
}

/// The text that an optional string holds.
pub open spec fn optional_text(text: Option<String>) -> Option<Seq<char>> {
    match text {
        Some(text) => Some(text@),
        None => None,
    }
}

/// Get the opcode of a script function
/// * `func_name` - name of the function
/// * `class_name` - name of the class if the function is a member of that class; pass None if it's not a method
pub fn opcode(func_name: String, class_name: Option<String>) -> (packet: WitcherPacket)
    ensures
        packet@ == opcode_payload(func_name@, optional_text(class_name)),
{
    let builder = WitcherPacketBuilder::new().string_utf8(
        constants::NAMESP_SCRIPT_DEBUGGER,
    ).string_utf8(constants::SCRIPT_DEBUGGER_OPCODE_REQUEST).string_utf16(func_name.as_str());
    let packet = if let Some(class) = class_name {
        builder.int8(1).string_utf16(class.as_str()).finish()
    } else {
        builder.int8(0).finish()
    };
    assert(packet@ =~= opcode_payload(func_name@, optional_text(class_name)));
    packet
}

/// The text of an optional string, and no text where there is no string.
pub open spec fn text_or_empty(text: Option<String>) -> Seq<char> {
    match text {
        Some(text) => text@,
        None => Seq::empty(),
    }
}

fn unwrap_or_empty(text: Option<String>) -> (unwrapped: String)
    ensures
        unwrapped@ == text_or_empty(text),
{
    match text {
        Some(text) => text,
        None => String::new(),
    }
}

/// Search for config variables
/// * `section` - var section to search; if None is passed searches all sections
/// * `name` - token that should be included in vars; if None is passed searches all variables
pub fn var_list(section: Option<String>, name: Option<String>) -> (packet: WitcherPacket)
    ensures
        packet@ == seq![
            PacketValue::StringUTF8("Config"@),
            PacketValue::Int32(constants::CONFIG_VAR),
            PacketValue::StringUTF8("list"@),
            PacketValue::StringUTF8(text_or_empty(section)),
            PacketValue::StringUTF8(text_or_empty(name)),
        ],
{
    let section = unwrap_or_empty(section);
    let name = unwrap_or_empty(name);
    let packet = WitcherPacketBuilder::new().string_utf8(constants::NAMESP_CONFIG).int32(
        constants::CONFIG_VAR,
    ).string_utf8(constants::CONFIG_VAR_LIST).string_utf8(section.as_str()).string_utf8(
        name.as_str(),
    ).finish();
    assert(packet@ =~= seq![
        PacketValue::StringUTF8("Config"@),
        PacketValue::Int32(constants::CONFIG_VAR),
        PacketValue::StringUTF8("list"@),
        PacketValue::StringUTF8(section@),
        PacketValue::StringUTF8(name@),
    ]);
    packet
}

/// Sets a config variable
/// * `section` - variable's section
/// * `name` - variable's name
/// * `value` - variable's new value
pub fn var_set(section: String, name: String, value: String) -> (packet: WitcherPacket)
    ensures
        packet@ == seq![
            PacketValue::StringUTF8("Config"@),
            PacketValue::Int32(constants::CONFIG_VAR),
            PacketValue::StringUTF8("set"@),
            PacketValue::StringUTF8(section@),
            PacketValue::StringUTF8(name@),
            PacketValue::StringUTF16(value@),
        ],
{
    let packet = WitcherPacketBuilder::new().string_utf8(constants::NAMESP_CONFIG).int32(
        constants::CONFIG_VAR,
    ).string_utf8(constants::CONFIG_VAR_SET).string_utf8(section.as_str()).string_utf8(
        name.as_str(),
    ).string_utf16(value.as_str()).finish();
    assert(packet@ =~= seq![
        PacketValue::StringUTF8("Config"@),
        PacketValue::Int32(constants::CONFIG_VAR),
        PacketValue::StringUTF8("set"@),
        PacketValue::StringUTF8(section@),
        PacketValue::StringUTF8(name@),
        PacketValue::StringUTF16(value@),
    ]);
    packet
}

} // verus!
