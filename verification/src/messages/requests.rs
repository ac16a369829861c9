use vstd::prelude::*;
use crate::constants::{CONFIG_VAR, EXEC_MAGIC_1, EXEC_MAGIC_2};
use crate::messages::lines::{
    join_lines, join_with, lemma_split_join, line_feed, split_lines, split_on,
    splittable, texts_of,
};
use crate::messages::Message;
use crate::protocol::bytes::{i32_from_bits, i32_of_bits};
use crate::protocol::packet_assembly::{
    concat_map, in_context, lemma_concat_map_known, lemma_concat_map_push, lemma_known_append, lemma_prepend_none, lemma_prepend_twice,
    lemma_skip_twice, lemma_took_at, prepend, same_text, take_fixed_int32, take_fixed_utf8,
    take_int32, take_int8, take_utf16, take_utf8, took, AssemblePayload, DisassembleError,
    DisassemblePayload, PayloadRoundTrip, WitcherPacketAssembler, WitcherPacketDisassembler,
};
use crate::protocol::packet_data::PacketValue;

verus! {

/// A message that expects a reply.
pub trait Request: Message {
    type Response: Response;
}

/// A message that replies to a request.
pub trait Response: Message {
}

/// The number that announces a list of `len` items: `len` itself while it fits a
/// signed 32-bit number, and beyond that its low 32 bits read as one.
pub open spec fn count_prefix(len: nat) -> i32 {
    i32_of_bits((len % 0x1_0000_0000) as u32)
}

/// The number of items that a count announces: none where it is negative.
pub open spec fn announced(count: i32) -> nat {
    if count < 0 {
        0
    } else {
        count as nat
    }
}

/// The number of items still to come after `done` of those that a count announces.
pub open spec fn still_announced(count: i32, done: int) -> nat {
    if count <= done {
        0
    } else {
        (count - done) as nat
    }
}

fn count_of(len: usize) -> (count: i32)
    ensures
        count == count_prefix(len as nat),
{
    i32_from_bits((len as u64 % 0x1_0000_0000) as u32)
}

/// Asks for the path of the directory that holds the scripts of the base game.
#[derive(Debug)]
pub struct ScriptsRootPath;

impl Message for ScriptsRootPath {
    type Id = ScriptsRootPathId;

    type Body = ();
}

impl Request for ScriptsRootPath {
    type Response = ScriptsRootPathResponse;
}

/// The identifier of [`ScriptsRootPath`].
#[derive(Debug, Default)]
pub struct ScriptsRootPathId;

impl View for ScriptsRootPathId {
    type V = ();

    open spec fn view(&self) -> () {
        ()
    }
}

impl AssemblePayload for ScriptsRootPathId {
    open spec fn payload(v: ()) -> Seq<PacketValue> {
        seq![PacketValue::StringUTF8("ScriptCompiler"@), PacketValue::StringUTF8("RootPath"@)]
    }

    fn assemble_payload(self, assembler: WitcherPacketAssembler) -> (r: WitcherPacketAssembler) {
        let r = assembler.string_utf8("ScriptCompiler").string_utf8("RootPath");
        assert(r@ =~= assembler@ + Self::payload(()));
        r
    }
}

impl DisassemblePayload for ScriptsRootPathId {
    open spec fn parsed(s: Seq<PacketValue>) -> (Result<(), DisassembleError>, nat) {
        match take_fixed_utf8(s, "ScriptCompiler"@) {
            (Err(e), n) => (Err(e), n),
            (Ok(_), _) => match take_fixed_utf8(s.skip(1), "RootPath"@) {
                (Err(e), n) => (Err(e), 1 + n),
                (Ok(_), _) => (Ok(()), 2),
            },
        }
    }

    fn disassemble_payload(dasm: &mut WitcherPacketDisassembler) -> (r: Result<
        Self,
        DisassembleError,
    >) {
        let ghost before = dasm@;
        let found = dasm.fixed_string_utf8("ScriptCompiler");
        proof {
            lemma_took_at(old(dasm)@, 0, before, dasm@);
        }
        if let Err(e) = found {
            return Err(e);
        }
        let ghost before = dasm@;
        let found = dasm.fixed_string_utf8("RootPath");
        proof {
            lemma_took_at(old(dasm)@, 1, before, dasm@);
        }
        if let Err(e) = found {
            return Err(e);
        }
        Ok(Self)
    }
}

impl PayloadRoundTrip for ScriptsRootPathId {
    open spec fn legal(v: ()) -> bool {
        true
    }

    proof fn lemma_payload_round_trip(v: (), rest: Seq<PacketValue>) {
        let s = Self::payload(()) + rest;
        assert(s[0] == PacketValue::StringUTF8("ScriptCompiler"@));
        assert(s[1] == PacketValue::StringUTF8("RootPath"@));
        assert(s.skip(1)[0] == s[1]);
    }

    proof fn lemma_payload_known(v: ()) {
    }
}

/// The reply to [`ScriptsRootPath`].
#[derive(Debug)]
pub struct ScriptsRootPathResponse;

impl Message for ScriptsRootPathResponse {
    type Id = ScriptsRootPathResponseId;

    type Body = ScriptsRootPathResult;
}

impl Response for ScriptsRootPathResponse {
}

/// The identifier of [`ScriptsRootPathResponse`].
#[derive(Debug, Default)]
pub struct ScriptsRootPathResponseId;

impl View for ScriptsRootPathResponseId {
    type V = ();

    open spec fn view(&self) -> () {
        ()
    }
}

impl AssemblePayload for ScriptsRootPathResponseId {
    open spec fn payload(v: ()) -> Seq<PacketValue> {
        seq![PacketValue::StringUTF8("ScriptCompiler"@), PacketValue::StringUTF8("RootPathConfirm"@)]
    }

    fn assemble_payload(self, assembler: WitcherPacketAssembler) -> (r: WitcherPacketAssembler) {
        let r = assembler.string_utf8("ScriptCompiler").string_utf8("RootPathConfirm");
        assert(r@ =~= assembler@ + Self::payload(()));
        r
    }
}

impl DisassemblePayload for ScriptsRootPathResponseId {
    open spec fn parsed(s: Seq<PacketValue>) -> (Result<(), DisassembleError>, nat) {
        match take_fixed_utf8(s, "ScriptCompiler"@) {
            (Err(e), n) => (Err(e), n),
            (Ok(_), _) => match take_fixed_utf8(s.skip(1), "RootPathConfirm"@) {
                (Err(e), n) => (Err(e), 1 + n),
                (Ok(_), _) => (Ok(()), 2),
            },
        }
    }

    fn disassemble_payload(dasm: &mut WitcherPacketDisassembler) -> (r: Result<
        Self,
        DisassembleError,
    >) {
        let ghost before = dasm@;
        let found = dasm.fixed_string_utf8("ScriptCompiler");
        proof {
            lemma_took_at(old(dasm)@, 0, before, dasm@);
        }
        if let Err(e) = found {
            return Err(e);
        }
        let ghost before = dasm@;
        let found = dasm.fixed_string_utf8("RootPathConfirm");
        proof {
            lemma_took_at(old(dasm)@, 1, before, dasm@);
        }
        if let Err(e) = found {
            return Err(e);
        }
        Ok(Self)
    }
}

impl PayloadRoundTrip for ScriptsRootPathResponseId {
    open spec fn legal(v: ()) -> bool {
        true
    }

    proof fn lemma_payload_round_trip(v: (), rest: Seq<PacketValue>) {
        let s = Self::payload(()) + rest;
        assert(s[0] == PacketValue::StringUTF8("ScriptCompiler"@));
        assert(s[1] == PacketValue::StringUTF8("RootPathConfirm"@));
        assert(s.skip(1)[0] == s[1]);
    }

    proof fn lemma_payload_known(v: ()) {
    }
}

/// The absolute path of the scripts of the base game.
#[derive(Debug, Clone, PartialEq, Eq, PartialOrd, Ord)]
pub struct ScriptsRootPathResult {
    pub abs_path: String,
}

impl View for ScriptsRootPathResult {
    type V = Seq<char>;

    open spec fn view(&self) -> Seq<char> {
        self.abs_path@
    }
}

impl AssemblePayload for ScriptsRootPathResult {
    open spec fn payload(v: Seq<char>) -> Seq<PacketValue> {
        seq![PacketValue::StringUTF16(v)]
    }

    fn assemble_payload(self, assembler: WitcherPacketAssembler) -> (r: WitcherPacketAssembler) {
        let r = assembler.string_utf16(self.abs_path.as_str());
        assert(r@ =~= assembler@ + Self::payload(self@));
        r
    }
}

impl DisassemblePayload for ScriptsRootPathResult {
    open spec fn parsed(s: Seq<PacketValue>) -> (Result<Seq<char>, DisassembleError>, nat) {
        in_context(take_utf16(s), "abs_path")
    }

    fn disassemble_payload(dasm: &mut WitcherPacketDisassembler) -> (r: Result<
        Self,
        DisassembleError,
    >) {
        match dasm.string_utf16() {
            Ok(text) => Ok(Self { abs_path: text.0 }),
            Err(e) => Err(e.at("abs_path")),
        }
    }
}

impl PayloadRoundTrip for ScriptsRootPathResult {
    open spec fn legal(v: Seq<char>) -> bool {
        true
    }

    proof fn lemma_payload_round_trip(v: Seq<char>, rest: Seq<PacketValue>) {
        assert((Self::payload(v) + rest)[0] == PacketValue::StringUTF16(v));
    }

    proof fn lemma_payload_known(v: Seq<char>) {
    }
}

/// Asks the game to run an exec function.
#[derive(Debug)]
pub struct ExecuteCommand;

impl Message for ExecuteCommand {
    type Id = ExecuteCommandId;

    type Body = ExecuteCommandParams;
}

impl Request for ExecuteCommand {
    type Response = ExecuteCommandResponse;
}

/// The identifier of [`ExecuteCommand`].
#[derive(Debug, Default)]
pub struct ExecuteCommandId;

impl View for ExecuteCommandId {
    type V = ();

    open spec fn view(&self) -> () {
        ()
    }
}

impl AssemblePayload for ExecuteCommandId {
    open spec fn payload(v: ()) -> Seq<PacketValue> {
        seq![PacketValue::StringUTF8("Remote"@), PacketValue::Int32(EXEC_MAGIC_1), PacketValue::Int32(EXEC_MAGIC_2)]
    }

    fn assemble_payload(self, assembler: WitcherPacketAssembler) -> (r: WitcherPacketAssembler) {
        let r = assembler.string_utf8("Remote").int32(EXEC_MAGIC_1).int32(EXEC_MAGIC_2);
        assert(r@ =~= assembler@ + Self::payload(()));
        r
    }
}

impl DisassemblePayload for ExecuteCommandId {
    open spec fn parsed(s: Seq<PacketValue>) -> (Result<(), DisassembleError>, nat) {
        match take_fixed_utf8(s, "Remote"@) {
            (Err(e), n) => (Err(e), n),
            (Ok(_), _) => match take_fixed_int32(s.skip(1), EXEC_MAGIC_1) {
                (Err(e), n) => (Err(e), 1 + n),
                (Ok(_), _) => match take_fixed_int32(s.skip(2), EXEC_MAGIC_2) {
                    (Err(e), n) => (Err(e), 2 + n),
                    (Ok(_), _) => (Ok(()), 3),
                },
            },
        }
    }

    fn disassemble_payload(dasm: &mut WitcherPacketDisassembler) -> (r: Result<
        Self,
        DisassembleError,
    >) {
        let ghost before = dasm@;
        let found = dasm.fixed_string_utf8("Remote");
        proof {
            lemma_took_at(old(dasm)@, 0, before, dasm@);
        }
        if let Err(e) = found {
            return Err(e);
        }
        let ghost before = dasm@;
        let found = dasm.fixed_int32(EXEC_MAGIC_1);
        proof {
            lemma_took_at(old(dasm)@, 1, before, dasm@);
        }
        if let Err(e) = found {
            return Err(e);
        }
        let ghost before = dasm@;
        let found = dasm.fixed_int32(EXEC_MAGIC_2);
        proof {
            lemma_took_at(old(dasm)@, 2, before, dasm@);
        }
        if let Err(e) = found {
            return Err(e);
        }
        Ok(Self)
    }
}

impl PayloadRoundTrip for ExecuteCommandId {
    open spec fn legal(v: ()) -> bool {
        true
    }

    proof fn lemma_payload_round_trip(v: (), rest: Seq<PacketValue>) {
        let s = Self::payload(()) + rest;
        assert(s[0] == PacketValue::StringUTF8("Remote"@));
        assert(s[1] == PacketValue::Int32(EXEC_MAGIC_1));
        assert(s.skip(1)[0] == s[1]);
        assert(s[2] == PacketValue::Int32(EXEC_MAGIC_2));
        assert(s.skip(2)[0] == s[2]);
    }

    proof fn lemma_payload_known(v: ()) {
    }
}

/// The command to run.
#[derive(Debug, Clone, PartialEq, Eq, PartialOrd, Ord)]
pub struct ExecuteCommandParams {
    pub cmd: String,
}

impl View for ExecuteCommandParams {
    type V = Seq<char>;

    open spec fn view(&self) -> Seq<char> {
        self.cmd@
    }
}

impl AssemblePayload for ExecuteCommandParams {
    open spec fn payload(v: Seq<char>) -> Seq<PacketValue> {
        seq![PacketValue::StringUTF8(v)]
    }

    fn assemble_payload(self, assembler: WitcherPacketAssembler) -> (r: WitcherPacketAssembler) {
        let r = assembler.string_utf8(self.cmd.as_str());
        assert(r@ =~= assembler@ + Self::payload(self@));
        r
    }
}

impl DisassemblePayload for ExecuteCommandParams {
    open spec fn parsed(s: Seq<PacketValue>) -> (Result<Seq<char>, DisassembleError>, nat) {
        in_context(take_utf8(s), "command")
    }

    fn disassemble_payload(dasm: &mut WitcherPacketDisassembler) -> (r: Result<
        Self,
        DisassembleError,
    >) {
        match dasm.string_utf8() {
            Ok(text) => Ok(Self { cmd: text.0 }),
            Err(e) => Err(e.at("command")),
        }
    }
}

impl PayloadRoundTrip for ExecuteCommandParams {
    open spec fn legal(v: Seq<char>) -> bool {
        true
    }

    proof fn lemma_payload_round_trip(v: Seq<char>, rest: Seq<PacketValue>) {
        assert((Self::payload(v) + rest)[0] == PacketValue::StringUTF8(v));
    }

    proof fn lemma_payload_known(v: Seq<char>) {
    }
}

/// The reply to [`ExecuteCommand`].
#[derive(Debug)]
pub struct ExecuteCommandResponse;

impl Message for ExecuteCommandResponse {
    type Id = ExecuteCommandResponseId;

    type Body = ExecuteCommandResult;
}

impl Response for ExecuteCommandResponse {
}

/// The identifier of [`ExecuteCommandResponse`].
#[derive(Debug, Default)]
pub struct ExecuteCommandResponseId;

impl View for ExecuteCommandResponseId {
    type V = ();

    open spec fn view(&self) -> () {
        ()
    }
}

impl AssemblePayload for ExecuteCommandResponseId {
    open spec fn payload(v: ()) -> Seq<PacketValue> {
        seq![PacketValue::Int32(EXEC_MAGIC_1), PacketValue::Int32(EXEC_MAGIC_2)]
    }

    fn assemble_payload(self, assembler: WitcherPacketAssembler) -> (r: WitcherPacketAssembler) {
        let r = assembler.int32(EXEC_MAGIC_1).int32(EXEC_MAGIC_2);
        assert(r@ =~= assembler@ + Self::payload(()));
        r
    }
}

impl DisassemblePayload for ExecuteCommandResponseId {
    open spec fn parsed(s: Seq<PacketValue>) -> (Result<(), DisassembleError>, nat) {
        match take_fixed_int32(s, EXEC_MAGIC_1) {
            (Err(e), n) => (Err(e), n),
            (Ok(_), _) => match take_fixed_int32(s.skip(1), EXEC_MAGIC_2) {
                (Err(e), n) => (Err(e), 1 + n),
                (Ok(_), _) => (Ok(()), 2),
            },
        }
    }

    fn disassemble_payload(dasm: &mut WitcherPacketDisassembler) -> (r: Result<
        Self,
        DisassembleError,
    >) {
        let ghost before = dasm@;
        let found = dasm.fixed_int32(EXEC_MAGIC_1);
        proof {
            lemma_took_at(old(dasm)@, 0, before, dasm@);
        }
        if let Err(e) = found {
            return Err(e);
        }
        let ghost before = dasm@;
        let found = dasm.fixed_int32(EXEC_MAGIC_2);
        proof {
            lemma_took_at(old(dasm)@, 1, before, dasm@);
        }
        if let Err(e) = found {
            return Err(e);
        }
        Ok(Self)
    }
}

impl PayloadRoundTrip for ExecuteCommandResponseId {
    open spec fn legal(v: ()) -> bool {
        true
    }

    proof fn lemma_payload_round_trip(v: (), rest: Seq<PacketValue>) {
        let s = Self::payload(()) + rest;
        assert(s[0] == PacketValue::Int32(EXEC_MAGIC_1));
        assert(s[1] == PacketValue::Int32(EXEC_MAGIC_2));
        assert(s.skip(1)[0] == s[1]);
    }

    proof fn lemma_payload_known(v: ()) {
    }
}

/// How a command ended, and what it printed.
#[derive(Debug, Clone, PartialEq, Eq, PartialOrd, Ord)]
pub enum ExecuteCommandResult {
    Success { log_output: Option<Vec<String>> },
    Fail,
}

/// What the result of a command holds.
pub enum ExecuteCommandResultView {
    Success { log_output: Option<Seq<Seq<char>>> },
    Fail,
}

/// The lines that an optional list of strings holds.
pub open spec fn lines_of(lines: Option<Vec<String>>) -> Option<Seq<Seq<char>>> {
    match lines {
        Some(lines) => Some(texts_of(lines@)),
        None => None,
    }
}

impl View for ExecuteCommandResult {
    type V = ExecuteCommandResultView;

    open spec fn view(&self) -> ExecuteCommandResultView {
        match self {
            ExecuteCommandResult::Success { log_output } => ExecuteCommandResultView::Success {
                log_output: lines_of(*log_output),
            },
            ExecuteCommandResult::Fail => ExecuteCommandResultView::Fail,
        }
    }
}

/// The text that stands on the wire for the result of a command.
pub open spec fn output_text(v: ExecuteCommandResultView) -> Seq<char> {
    match v {
        ExecuteCommandResultView::Success { log_output: Some(lines) } => join_with(
            lines,
            line_feed(),
        ),
        ExecuteCommandResultView::Success {
            log_output: None,
        } => "Spam: Command executed without errors"@,
        ExecuteCommandResultView::Fail => "Warn: Failed to process command"@,
    }
}

/// The result of a command that a text on the wire stands for: failure and success
/// without output have a text of their own, and every other text is the output of a
/// success, line by line.
pub open spec fn result_of_text(text: Seq<char>) -> ExecuteCommandResultView {
    if text == "Warn: Failed to process command"@ {
        ExecuteCommandResultView::Fail
    } else if text == "Spam: Command executed without errors"@ {
        ExecuteCommandResultView::Success { log_output: None }
    } else {
        ExecuteCommandResultView::Success { log_output: Some(split_on(text, line_feed())) }
    }
}

impl ExecuteCommandResult {
    pub const SPAM_OUTPUT: &'static str = "Spam: Command executed without errors";

    pub const FAIL_OUTPUT: &'static str = "Warn: Failed to process command";

    /// The result that a text on the wire stands for.
    pub fn from_text(text: &str) -> (result: Self)
        ensures
            result@ == result_of_text(text@),
    {
        if same_text(text, "Warn: Failed to process command") {
            Self::Fail
        } else if same_text(text, "Spam: Command executed without errors") {
            Self::Success { log_output: None }
        } else {
            Self::Success { log_output: Some(split_lines(text)) }
        }
    }

    /// The text that stands on the wire for the result.
    pub fn to_text(&self) -> (text: String)
        ensures
            text@ == output_text(self@),
    {
        match self {
            ExecuteCommandResult::Success { log_output: Some(lines) } => join_lines(lines),
            ExecuteCommandResult::Success { log_output: None } => {
                "Spam: Command executed without errors".to_owned()
            },
            ExecuteCommandResult::Fail => "Warn: Failed to process command".to_owned(),
        }
    }
}

impl AssemblePayload for ExecuteCommandResult {
    open spec fn payload(v: ExecuteCommandResultView) -> Seq<PacketValue> {
        seq![PacketValue::StringUTF8(output_text(v))]
    }

    fn assemble_payload(self, assembler: WitcherPacketAssembler) -> (r: WitcherPacketAssembler) {
        let text = self.to_text();
        let r = assembler.string_utf8(text.as_str());
        assert(r@ =~= assembler@ + Self::payload(self@));
        r
    }
}

impl DisassemblePayload for ExecuteCommandResult {
    open spec fn parsed(s: Seq<PacketValue>) -> (
        Result<ExecuteCommandResultView, DisassembleError>,
        nat,
    ) {
        match in_context(take_utf8(s), "exec output") {
            (Err(e), n) => (Err(e), n),
            (Ok(text), n) => (Ok(result_of_text(text)), n),
        }
    }

    fn disassemble_payload(dasm: &mut WitcherPacketDisassembler) -> (r: Result<
        Self,
        DisassembleError,
    >) {
        match dasm.string_utf8() {
            Ok(text) => Ok(Self::from_text(text.as_str())),
            Err(e) => Err(e.at("exec output")),
        }
    }
}

impl PayloadRoundTrip for ExecuteCommandResult {
    /// Output that survives the wire: at least one line, no line feed inside a line,
    /// and not the one line that stands for failure or for success without output.
    open spec fn legal(v: ExecuteCommandResultView) -> bool {
        match v {
            ExecuteCommandResultView::Success { log_output: Some(lines) } => {
                &&& splittable(lines, line_feed())
                &&& join_with(lines, line_feed()) != "Warn: Failed to process command"@
                &&& join_with(lines, line_feed()) != "Spam: Command executed without errors"@
            },
            _ => true,
        }
    }

    proof fn lemma_payload_round_trip(v: ExecuteCommandResultView, rest: Seq<PacketValue>) {
        assert((Self::payload(v) + rest)[0] == PacketValue::StringUTF8(output_text(v)));
        reveal_strlit("Warn: Failed to process command");
        reveal_strlit("Spam: Command executed without errors");
        assert("Warn: Failed to process command"@[0] == 'W');
        assert("Spam: Command executed without errors"@[0] == 'S');
        match v {
            ExecuteCommandResultView::Success { log_output: Some(lines) } => {
                lemma_split_join(lines, line_feed());
            },
            _ => {},
        }
    }

    proof fn lemma_payload_known(v: ExecuteCommandResultView) {
    }
}

/// Asks for the script packages that the game has found, of the base game and of mods.
#[derive(Debug)]
pub struct ScriptPackages;

impl Message for ScriptPackages {
    type Id = ScriptPackagesId;

    type Body = ();
}

impl Request for ScriptPackages {
    type Response = ScriptPackagesResponse;
}

/// The identifier of [`ScriptPackages`].
#[derive(Debug, Default)]
pub struct ScriptPackagesId;

impl View for ScriptPackagesId {
    type V = ();

    open spec fn view(&self) -> () {
        ()
    }
}

impl AssemblePayload for ScriptPackagesId {
    open spec fn payload(v: ()) -> Seq<PacketValue> {
        seq![PacketValue::StringUTF8("scripts"@), PacketValue::StringUTF8("pkgSync"@)]
    }

    fn assemble_payload(self, assembler: WitcherPacketAssembler) -> (r: WitcherPacketAssembler) {
        let r = assembler.string_utf8("scripts").string_utf8("pkgSync");
        assert(r@ =~= assembler@ + Self::payload(()));
        r
    }
}

impl DisassemblePayload for ScriptPackagesId {
    open spec fn parsed(s: Seq<PacketValue>) -> (Result<(), DisassembleError>, nat) {
        match take_fixed_utf8(s, "scripts"@) {
            (Err(e), n) => (Err(e), n),
            (Ok(_), _) => match take_fixed_utf8(s.skip(1), "pkgSync"@) {
                (Err(e), n) => (Err(e), 1 + n),
                (Ok(_), _) => (Ok(()), 2),
            },
        }
    }

    fn disassemble_payload(dasm: &mut WitcherPacketDisassembler) -> (r: Result<
        Self,
        DisassembleError,
    >) {
        let ghost before = dasm@;
        let found = dasm.fixed_string_utf8("scripts");
        proof {
            lemma_took_at(old(dasm)@, 0, before, dasm@);
        }
        if let Err(e) = found {
            return Err(e);
        }
        let ghost before = dasm@;
        let found = dasm.fixed_string_utf8("pkgSync");
        proof {
            lemma_took_at(old(dasm)@, 1, before, dasm@);
        }
        if let Err(e) = found {
            return Err(e);
        }
        Ok(Self)
    }
}

impl PayloadRoundTrip for ScriptPackagesId {
    open spec fn legal(v: ()) -> bool {
        true
    }

    proof fn lemma_payload_round_trip(v: (), rest: Seq<PacketValue>) {
        let s = Self::payload(()) + rest;
        assert(s[0] == PacketValue::StringUTF8("scripts"@));
        assert(s[1] == PacketValue::StringUTF8("pkgSync"@));
        assert(s.skip(1)[0] == s[1]);
    }

    proof fn lemma_payload_known(v: ()) {
    }
}

/// The reply to [`ScriptPackages`].
#[derive(Debug)]
pub struct ScriptPackagesResponse;

impl Message for ScriptPackagesResponse {
    type Id = ScriptPackagesResponseId;

    type Body = ScriptPackagesResult;
}

impl Response for ScriptPackagesResponse {
}

/// The identifier of [`ScriptPackagesResponse`].
#[derive(Debug, Default)]
pub struct ScriptPackagesResponseId;

impl View for ScriptPackagesResponseId {
    type V = ();

    open spec fn view(&self) -> () {
        ()
    }
}

impl AssemblePayload for ScriptPackagesResponseId {
    open spec fn payload(v: ()) -> Seq<PacketValue> {
        seq![PacketValue::StringUTF8("scripts"@), PacketValue::StringUTF8("pkgSyncListing"@)]
    }

    fn assemble_payload(self, assembler: WitcherPacketAssembler) -> (r: WitcherPacketAssembler) {
        let r = assembler.string_utf8("scripts").string_utf8("pkgSyncListing");
        assert(r@ =~= assembler@ + Self::payload(()));
        r
    }
}

impl DisassemblePayload for ScriptPackagesResponseId {
    open spec fn parsed(s: Seq<PacketValue>) -> (Result<(), DisassembleError>, nat) {
        match take_fixed_utf8(s, "scripts"@) {
            (Err(e), n) => (Err(e), n),
            (Ok(_), _) => match take_fixed_utf8(s.skip(1), "pkgSyncListing"@) {
                (Err(e), n) => (Err(e), 1 + n),
                (Ok(_), _) => (Ok(()), 2),
            },
        }
    }

    fn disassemble_payload(dasm: &mut WitcherPacketDisassembler) -> (r: Result<
        Self,
        DisassembleError,
    >) {
        let ghost before = dasm@;
        let found = dasm.fixed_string_utf8("scripts");
        proof {
            lemma_took_at(old(dasm)@, 0, before, dasm@);
        }
        if let Err(e) = found {
            return Err(e);
        }
        let ghost before = dasm@;
        let found = dasm.fixed_string_utf8("pkgSyncListing");
        proof {
            lemma_took_at(old(dasm)@, 1, before, dasm@);
        }
        if let Err(e) = found {
            return Err(e);
        }
        Ok(Self)
    }
}

impl PayloadRoundTrip for ScriptPackagesResponseId {
    open spec fn legal(v: ()) -> bool {
        true
    }

    proof fn lemma_payload_round_trip(v: (), rest: Seq<PacketValue>) {
        let s = Self::payload(()) + rest;
        assert(s[0] == PacketValue::StringUTF8("scripts"@));
        assert(s[1] == PacketValue::StringUTF8("pkgSyncListing"@));
        assert(s.skip(1)[0] == s[1]);
    }

    proof fn lemma_payload_known(v: ()) {
    }
}

/// The script packages that the game has found.
#[derive(Debug, Clone, PartialEq, Eq, PartialOrd, Ord)]
pub struct ScriptPackagesResult {
    pub packages: Vec<ScriptPackageInfo>,
}

/// One script package.
#[derive(Debug, Clone, PartialEq, Eq, PartialOrd, Ord)]
pub struct ScriptPackageInfo {
    pub package_name: String,
    pub abs_scripts_root_path: String,
}

/// What a script package holds.
pub struct ScriptPackageInfoView {
    pub package_name: Seq<char>,
    pub abs_scripts_root_path: Seq<char>,
}

impl View for ScriptPackageInfo {
    type V = ScriptPackageInfoView;

    open spec fn view(&self) -> ScriptPackageInfoView {
        ScriptPackageInfoView {
            package_name: self.package_name@,
            abs_scripts_root_path: self.abs_scripts_root_path@,
        }
    }
}

/// What a list of script packages holds.
pub open spec fn packages_of(packages: Seq<ScriptPackageInfo>) -> Seq<ScriptPackageInfoView> {
    packages.map_values(|p: ScriptPackageInfo| p@)
}

impl View for ScriptPackagesResult {
    type V = Seq<ScriptPackageInfoView>;

    open spec fn view(&self) -> Seq<ScriptPackageInfoView> {
        packages_of(self.packages@)
    }
}

/// The two values that stand for a script package.
pub open spec fn package_values(p: ScriptPackageInfoView) -> Seq<PacketValue> {
    seq![
        PacketValue::StringUTF16(p.package_name),
        PacketValue::StringUTF16(p.abs_scripts_root_path),
    ]
}

/// `count` script packages read one after the other.
pub open spec fn parsed_packages(s: Seq<PacketValue>, count: nat) -> (
    Result<Seq<ScriptPackageInfoView>, DisassembleError>,
    nat,
)
    decreases count,
{
    if count == 0 {
        (Ok(Seq::empty()), 0)
    } else {
        match in_context(take_utf16(s), "package_name") {
            (Err(e), n) => (Err(e), n),
            (Ok(name), _) => match in_context(take_utf16(s.skip(1)), "abs_package_path") {
                (Err(e), n) => (Err(e), 1 + n),
                (Ok(path), _) => prepend(
                    seq![ScriptPackageInfoView { package_name: name, abs_scripts_root_path: path }],
                    2,
                    parsed_packages(s.skip(2), (count - 1) as nat),
                ),
            },
        }
    }
}

impl AssemblePayload for ScriptPackagesResult {
    open spec fn payload(v: Seq<ScriptPackageInfoView>) -> Seq<PacketValue> {
        seq![PacketValue::Int32(count_prefix(v.len()))] + concat_map(
            v,
            |p: ScriptPackageInfoView| package_values(p),
        )
    }

    fn assemble_payload(self, assembler: WitcherPacketAssembler) -> (r: WitcherPacketAssembler) {
        let ghost values = |p: ScriptPackageInfoView| package_values(p);
        let ghost start = assembler@;
        let packages = self.packages;
        let mut r = assembler.int32(count_of(packages.len()));
        let ghost head = seq![PacketValue::Int32(count_prefix(packages@.len()))];
        let mut i: usize = 0;
        assert(packages_of(packages@).take(0) =~= Seq::<ScriptPackageInfoView>::empty());
        assert(r@ =~= start + head + concat_map(packages_of(packages@).take(0), values));
        while i < packages.len()
            invariant
                i <= packages.len(),
                values == (|p: ScriptPackageInfoView| package_values(p)),
                r@ == start + head + concat_map(packages_of(packages@).take(i as int), values),
            decreases packages.len() - i,
        {
            let ghost done = packages_of(packages@).take(i as int);
            let ghost item = packages@[i as int]@;
            proof {
                lemma_concat_map_push(done, item, values);
                assert(done.push(item) =~= packages_of(packages@).take(i + 1));
            }
            let ghost so_far = r@;
            r = r.string_utf16(packages[i].package_name.as_str()).string_utf16(
                packages[i].abs_scripts_root_path.as_str(),
            );
            assert(r@ =~= so_far + package_values(item));
            assert(r@ =~= start + head + (concat_map(done, values) + values(item)));
            i += 1;
        }
        assert(packages_of(packages@).take(i as int) =~= packages_of(packages@));
        assert(r@ =~= start + (head + concat_map(packages_of(packages@), values)));
        r
    }
}

/// Reads `count` script packages.
fn read_packages(dasm: &mut WitcherPacketDisassembler, count: i32) -> (r: Result<
    Vec<ScriptPackageInfo>,
    DisassembleError,
>)
    ensures
        took(
            parsed_packages(old(dasm)@, announced(count)),
            old(dasm)@,
            final(dasm)@,
            r,
            |x: Vec<ScriptPackageInfo>| packages_of(x@),
        ),
{
    let ghost s = dasm@;
    let mut packages: Vec<ScriptPackageInfo> = Vec::new();
    let mut i: i32 = 0;
    proof {
        assert(packages_of(packages@) =~= Seq::<ScriptPackageInfoView>::empty());
        lemma_prepend_none(parsed_packages(s, announced(count)));
        assert(s.skip(0) =~= s);
    }
    while i < count
        invariant
            0 <= i,
            i <= count || count < 0,
            s == old(dasm)@,
            2 * i <= s.len(),
            dasm@ == s.skip(2 * i),
            packages@.len() == i,
            parsed_packages(s, announced(count)) == prepend(
                packages_of(packages@),
                (2 * i) as nat,
                parsed_packages(dasm@, still_announced(count, i as int)),
            ),
        decreases count - i,
    {
        let ghost done = packages_of(packages@);
        let ghost here = dasm@;
        let ghost used = 2 * i as int;
        let ghost before = dasm@;
        let found = dasm.string_utf16();
        proof {
            lemma_took_at(s, used, before, dasm@);
        }
        let package_name = match found {
            Ok(value) => value.0,
            Err(e) => { return Err(e.at("package_name")); },
        };
        let ghost before = dasm@;
        let found = dasm.string_utf16();
        proof {
            lemma_took_at(s, used + 1, before, dasm@);
            lemma_skip_twice(s, used, 1);
        }
        let abs_package_path = match found {
            Ok(value) => value.0,
            Err(e) => { return Err(e.at("abs_package_path")); },
        };
        let info = ScriptPackageInfo { package_name, abs_scripts_root_path: abs_package_path };
        proof {
            lemma_skip_twice(s, used, 2);
            lemma_prepend_twice(
                done,
                used as nat,
                seq![info@],
                2,
                parsed_packages(here.skip(2), still_announced(count, i + 1)),
            );
        }
        packages.push(info);
        assert(packages_of(packages@) =~= done + seq![info@]);
        i += 1;
    }
    proof {
        assert(packages_of(packages@) + Seq::<ScriptPackageInfoView>::empty() =~= packages_of(
            packages@,
        ));
    }
    Ok(packages)
}

impl DisassemblePayload for ScriptPackagesResult {
    open spec fn parsed(s: Seq<PacketValue>) -> (
        Result<Seq<ScriptPackageInfoView>, DisassembleError>,
        nat,
    ) {
        match in_context(take_int32(s), "package_count") {
            (Err(e), n) => (Err(e), n),
            (Ok(count), _) => prepend(
                Seq::empty(),
                1,
                parsed_packages(s.skip(1), announced(count)),
            ),
        }
    }

    fn disassemble_payload(dasm: &mut WitcherPacketDisassembler) -> (r: Result<
        Self,
        DisassembleError,
    >) {
        let ghost before = dasm@;
        let found = dasm.int32();
        proof {
            lemma_took_at(old(dasm)@, 0, before, dasm@);
        }
        let package_count = match found {
            Ok(value) => value,
            Err(e) => { return Err(e.at("package_count")); },
        };
        let ghost list = dasm@;
        let found = read_packages(dasm, package_count);
        proof {
            let outcome = parsed_packages(list, announced(package_count));
            lemma_skip_twice(old(dasm)@, 1, outcome.1 as int);
            if outcome.0 is Ok {
                assert(Seq::<ScriptPackageInfoView>::empty() + outcome.0->Ok_0 =~= outcome.0->Ok_0);
            }
        }
        match found {
            Ok(packages) => Ok(Self { packages }),
            Err(e) => Err(e),
        }
    }
}

/// Script packages written one after the other read back as they were.
pub proof fn lemma_packages_round_trip(v: Seq<ScriptPackageInfoView>, rest: Seq<PacketValue>)
    ensures
        parsed_packages(
            concat_map(v, |p: ScriptPackageInfoView| package_values(p)) + rest,
            v.len(),
        ) == (Ok::<Seq<ScriptPackageInfoView>, DisassembleError>(v), 2 * v.len()),
        concat_map(v, |p: ScriptPackageInfoView| package_values(p)).len() == 2 * v.len(),
    decreases v.len(),
{
    let values = |p: ScriptPackageInfoView| package_values(p);
    let s = concat_map(v, values) + rest;
    if v.len() > 0 {
        let tail = concat_map(v.skip(1), values) + rest;
        assert(s =~= package_values(v[0]) + tail);
        assert(s[0] == PacketValue::StringUTF16(v[0].package_name));
        assert(s.skip(1)[0] == PacketValue::StringUTF16(v[0].abs_scripts_root_path));
        assert(s.skip(2) =~= tail);
        lemma_packages_round_trip(v.skip(1), rest);
        assert(seq![v[0]] + v.skip(1) =~= v);
    } else {
        assert(v =~= Seq::<ScriptPackageInfoView>::empty());
    }
}

impl PayloadRoundTrip for ScriptPackagesResult {
    /// A list whose length a signed 32-bit number can announce.
    open spec fn legal(v: Seq<ScriptPackageInfoView>) -> bool {
        v.len() <= i32::MAX
    }

    proof fn lemma_payload_round_trip(v: Seq<ScriptPackageInfoView>, rest: Seq<PacketValue>) {
        let values = |p: ScriptPackageInfoView| package_values(p);
        let s = Self::payload(v) + rest;
        assert(s[0] == PacketValue::Int32(count_prefix(v.len())));
        assert(s.skip(1) =~= concat_map(v, values) + rest);
        lemma_packages_round_trip(v, rest);
        assert(announced(count_prefix(v.len())) == v.len());
        assert(Seq::<ScriptPackageInfoView>::empty() + v =~= v);
    }

    proof fn lemma_payload_known(v: Seq<ScriptPackageInfoView>) {
        let values = |p: ScriptPackageInfoView| package_values(p);
        lemma_concat_map_known(v, values);
        lemma_known_append(seq![PacketValue::Int32(count_prefix(v.len()))], concat_map(v, values));
    }
}

/// Asks for the opcodes of a script function.
#[derive(Debug)]
pub struct Opcodes;

impl Message for Opcodes {
    type Id = OpcodesId;

    type Body = OpcodesParams;
}

impl Request for Opcodes {
    type Response = OpcodesResponse;
}

/// The identifier of [`Opcodes`].
#[derive(Debug, Default)]
pub struct OpcodesId;

impl View for OpcodesId {
    type V = ();

    open spec fn view(&self) -> () {
        ()
    }
}

impl AssemblePayload for OpcodesId {
    open spec fn payload(v: ()) -> Seq<PacketValue> {
        seq![PacketValue::StringUTF8("ScriptDebugger"@), PacketValue::StringUTF8("OpcodeBreakdownRequest"@)]
    }

    fn assemble_payload(self, assembler: WitcherPacketAssembler) -> (r: WitcherPacketAssembler) {
        let r = assembler.string_utf8("ScriptDebugger").string_utf8("OpcodeBreakdownRequest");
        assert(r@ =~= assembler@ + Self::payload(()));
        r
    }
}

impl DisassemblePayload for OpcodesId {
    open spec fn parsed(s: Seq<PacketValue>) -> (Result<(), DisassembleError>, nat) {
        match take_fixed_utf8(s, "ScriptDebugger"@) {
            (Err(e), n) => (Err(e), n),
            (Ok(_), _) => match take_fixed_utf8(s.skip(1), "OpcodeBreakdownRequest"@) {
                (Err(e), n) => (Err(e), 1 + n),
                (Ok(_), _) => (Ok(()), 2),
            },
        }
    }

    fn disassemble_payload(dasm: &mut WitcherPacketDisassembler) -> (r: Result<
        Self,
        DisassembleError,
    >) {
        let ghost before = dasm@;
        let found = dasm.fixed_string_utf8("ScriptDebugger");
        proof {
            lemma_took_at(old(dasm)@, 0, before, dasm@);
        }
        if let Err(e) = found {
            return Err(e);
        }
        let ghost before = dasm@;
        let found = dasm.fixed_string_utf8("OpcodeBreakdownRequest");
        proof {
            lemma_took_at(old(dasm)@, 1, before, dasm@);
        }
        if let Err(e) = found {
            return Err(e);
        }
        Ok(Self)
    }
}

impl PayloadRoundTrip for OpcodesId {
    open spec fn legal(v: ()) -> bool {
        true
    }

    proof fn lemma_payload_round_trip(v: (), rest: Seq<PacketValue>) {
        let s = Self::payload(()) + rest;
        assert(s[0] == PacketValue::StringUTF8("ScriptDebugger"@));
        assert(s[1] == PacketValue::StringUTF8("OpcodeBreakdownRequest"@));
        assert(s.skip(1)[0] == s[1]);
    }

    proof fn lemma_payload_known(v: ()) {
    }
}

/// The function whose opcodes are asked for.
#[derive(Debug, Clone, PartialEq, Eq, PartialOrd, Ord)]
pub struct OpcodesParams {
    pub func_name: String,
    pub class_name: Option<String>,
}

/// What the parameters of an opcodes request hold.
pub struct OpcodesParamsView {
    pub func_name: Seq<char>,
    pub class_name: Option<Seq<char>>,
}

/// The text that an optional string holds.
pub open spec fn text_of(text: Option<String>) -> Option<Seq<char>> {
    match text {
        Some(text) => Some(text@),
        None => None,
    }
}

impl View for OpcodesParams {
    type V = OpcodesParamsView;

    open spec fn view(&self) -> OpcodesParamsView {
        OpcodesParamsView { func_name: self.func_name@, class_name: text_of(self.class_name) }
    }
}

impl AssemblePayload for OpcodesParams {
    open spec fn payload(v: OpcodesParamsView) -> Seq<PacketValue> {
        match v.class_name {
            Some(class_name) => seq![
                PacketValue::StringUTF16(v.func_name),
                PacketValue::Int8(1),
                PacketValue::StringUTF16(class_name),
            ],
            None => seq![PacketValue::StringUTF16(v.func_name), PacketValue::Int8(0)],
        }
    }

    fn assemble_payload(self, assembler: WitcherPacketAssembler) -> (r: WitcherPacketAssembler) {
        let with_name = assembler.string_utf16(self.func_name.as_str());
        let r = if let Some(class_name) = self.class_name {
            with_name.int8(1).string_utf16(class_name.as_str())
        } else {
            with_name.int8(0)
        };
        assert(r@ =~= assembler@ + Self::payload(self@));
        r
    }
}

impl DisassemblePayload for OpcodesParams {
    open spec fn parsed(s: Seq<PacketValue>) -> (Result<OpcodesParamsView, DisassembleError>, nat) {
        match in_context(take_utf16(s), "func_name") {
            (Err(e), n) => (Err(e), n),
            (Ok(func_name), _) => match in_context(take_int8(s.skip(1)), "has_class_name") {
                (Err(e), n) => (Err(e), 1 + n),
                (Ok(flag), _) => if flag == 1 {
                    match in_context(take_utf16(s.skip(2)), "class_name") {
                        (Err(e), n) => (Err(e), 2 + n),
                        (Ok(class_name), _) => (
                            Ok(OpcodesParamsView { func_name, class_name: Some(class_name) }),
                            3,
                        ),
                    }
                } else {
                    (Ok(OpcodesParamsView { func_name, class_name: None }), 2)
                },
            },
        }
    }

    fn disassemble_payload(dasm: &mut WitcherPacketDisassembler) -> (r: Result<
        Self,
        DisassembleError,
    >) {
        let ghost before = dasm@;
        let found = dasm.string_utf16();
        proof {
            lemma_took_at(old(dasm)@, 0, before, dasm@);
        }
        let func_name = match found {
            Ok(value) => value.0,
            Err(e) => { return Err(e.at("func_name")); },
        };
        let ghost before = dasm@;
        let found = dasm.int8();
        proof {
            lemma_took_at(old(dasm)@, 1, before, dasm@);
        }
        let has_class_name = match found {
            Ok(value) => value,
            Err(e) => { return Err(e.at("has_class_name")); },
        };
        if has_class_name == 1 {
            let ghost before = dasm@;
            let found = dasm.string_utf16();
            proof {
                lemma_took_at(old(dasm)@, 2, before, dasm@);
            }
            let class_name = match found {
                Ok(value) => value.0,
                Err(e) => { return Err(e.at("class_name")); },
            };
            Ok(Self { func_name, class_name: Some(class_name) })
        } else {
            Ok(Self { func_name, class_name: None })
        }
    }
}

impl PayloadRoundTrip for OpcodesParams {
    open spec fn legal(v: OpcodesParamsView) -> bool {
        true
    }

    proof fn lemma_payload_round_trip(v: OpcodesParamsView, rest: Seq<PacketValue>) {
        let s = Self::payload(v) + rest;
        assert(s[0] == PacketValue::StringUTF16(v.func_name));
        match v.class_name {
            Some(class_name) => {
                assert(s.skip(1)[0] == PacketValue::Int8(1));
                assert(s.skip(2)[0] == PacketValue::StringUTF16(class_name));
            },
            None => {
                assert(s.skip(1)[0] == PacketValue::Int8(0));
            },
        }
    }

    proof fn lemma_payload_known(v: OpcodesParamsView) {
    }
}

/// The reply to [`Opcodes`].
#[derive(Debug)]
pub struct OpcodesResponse;

impl Message for OpcodesResponse {
    type Id = OpcodesResponseId;

    type Body = OpcodesResult;
}

impl Response for OpcodesResponse {
}

/// The identifier of [`OpcodesResponse`].
#[derive(Debug, Default)]
pub struct OpcodesResponseId;

impl View for OpcodesResponseId {
    type V = ();

    open spec fn view(&self) -> () {
        ()
    }
}

impl AssemblePayload for OpcodesResponseId {
    open spec fn payload(v: ()) -> Seq<PacketValue> {
        seq![PacketValue::StringUTF8("ScriptDebugger"@), PacketValue::StringUTF8("OpcodeBreakdownResponse"@)]
    }

    fn assemble_payload(self, assembler: WitcherPacketAssembler) -> (r: WitcherPacketAssembler) {
        let r = assembler.string_utf8("ScriptDebugger").string_utf8("OpcodeBreakdownResponse");
        assert(r@ =~= assembler@ + Self::payload(()));
        r
    }
}

impl DisassemblePayload for OpcodesResponseId {
    open spec fn parsed(s: Seq<PacketValue>) -> (Result<(), DisassembleError>, nat) {
        match take_fixed_utf8(s, "ScriptDebugger"@) {
            (Err(e), n) => (Err(e), n),
            (Ok(_), _) => match take_fixed_utf8(s.skip(1), "OpcodeBreakdownResponse"@) {
                (Err(e), n) => (Err(e), 1 + n),
                (Ok(_), _) => (Ok(()), 2),
            },
        }
    }

    fn disassemble_payload(dasm: &mut WitcherPacketDisassembler) -> (r: Result<
        Self,
        DisassembleError,
    >) {
        let ghost before = dasm@;
        let found = dasm.fixed_string_utf8("ScriptDebugger");
        proof {
            lemma_took_at(old(dasm)@, 0, before, dasm@);
        }
        if let Err(e) = found {
            return Err(e);
        }
        let ghost before = dasm@;
        let found = dasm.fixed_string_utf8("OpcodeBreakdownResponse");
        proof {
            lemma_took_at(old(dasm)@, 1, before, dasm@);
        }
        if let Err(e) = found {
            return Err(e);
        }
        Ok(Self)
    }
}

impl PayloadRoundTrip for OpcodesResponseId {
    open spec fn legal(v: ()) -> bool {
        true
    }

    proof fn lemma_payload_round_trip(v: (), rest: Seq<PacketValue>) {
        let s = Self::payload(()) + rest;
        assert(s[0] == PacketValue::StringUTF8("ScriptDebugger"@));
        assert(s[1] == PacketValue::StringUTF8("OpcodeBreakdownResponse"@));
        assert(s.skip(1)[0] == s[1]);
    }

    proof fn lemma_payload_known(v: ()) {
    }
}

/// The opcodes of a function, line by line.
#[derive(Debug, Clone, PartialEq, Eq, PartialOrd, Ord)]
pub struct OpcodesResult {
    pub breakdowns: Vec<OpcodeBreakdown>,
}

/// The opcodes of one line.
#[derive(Debug, Clone, PartialEq, Eq, PartialOrd, Ord)]
pub struct OpcodeBreakdown {
    pub line: i32,
    pub opcodes: Vec<String>,
}

/// What the opcodes of one line hold.
pub struct OpcodeBreakdownView {
    pub line: i32,
    pub opcodes: Seq<Seq<char>>,
}

impl View for OpcodeBreakdown {
    type V = OpcodeBreakdownView;

    open spec fn view(&self) -> OpcodeBreakdownView {
        OpcodeBreakdownView { line: self.line, opcodes: texts_of(self.opcodes@) }
    }
}

/// What a list of breakdowns holds.
pub open spec fn breakdowns_of(breakdowns: Seq<OpcodeBreakdown>) -> Seq<OpcodeBreakdownView> {
    breakdowns.map_values(|b: OpcodeBreakdown| b@)
}

impl View for OpcodesResult {
    type V = Seq<OpcodeBreakdownView>;

    open spec fn view(&self) -> Seq<OpcodeBreakdownView> {
        breakdowns_of(self.breakdowns@)
    }
}

/// The two values that stand for the opcodes of one line.
pub open spec fn breakdown_values(b: OpcodeBreakdownView) -> Seq<PacketValue> {
    seq![PacketValue::Int32(b.line), PacketValue::StringUTF16(join_with(b.opcodes, line_feed()))]
}

/// `count` breakdowns read one after the other.
pub open spec fn parsed_breakdowns(s: Seq<PacketValue>, count: nat) -> (
    Result<Seq<OpcodeBreakdownView>, DisassembleError>,
    nat,
)
    decreases count,
{
    if count == 0 {
        (Ok(Seq::empty()), 0)
    } else {
        match in_context(take_int32(s), "line") {
            (Err(e), n) => (Err(e), n),
            (Ok(line), _) => match in_context(take_utf16(s.skip(1)), "opcodes") {
                (Err(e), n) => (Err(e), 1 + n),
                (Ok(opcodes), _) => prepend(
                    seq![OpcodeBreakdownView { line, opcodes: split_on(opcodes, line_feed()) }],
                    2,
                    parsed_breakdowns(s.skip(2), (count - 1) as nat),
                ),
            },
        }
    }
}

impl AssemblePayload for OpcodesResult {
    open spec fn payload(v: Seq<OpcodeBreakdownView>) -> Seq<PacketValue> {
        seq![
            PacketValue::Int32(1),
            PacketValue::StringUTF16(Seq::empty()),
            PacketValue::Int32(count_prefix(v.len())),
        ] + concat_map(v, |b: OpcodeBreakdownView| breakdown_values(b))
    }

    fn assemble_payload(self, assembler: WitcherPacketAssembler) -> (r: WitcherPacketAssembler) {
        let ghost values = |b: OpcodeBreakdownView| breakdown_values(b);
        let ghost start = assembler@;
        let breakdowns = self.breakdowns;
        proof {
            reveal_strlit("");
            assert(""@ =~= Seq::<char>::empty());
        }
        let mut r = assembler.int32(1).string_utf16("").int32(count_of(breakdowns.len()));
        let ghost head = seq![
            PacketValue::Int32(1),
            PacketValue::StringUTF16(Seq::empty()),
            PacketValue::Int32(count_prefix(breakdowns@.len())),
        ];
        let mut i: usize = 0;
        assert(breakdowns_of(breakdowns@).take(0) =~= Seq::<OpcodeBreakdownView>::empty());
        assert(r@ =~= start + head + concat_map(breakdowns_of(breakdowns@).take(0), values));
        while i < breakdowns.len()
            invariant
                i <= breakdowns.len(),
                values == (|b: OpcodeBreakdownView| breakdown_values(b)),
                r@ == start + head + concat_map(breakdowns_of(breakdowns@).take(i as int), values),
            decreases breakdowns.len() - i,
        {
            let ghost done = breakdowns_of(breakdowns@).take(i as int);
            let ghost item = breakdowns@[i as int]@;
            proof {
                lemma_concat_map_push(done, item, values);
                assert(done.push(item) =~= breakdowns_of(breakdowns@).take(i + 1));
            }
            let ghost so_far = r@;
            let text = join_lines(&breakdowns[i].opcodes);
            r = r.int32(breakdowns[i].line).string_utf16(text.as_str());
            assert(r@ =~= so_far + breakdown_values(item));
            assert(r@ =~= start + head + (concat_map(done, values) + values(item)));
            i += 1;
        }
        assert(breakdowns_of(breakdowns@).take(i as int) =~= breakdowns_of(breakdowns@));
        assert(r@ =~= start + (head + concat_map(breakdowns_of(breakdowns@), values)));
        r
    }
}

/// Reads `count` breakdowns.
fn read_breakdowns(dasm: &mut WitcherPacketDisassembler, count: i32) -> (r: Result<
    Vec<OpcodeBreakdown>,
    DisassembleError,
>)
    ensures
        took(
            parsed_breakdowns(old(dasm)@, announced(count)),
            old(dasm)@,
            final(dasm)@,
            r,
            |x: Vec<OpcodeBreakdown>| breakdowns_of(x@),
        ),
{
    let ghost s = dasm@;
    let mut breakdowns: Vec<OpcodeBreakdown> = Vec::new();
    let mut i: i32 = 0;
    proof {
        assert(breakdowns_of(breakdowns@) =~= Seq::<OpcodeBreakdownView>::empty());
        lemma_prepend_none(parsed_breakdowns(s, announced(count)));
        assert(s.skip(0) =~= s);
    }
    while i < count
        invariant
            0 <= i,
            i <= count || count < 0,
            s == old(dasm)@,
            2 * i <= s.len(),
            dasm@ == s.skip(2 * i),
            breakdowns@.len() == i,
            parsed_breakdowns(s, announced(count)) == prepend(
                breakdowns_of(breakdowns@),
                (2 * i) as nat,
                parsed_breakdowns(dasm@, still_announced(count, i as int)),
            ),
        decreases count - i,
    {
        let ghost done = breakdowns_of(breakdowns@);
        let ghost here = dasm@;
        let ghost used = 2 * i as int;
        let ghost before = dasm@;
        let found = dasm.int32();
        proof {
            lemma_took_at(s, used, before, dasm@);
        }
        let line = match found {
            Ok(value) => value,
            Err(e) => { return Err(e.at("line")); },
        };
        let ghost before = dasm@;
        let found = dasm.string_utf16();
        proof {
            lemma_took_at(s, used + 1, before, dasm@);
            lemma_skip_twice(s, used, 1);
        }
        let opcodes = match found {
            Ok(value) => value,
            Err(e) => { return Err(e.at("opcodes")); },
        };
        let breakdown = OpcodeBreakdown { line, opcodes: split_lines(opcodes.as_str()) };
        proof {
            lemma_skip_twice(s, used, 2);
            lemma_prepend_twice(
                done,
                used as nat,
                seq![breakdown@],
                2,
                parsed_breakdowns(here.skip(2), still_announced(count, i + 1)),
            );
        }
        breakdowns.push(breakdown);
        assert(breakdowns_of(breakdowns@) =~= done + seq![breakdown@]);
        i += 1;
    }
    proof {
        assert(breakdowns_of(breakdowns@) + Seq::<OpcodeBreakdownView>::empty()
            =~= breakdowns_of(breakdowns@));
    }
    Ok(breakdowns)
}

impl DisassemblePayload for OpcodesResult {
    open spec fn parsed(s: Seq<PacketValue>) -> (
        Result<Seq<OpcodeBreakdownView>, DisassembleError>,
        nat,
    ) {
        match in_context(take_int32(s), "unknown0") {
            (Err(e), n) => (Err(e), n),
            (Ok(_), _) => match in_context(take_utf16(s.skip(1)), "unknown1") {
                (Err(e), n) => (Err(e), 1 + n),
                (Ok(_), _) => match in_context(take_int32(s.skip(2)), "breakdowns_count") {
                    (Err(e), n) => (Err(e), 2 + n),
                    (Ok(count), _) => prepend(
                        Seq::empty(),
                        3,
                        parsed_breakdowns(s.skip(3), announced(count)),
                    ),
                },
            },
        }
    }

    fn disassemble_payload(dasm: &mut WitcherPacketDisassembler) -> (r: Result<
        Self,
        DisassembleError,
    >) {
        let ghost before = dasm@;
        let found = dasm.int32();
        proof {
            lemma_took_at(old(dasm)@, 0, before, dasm@);
        }
        let _unknown0 = match found {
            Ok(value) => value,
            Err(e) => { return Err(e.at("unknown0")); },
        };
        let ghost before = dasm@;
        let found = dasm.string_utf16();
        proof {
            lemma_took_at(old(dasm)@, 1, before, dasm@);
        }
        let _unknown1 = match found {
            Ok(value) => value,
            Err(e) => { return Err(e.at("unknown1")); },
        };
        let ghost before = dasm@;
        let found = dasm.int32();
        proof {
            lemma_took_at(old(dasm)@, 2, before, dasm@);
        }
        let breakdowns_count = match found {
            Ok(value) => value,
            Err(e) => { return Err(e.at("breakdowns_count")); },
        };
        let ghost list = dasm@;
        let found = read_breakdowns(dasm, breakdowns_count);
        proof {
            let outcome = parsed_breakdowns(list, announced(breakdowns_count));
            lemma_skip_twice(old(dasm)@, 3, outcome.1 as int);
            if outcome.0 is Ok {
                assert(Seq::<OpcodeBreakdownView>::empty() + outcome.0->Ok_0 =~= outcome.0->Ok_0);
            }
        }
        match found {
            Ok(breakdowns) => Ok(Self { breakdowns }),
            Err(e) => Err(e),
        }
    }
}

/// Whether the opcodes of every line survive the wire: at least one opcode on each
/// line and no line feed inside an opcode.
pub open spec fn all_splittable(v: Seq<OpcodeBreakdownView>) -> bool {
    forall|i: int| 0 <= i < v.len() ==> splittable((#[trigger] v[i]).opcodes, line_feed())
}

/// Breakdowns written one after the other read back as they were.
pub proof fn lemma_breakdowns_round_trip(v: Seq<OpcodeBreakdownView>, rest: Seq<PacketValue>)
    requires
        all_splittable(v),
    ensures
        parsed_breakdowns(
            concat_map(v, |b: OpcodeBreakdownView| breakdown_values(b)) + rest,
            v.len(),
        ) == (Ok::<Seq<OpcodeBreakdownView>, DisassembleError>(v), 2 * v.len()),
        concat_map(v, |b: OpcodeBreakdownView| breakdown_values(b)).len() == 2 * v.len(),
    decreases v.len(),
{
    let values = |b: OpcodeBreakdownView| breakdown_values(b);
    let s = concat_map(v, values) + rest;
    if v.len() > 0 {
        let tail = concat_map(v.skip(1), values) + rest;
        assert(s =~= breakdown_values(v[0]) + tail);
        assert(s[0] == PacketValue::Int32(v[0].line));
        assert(s.skip(1)[0] == PacketValue::StringUTF16(join_with(v[0].opcodes, line_feed())));
        assert(s.skip(2) =~= tail);
        assert(all_splittable(v.skip(1))) by {
            assert forall|i: int| 0 <= i < v.skip(1).len() implies splittable(
                (#[trigger] v.skip(1)[i]).opcodes,
                line_feed(),
            ) by {
                assert(v.skip(1)[i] == v[i + 1]);
            }
        }
        lemma_split_join(v[0].opcodes, line_feed());
        lemma_breakdowns_round_trip(v.skip(1), rest);
        assert(seq![v[0]] + v.skip(1) =~= v);
    } else {
        assert(v =~= Seq::<OpcodeBreakdownView>::empty());
    }
}

impl PayloadRoundTrip for OpcodesResult {
    /// A list whose length a signed 32-bit number can announce, of opcodes that
    /// survive the wire.
    open spec fn legal(v: Seq<OpcodeBreakdownView>) -> bool {
        v.len() <= i32::MAX && all_splittable(v)
    }

    proof fn lemma_payload_round_trip(v: Seq<OpcodeBreakdownView>, rest: Seq<PacketValue>) {
        let values = |b: OpcodeBreakdownView| breakdown_values(b);
        let s = Self::payload(v) + rest;
        assert(s[0] == PacketValue::Int32(1));
        assert(s.skip(1)[0] == PacketValue::StringUTF16(Seq::empty()));
        assert(s.skip(2)[0] == PacketValue::Int32(count_prefix(v.len())));
        assert(s.skip(3) =~= concat_map(v, values) + rest);
        lemma_breakdowns_round_trip(v, rest);
        assert(announced(count_prefix(v.len())) == v.len());
        assert(Seq::<OpcodeBreakdownView>::empty() + v =~= v);
    }

    proof fn lemma_payload_known(v: Seq<OpcodeBreakdownView>) {
        let values = |b: OpcodeBreakdownView| breakdown_values(b);
        lemma_concat_map_known(v, values);
        lemma_known_append(
            seq![
                PacketValue::Int32(1),
                PacketValue::StringUTF16(Seq::empty()),
                PacketValue::Int32(count_prefix(v.len())),
            ],
            concat_map(v, values),
        );
    }
}

/// Asks for the configuration variables of the game.
#[derive(Debug)]
pub struct ConfigVars;

impl Message for ConfigVars {
    type Id = ConfigVarsId;

    type Body = ConfigVarsParams;
}

impl Request for ConfigVars {
    type Response = ConfigVarsResponse;
}

/// The identifier of [`ConfigVars`].
#[derive(Debug, Default)]
pub struct ConfigVarsId;

impl View for ConfigVarsId {
    type V = ();

    open spec fn view(&self) -> () {
        ()
    }
}

impl AssemblePayload for ConfigVarsId {
    open spec fn payload(v: ()) -> Seq<PacketValue> {
        seq![PacketValue::StringUTF8("Config"@), PacketValue::Int32(CONFIG_VAR), PacketValue::StringUTF8("list"@)]
    }

    fn assemble_payload(self, assembler: WitcherPacketAssembler) -> (r: WitcherPacketAssembler) {
        let r = assembler.string_utf8("Config").int32(CONFIG_VAR).string_utf8("list");
        assert(r@ =~= assembler@ + Self::payload(()));
        r
    }
}

impl DisassemblePayload for ConfigVarsId {
    open spec fn parsed(s: Seq<PacketValue>) -> (Result<(), DisassembleError>, nat) {
        match take_fixed_utf8(s, "Config"@) {
            (Err(e), n) => (Err(e), n),
            (Ok(_), _) => match take_fixed_int32(s.skip(1), CONFIG_VAR) {
                (Err(e), n) => (Err(e), 1 + n),
                (Ok(_), _) => match take_fixed_utf8(s.skip(2), "list"@) {
                    (Err(e), n) => (Err(e), 2 + n),
                    (Ok(_), _) => (Ok(()), 3),
                },
            },
        }
    }

    fn disassemble_payload(dasm: &mut WitcherPacketDisassembler) -> (r: Result<
        Self,
        DisassembleError,
    >) {
        let ghost before = dasm@;
        let found = dasm.fixed_string_utf8("Config");
        proof {
            lemma_took_at(old(dasm)@, 0, before, dasm@);
        }
        if let Err(e) = found {
            return Err(e);
        }
        let ghost before = dasm@;
        let found = dasm.fixed_int32(CONFIG_VAR);
        proof {
            lemma_took_at(old(dasm)@, 1, before, dasm@);
        }
        if let Err(e) = found {
            return Err(e);
        }
        let ghost before = dasm@;
        let found = dasm.fixed_string_utf8("list");
        proof {
            lemma_took_at(old(dasm)@, 2, before, dasm@);
        }
        if let Err(e) = found {
            return Err(e);
        }
        Ok(Self)
    }
}

impl PayloadRoundTrip for ConfigVarsId {
    open spec fn legal(v: ()) -> bool {
        true
    }

    proof fn lemma_payload_round_trip(v: (), rest: Seq<PacketValue>) {
        let s = Self::payload(()) + rest;
        assert(s[0] == PacketValue::StringUTF8("Config"@));
        assert(s[1] == PacketValue::Int32(CONFIG_VAR));
        assert(s.skip(1)[0] == s[1]);
        assert(s[2] == PacketValue::StringUTF8("list"@));
        assert(s.skip(2)[0] == s[2]);
    }

    proof fn lemma_payload_known(v: ()) {
    }
}

/// Which configuration variables are asked for: those of one section, those whose name
/// holds a text, both or all.
#[derive(Debug, Clone, PartialEq, Eq, PartialOrd, Ord)]
pub struct ConfigVarsParams {
    pub section_filter: Option<String>,
    pub name_filter: Option<String>,
}

/// What the parameters of a request for configuration variables hold.
pub struct ConfigVarsParamsView {
    pub section_filter: Option<Seq<char>>,
    pub name_filter: Option<Seq<char>>,
}

impl View for ConfigVarsParams {
    type V = ConfigVarsParamsView;

    open spec fn view(&self) -> ConfigVarsParamsView {
        ConfigVarsParamsView {
            section_filter: text_of(self.section_filter),
            name_filter: text_of(self.name_filter),
        }
    }
}

/// The text of a filter on the wire: empty where there is no filter.
pub open spec fn filter_text(filter: Option<Seq<char>>) -> Seq<char> {
    match filter {
        Some(text) => text,
        None => Seq::empty(),
    }
}

/// The filter that a text on the wire stands for: none where the text is empty.
pub open spec fn filter_of(text: Seq<char>) -> Option<Seq<char>> {
    if text.len() == 0 {
        None
    } else {
        Some(text)
    }
}

fn filter_or_empty(filter: Option<String>) -> (text: String)
    ensures
        text@ == filter_text(text_of(filter)),
{
    match filter {
        Some(text) => text,
        None => String::new(),
    }
}

fn filter_from(text: String) -> (filter: Option<String>)
    ensures
        text_of(filter) == filter_of(text@),
{
    if text.as_str().is_empty() {
        None
    } else {
        Some(text)
    }
}

impl AssemblePayload for ConfigVarsParams {
    open spec fn payload(v: ConfigVarsParamsView) -> Seq<PacketValue> {
        seq![
            PacketValue::StringUTF8(filter_text(v.section_filter)),
            PacketValue::StringUTF8(filter_text(v.name_filter)),
        ]
    }

    fn assemble_payload(self, assembler: WitcherPacketAssembler) -> (r: WitcherPacketAssembler) {
        let section = filter_or_empty(self.section_filter);
        let name = filter_or_empty(self.name_filter);
        let r = assembler.string_utf8(section.as_str()).string_utf8(name.as_str());
        assert(r@ =~= assembler@ + Self::payload(self@));
        r
    }
}

impl DisassemblePayload for ConfigVarsParams {
    open spec fn parsed(s: Seq<PacketValue>) -> (
        Result<ConfigVarsParamsView, DisassembleError>,
        nat,
    ) {
        match in_context(take_utf8(s), "section_filter") {
            (Err(e), n) => (Err(e), n),
            (Ok(section), _) => match in_context(take_utf8(s.skip(1)), "name_filter") {
                (Err(e), n) => (Err(e), 1 + n),
                (Ok(name), _) => (
                    Ok(
                        ConfigVarsParamsView {
                            section_filter: filter_of(section),
                            name_filter: filter_of(name),
                        },
                    ),
                    2,
                ),
            },
        }
    }

    fn disassemble_payload(dasm: &mut WitcherPacketDisassembler) -> (r: Result<
        Self,
        DisassembleError,
    >) {
        let ghost before = dasm@;
        let found = dasm.string_utf8();
        proof {
            lemma_took_at(old(dasm)@, 0, before, dasm@);
        }
        let section_filter = match found {
            Ok(value) => value.0,
            Err(e) => { return Err(e.at("section_filter")); },
        };
        let ghost before = dasm@;
        let found = dasm.string_utf8();
        proof {
            lemma_took_at(old(dasm)@, 1, before, dasm@);
        }
        let name_filter = match found {
            Ok(value) => value.0,
            Err(e) => { return Err(e.at("name_filter")); },
        };
        Ok(
            Self {
                section_filter: filter_from(section_filter),
                name_filter: filter_from(name_filter),
            },
        )
    }
}

impl PayloadRoundTrip for ConfigVarsParams {
    /// Filters that survive the wire: a filter that is there is not empty.
    open spec fn legal(v: ConfigVarsParamsView) -> bool {
        &&& v.section_filter matches Some(text) ==> text.len() > 0
        &&& v.name_filter matches Some(text) ==> text.len() > 0
    }

    proof fn lemma_payload_round_trip(v: ConfigVarsParamsView, rest: Seq<PacketValue>) {
        let s = Self::payload(v) + rest;
        assert(s[0] == PacketValue::StringUTF8(filter_text(v.section_filter)));
        assert(s.skip(1)[0] == PacketValue::StringUTF8(filter_text(v.name_filter)));
    }

    proof fn lemma_payload_known(v: ConfigVarsParamsView) {
    }
}

/// The reply to [`ConfigVars`].
#[derive(Debug)]
pub struct ConfigVarsResponse;

impl Message for ConfigVarsResponse {
    type Id = ConfigVarsResponseId;

    type Body = ConfigVarsResult;
}

impl Response for ConfigVarsResponse {
}

/// The identifier of [`ConfigVarsResponse`].
#[derive(Debug, Default)]
pub struct ConfigVarsResponseId;

impl View for ConfigVarsResponseId {
    type V = ();

    open spec fn view(&self) -> () {
        ()
    }
}

impl AssemblePayload for ConfigVarsResponseId {
    open spec fn payload(v: ()) -> Seq<PacketValue> {
        seq![PacketValue::Int32(CONFIG_VAR), PacketValue::StringUTF8("vars"@)]
    }

    fn assemble_payload(self, assembler: WitcherPacketAssembler) -> (r: WitcherPacketAssembler) {
        let r = assembler.int32(CONFIG_VAR).string_utf8("vars");
        assert(r@ =~= assembler@ + Self::payload(()));
        r
    }
}

impl DisassemblePayload for ConfigVarsResponseId {
    open spec fn parsed(s: Seq<PacketValue>) -> (Result<(), DisassembleError>, nat) {
        match take_fixed_int32(s, CONFIG_VAR) {
            (Err(e), n) => (Err(e), n),
            (Ok(_), _) => match take_fixed_utf8(s.skip(1), "vars"@) {
                (Err(e), n) => (Err(e), 1 + n),
                (Ok(_), _) => (Ok(()), 2),
            },
        }
    }

    fn disassemble_payload(dasm: &mut WitcherPacketDisassembler) -> (r: Result<
        Self,
        DisassembleError,
    >) {
        let ghost before = dasm@;
        let found = dasm.fixed_int32(CONFIG_VAR);
        proof {
            lemma_took_at(old(dasm)@, 0, before, dasm@);
        }
        if let Err(e) = found {
            return Err(e);
        }
        let ghost before = dasm@;
        let found = dasm.fixed_string_utf8("vars");
        proof {
            lemma_took_at(old(dasm)@, 1, before, dasm@);
        }
        if let Err(e) = found {
            return Err(e);
        }
        Ok(Self)
    }
}

impl PayloadRoundTrip for ConfigVarsResponseId {
    open spec fn legal(v: ()) -> bool {
        true
    }

    proof fn lemma_payload_round_trip(v: (), rest: Seq<PacketValue>) {
        let s = Self::payload(()) + rest;
        assert(s[0] == PacketValue::Int32(CONFIG_VAR));
        assert(s[1] == PacketValue::StringUTF8("vars"@));
        assert(s.skip(1)[0] == s[1]);
    }

    proof fn lemma_payload_known(v: ()) {
    }
}

/// The configuration variables that were asked for.
#[derive(Debug, Clone, PartialEq, Eq, PartialOrd, Ord)]
pub struct ConfigVarsResult {
    pub vars: Vec<ConfigVarInfo>,
}

/// One configuration variable.
#[derive(Debug, Clone, PartialEq, Eq, PartialOrd, Ord)]
pub struct ConfigVarInfo {
    pub section: String,
    pub name: String,
    pub value: String,
    /// 1 - bool, 2 - int, 3 - float, 4 - string, 0 - used as EOF
    pub data_type: i8,
    pub _unknown0: i8,
}

/// What a configuration variable holds.
pub struct ConfigVarInfoView {
    pub section: Seq<char>,
    pub name: Seq<char>,
    pub value: Seq<char>,
    pub data_type: i8,
    pub _unknown0: i8,
}

impl View for ConfigVarInfo {
    type V = ConfigVarInfoView;

    open spec fn view(&self) -> ConfigVarInfoView {
        ConfigVarInfoView {
            section: self.section@,
            name: self.name@,
            value: self.value@,
            data_type: self.data_type,
            _unknown0: self._unknown0,
        }
    }
}

/// What a list of configuration variables holds.
pub open spec fn vars_of(vars: Seq<ConfigVarInfo>) -> Seq<ConfigVarInfoView> {
    vars.map_values(|v: ConfigVarInfo| v@)
}

impl View for ConfigVarsResult {
    type V = Seq<ConfigVarInfoView>;

    open spec fn view(&self) -> Seq<ConfigVarInfoView> {
        vars_of(self.vars@)
    }
}

/// The five values that stand for a configuration variable: type, an unknown number,
/// name, section and value, in this order.
pub open spec fn var_values(v: ConfigVarInfoView) -> Seq<PacketValue> {
    seq![
        PacketValue::Int8(v.data_type),
        PacketValue::Int8(v._unknown0),
        PacketValue::StringUTF8(v.name),
        PacketValue::StringUTF8(v.section),
        PacketValue::StringUTF8(v.value),
    ]
}

/// The four values behind the type of a configuration variable.
pub open spec fn parsed_var(s: Seq<PacketValue>, data_type: i8) -> (
    Result<ConfigVarInfoView, DisassembleError>,
    nat,
) {
    match in_context(take_int8(s.skip(1)), "unknown0") {
        (Err(e), n) => (Err(e), 1 + n),
        (Ok(unknown0), _) => match in_context(take_utf8(s.skip(2)), "name") {
            (Err(e), n) => (Err(e), 2 + n),
            (Ok(name), _) => match in_context(take_utf8(s.skip(3)), "section") {
                (Err(e), n) => (Err(e), 3 + n),
                (Ok(section), _) => match in_context(take_utf8(s.skip(4)), "value") {
                    (Err(e), n) => (Err(e), 4 + n),
                    (Ok(value), _) => (
                        Ok(
                            ConfigVarInfoView {
                                section,
                                name,
                                value,
                                data_type,
                                _unknown0: unknown0,
                            },
                        ),
                        5,
                    ),
                },
            },
        },
    }
}

/// Configuration variables read one after the other up to the type zero that ends them.
pub open spec fn parsed_vars(s: Seq<PacketValue>) -> (
    Result<Seq<ConfigVarInfoView>, DisassembleError>,
    nat,
)
    decreases s.len(),
{
    match in_context(take_int8(s), "data_type") {
        (Err(e), n) => (Err(e), n),
        (Ok(data_type), _) => if data_type == 0 {
            (Ok(Seq::empty()), 1)
        } else {
            match parsed_var(s, data_type) {
                (Err(e), n) => (Err(e), n),
                (Ok(var), _) => if s.len() < 5 {
                    (Ok(seq![var]), 5)
                } else {
                    prepend(seq![var], 5, parsed_vars(s.skip(5)))
                },
            }
        },
    }
}

impl AssemblePayload for ConfigVarsResult {
    open spec fn payload(v: Seq<ConfigVarInfoView>) -> Seq<PacketValue> {
        concat_map(v, |x: ConfigVarInfoView| var_values(x)) + seq![PacketValue::Int8(0)]
    }

    fn assemble_payload(self, assembler: WitcherPacketAssembler) -> (r: WitcherPacketAssembler) {
        let ghost values = |x: ConfigVarInfoView| var_values(x);
        let ghost start = assembler@;
        let vars = self.vars;
        let mut r = assembler;
        let mut i: usize = 0;
        assert(vars_of(vars@).take(0) =~= Seq::<ConfigVarInfoView>::empty());
        assert(r@ =~= start + concat_map(vars_of(vars@).take(0), values));
        while i < vars.len()
            invariant
                i <= vars.len(),
                values == (|x: ConfigVarInfoView| var_values(x)),
                r@ == start + concat_map(vars_of(vars@).take(i as int), values),
            decreases vars.len() - i,
        {
            let ghost done = vars_of(vars@).take(i as int);
            let ghost item = vars@[i as int]@;
            proof {
                lemma_concat_map_push(done, item, values);
                assert(done.push(item) =~= vars_of(vars@).take(i + 1));
            }
            let ghost so_far = r@;
            let var = &vars[i];
            r = r.int8(var.data_type).int8(var._unknown0).string_utf8(var.name.as_str()).string_utf8(
                var.section.as_str(),
            ).string_utf8(var.value.as_str());
            assert(r@ =~= so_far + var_values(item));
            assert(r@ =~= start + (concat_map(done, values) + values(item)));
            i += 1;
        }
        assert(vars_of(vars@).take(i as int) =~= vars_of(vars@));
        let ghost so_far = r@;
        let r = r.int8(0);
        assert(r@ =~= start + (concat_map(vars_of(vars@), values) + seq![PacketValue::Int8(0)]));
        r
    }
}

/// Reads the four values behind the type of a configuration variable.
fn read_var(
    dasm: &mut WitcherPacketDisassembler,
    Ghost(s): Ghost<Seq<PacketValue>>,
    data_type: i8,
) -> (r: Result<ConfigVarInfo, DisassembleError>)
    requires
        s.len() >= 1,
        old(dasm)@ == s.skip(1),
    ensures
        parsed_var(s, data_type).1 <= s.len(),
        final(dasm)@ == s.skip(parsed_var(s, data_type).1 as int),
        match parsed_var(s, data_type).0 {
            Ok(var) => r matches Ok(x) && x@ == var,
            Err(e) => r == Err::<ConfigVarInfo, DisassembleError>(e),
        },
{
    let ghost before = dasm@;
    let found = dasm.int8();
    proof {
        lemma_took_at(s, 1, before, dasm@);
    }
    let _unknown0 = match found {
        Ok(value) => value,
        Err(e) => { return Err(e.at("unknown0")); },
    };
    let ghost before = dasm@;
    let found = dasm.string_utf8();
    proof {
        lemma_took_at(s, 2, before, dasm@);
    }
    let name = match found {
        Ok(value) => value.0,
        Err(e) => { return Err(e.at("name")); },
    };
    let ghost before = dasm@;
    let found = dasm.string_utf8();
    proof {
        lemma_took_at(s, 3, before, dasm@);
    }
    let section = match found {
        Ok(value) => value.0,
        Err(e) => { return Err(e.at("section")); },
    };
    let ghost before = dasm@;
    let found = dasm.string_utf8();
    proof {
        lemma_took_at(s, 4, before, dasm@);
    }
    let value = match found {
        Ok(value) => value.0,
        Err(e) => { return Err(e.at("value")); },
    };
    Ok(ConfigVarInfo { data_type, _unknown0, name, section, value })
}

impl DisassemblePayload for ConfigVarsResult {
    open spec fn parsed(s: Seq<PacketValue>) -> (
        Result<Seq<ConfigVarInfoView>, DisassembleError>,
        nat,
    ) {
        parsed_vars(s)
    }

    fn disassemble_payload(dasm: &mut WitcherPacketDisassembler) -> (r: Result<
        Self,
        DisassembleError,
    >) {
        let ghost s = dasm@;
        let ghost mut used: int = 0;
        let mut vars: Vec<ConfigVarInfo> = Vec::new();
        proof {
            assert(vars_of(vars@) =~= Seq::<ConfigVarInfoView>::empty());
            lemma_prepend_none(parsed_vars(s));
            assert(s.skip(0) =~= s);
        }
        loop
            invariant
                s == old(dasm)@,
                0 <= used <= s.len(),
                dasm@ == s.skip(used),
                parsed_vars(s) == prepend(vars_of(vars@), used as nat, parsed_vars(dasm@)),
            decreases dasm@.len(),
        {
            let ghost done = vars_of(vars@);
            let ghost here = dasm@;
            let ghost before = dasm@;
            let found = dasm.int8();
            proof {
                lemma_took_at(s, used, before, dasm@);
            }
            let data_type = match found {
                Ok(value) => value,
                Err(e) => { return Err(e.at("data_type")); },
            };
            if data_type == 0 {
                proof {
                    assert(done + Seq::<ConfigVarInfoView>::empty() =~= done);
                }
                return Ok(Self { vars });
            }
            let found = read_var(dasm, Ghost(here), data_type);
            proof {
                lemma_skip_twice(s, used, parsed_var(here, data_type).1 as int);
            }
            let var = match found {
                Ok(var) => var,
                Err(e) => { return Err(e); },
            };
            proof {
                lemma_prepend_twice(done, used as nat, seq![var@], 5, parsed_vars(here.skip(5)));
                used = used + 5;
            }
            vars.push(var);
            assert(vars_of(vars@) =~= done + seq![var@]);
        }
    }
}

/// Whether no variable of a list has the type zero, which ends the list on the wire.
pub open spec fn all_typed(v: Seq<ConfigVarInfoView>) -> bool {
    forall|i: int| 0 <= i < v.len() ==> (#[trigger] v[i]).data_type != 0
}

/// Configuration variables written one after the other, and ended by the type zero,
/// read back as they were.
pub proof fn lemma_vars_round_trip(v: Seq<ConfigVarInfoView>, rest: Seq<PacketValue>)
    requires
        all_typed(v),
    ensures
        parsed_vars(
            concat_map(v, |x: ConfigVarInfoView| var_values(x)) + seq![PacketValue::Int8(0)]
                + rest,
        ) == (Ok::<Seq<ConfigVarInfoView>, DisassembleError>(v), 5 * v.len() + 1),
        concat_map(v, |x: ConfigVarInfoView| var_values(x)).len() == 5 * v.len(),
    decreases v.len(),
{
    let values = |x: ConfigVarInfoView| var_values(x);
    let s = concat_map(v, values) + seq![PacketValue::Int8(0)] + rest;
    if v.len() > 0 {
        let tail = concat_map(v.skip(1), values) + seq![PacketValue::Int8(0)] + rest;
        assert(s =~= var_values(v[0]) + tail);
        assert(s[0] == PacketValue::Int8(v[0].data_type));
        assert(s.skip(1)[0] == PacketValue::Int8(v[0]._unknown0));
        assert(s.skip(2)[0] == PacketValue::StringUTF8(v[0].name));
        assert(s.skip(3)[0] == PacketValue::StringUTF8(v[0].section));
        assert(s.skip(4)[0] == PacketValue::StringUTF8(v[0].value));
        assert(s.skip(5) =~= tail);
        assert(all_typed(v.skip(1))) by {
            assert forall|i: int| 0 <= i < v.skip(1).len() implies (#[trigger] v.skip(1)[i]).data_type
                != 0 by {
                assert(v.skip(1)[i] == v[i + 1]);
            }
        }
        lemma_vars_round_trip(v.skip(1), rest);
        assert(seq![v[0]] + v.skip(1) =~= v);
    } else {
        assert(v =~= Seq::<ConfigVarInfoView>::empty());
        assert(concat_map(v, values) =~= Seq::<PacketValue>::empty());
        assert(s[0] == PacketValue::Int8(0));
    }
}

impl PayloadRoundTrip for ConfigVarsResult {
    /// Variables that survive the wire: none has the type zero.
    open spec fn legal(v: Seq<ConfigVarInfoView>) -> bool {
        all_typed(v)
    }

    proof fn lemma_payload_round_trip(v: Seq<ConfigVarInfoView>, rest: Seq<PacketValue>) {
        lemma_vars_round_trip(v, rest);
    }

    proof fn lemma_payload_known(v: Seq<ConfigVarInfoView>) {
        let values = |x: ConfigVarInfoView| var_values(x);
        lemma_concat_map_known(v, values);
        lemma_known_append(concat_map(v, values), seq![PacketValue::Int8(0)]);
    }
}

} // verus!
