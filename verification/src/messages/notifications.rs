use vstd::prelude::*;
use crate::messages::common::WitcherNamespace;
use crate::messages::Message;
use crate::protocol::packet_assembly::{
    failure, in_context, lemma_took_at, same_text, take_fixed_utf8, take_int8, take_uint32,
    take_utf16, take_utf8, AssemblePayload, DisassembleError, DisassembleErrorKind,
    DisassemblePayload, PayloadRoundTrip, WitcherPacketAssembler, WitcherPacketDisassembler,
};
use crate::protocol::packet_data::PacketValue;

verus! {

/// A message that expects no reply.
pub trait Notification: Message {
}

/// Asks the game to send the messages of one namespace.
#[derive(Debug)]
pub struct ListenToNamespace;

impl Message for ListenToNamespace {
    type Id = ListenToNamespaceId;

    type Body = ListenToNamespaceParams;
}

impl Notification for ListenToNamespace {
}

/// The identifier of [`ListenToNamespace`].
#[derive(Debug, Default)]
pub struct ListenToNamespaceId;

impl View for ListenToNamespaceId {
    type V = ();

    open spec fn view(&self) -> () {
        ()
    }
}

impl AssemblePayload for ListenToNamespaceId {
    open spec fn payload(v: ()) -> Seq<PacketValue> {
        seq![PacketValue::StringUTF8("BIND"@)]
    }

    fn assemble_payload(self, assembler: WitcherPacketAssembler) -> (r: WitcherPacketAssembler) {
        let r = assembler.string_utf8("BIND");
        assert(r@ =~= assembler@ + Self::payload(()));
        r
    }
}

impl DisassemblePayload for ListenToNamespaceId {
    open spec fn parsed(s: Seq<PacketValue>) -> (Result<(), DisassembleError>, nat) {
        match take_fixed_utf8(s, "BIND"@) {
            (Err(e), n) => (Err(e), n),
            (Ok(_), _) => (Ok(()), 1),
        }
    }

    fn disassemble_payload(dasm: &mut WitcherPacketDisassembler) -> (r: Result<
        Self,
        DisassembleError,
    >) {
        let ghost before = dasm@;
        let found = dasm.fixed_string_utf8("BIND");
        proof {
            lemma_took_at(old(dasm)@, 0, before, dasm@);
        }
        if let Err(e) = found {
            return Err(e);
        }
        Ok(Self)
    }
}

impl PayloadRoundTrip for ListenToNamespaceId {
    open spec fn legal(v: ()) -> bool {
        true
    }

    proof fn lemma_payload_round_trip(v: (), rest: Seq<PacketValue>) {
        let s = Self::payload(()) + rest;
        assert(s[0] == PacketValue::StringUTF8("BIND"@));
    }

    proof fn lemma_payload_known(v: ()) {
    }
}

/// The namespace to listen to.
#[derive(Debug, Clone, PartialEq, Eq, PartialOrd, Ord)]
pub struct ListenToNamespaceParams {
    pub namesp: WitcherNamespace,
}

impl View for ListenToNamespaceParams {
    type V = WitcherNamespace;

    open spec fn view(&self) -> WitcherNamespace {
        self.namesp
    }
}

impl AssemblePayload for ListenToNamespaceParams {
    open spec fn payload(v: WitcherNamespace) -> Seq<PacketValue> {
        WitcherNamespace::payload(v)
    }

    fn assemble_payload(self, assembler: WitcherPacketAssembler) -> (r: WitcherPacketAssembler) {
        self.namesp.assemble_payload(assembler)
    }
}

impl DisassemblePayload for ListenToNamespaceParams {
    open spec fn parsed(s: Seq<PacketValue>) -> (Result<WitcherNamespace, DisassembleError>, nat) {
        WitcherNamespace::parsed(s)
    }

    fn disassemble_payload(dasm: &mut WitcherPacketDisassembler) -> (r: Result<
        Self,
        DisassembleError,
    >) {
        match WitcherNamespace::disassemble_payload(dasm) {
            Ok(namesp) => Ok(Self { namesp }),
            Err(e) => Err(e),
        }
    }
}

impl PayloadRoundTrip for ListenToNamespaceParams {
    open spec fn legal(v: WitcherNamespace) -> bool {
        true
    }

    proof fn lemma_payload_round_trip(v: WitcherNamespace, rest: Seq<PacketValue>) {
        WitcherNamespace::lemma_payload_round_trip(v, rest);
    }

    proof fn lemma_payload_known(v: WitcherNamespace) {
    }
}

/// Asks the game to compile its scripts anew.
#[derive(Debug)]
pub struct ReloadScripts;

impl Message for ReloadScripts {
    type Id = ReloadScriptsId;

    type Body = ();
}

impl Notification for ReloadScripts {
}

/// The identifier of [`ReloadScripts`].
#[derive(Debug, Default)]
pub struct ReloadScriptsId;

impl View for ReloadScriptsId {
    type V = ();

    open spec fn view(&self) -> () {
        ()
    }
}

impl AssemblePayload for ReloadScriptsId {
    open spec fn payload(v: ()) -> Seq<PacketValue> {
        seq![PacketValue::StringUTF8("scripts"@), PacketValue::StringUTF8("reload"@)]
    }

    fn assemble_payload(self, assembler: WitcherPacketAssembler) -> (r: WitcherPacketAssembler) {
        let r = assembler.string_utf8("scripts").string_utf8("reload");
        assert(r@ =~= assembler@ + Self::payload(()));
        r
    }
}

impl DisassemblePayload for ReloadScriptsId {
    open spec fn parsed(s: Seq<PacketValue>) -> (Result<(), DisassembleError>, nat) {
        match take_fixed_utf8(s, "scripts"@) {
            (Err(e), n) => (Err(e), n),
            (Ok(_), _) => match take_fixed_utf8(s.skip(1), "reload"@) {
                (Err(e), n) => (Err(e), 1 + n),
                (Ok(_), _) => (Ok(()), 2),
            },
        }
    }

    fn disassemble_payload(dasm: &mut WitcherPacketDisassembler) -> (r: Result<
        Self,
        DisassembleError,
    >) {
        let ghost before = dasm@;
        let found = dasm.fixed_string_utf8("scripts");
        proof {
            lemma_took_at(old(dasm)@, 0, before, dasm@);
        }
        if let Err(e) = found {
            return Err(e);
        }
        let ghost before = dasm@;
        let found = dasm.fixed_string_utf8("reload");
        proof {
            lemma_took_at(old(dasm)@, 1, before, dasm@);
        }
        if let Err(e) = found {
            return Err(e);
        }
        Ok(Self)
    }
}

impl PayloadRoundTrip for ReloadScriptsId {
    open spec fn legal(v: ()) -> bool {
        true
    }

    proof fn lemma_payload_round_trip(v: (), rest: Seq<PacketValue>) {
        let s = Self::payload(()) + rest;
        assert(s[0] == PacketValue::StringUTF8("scripts"@));
        assert(s[1] == PacketValue::StringUTF8("reload"@));
        assert(s.skip(1)[0] == s[1]);
    }

    proof fn lemma_payload_known(v: ()) {
    }
}

/// What the game reports while it compiles its scripts.
#[derive(Debug)]
pub struct ScriptsReloadProgress;

impl Message for ScriptsReloadProgress {
    type Id = ScriptsReloadProgressId;

    type Body = ScriptsReloadProgressParams;
}

impl Notification for ScriptsReloadProgress {
}

/// The identifier of [`ScriptsReloadProgress`].
#[derive(Debug, Default)]
pub struct ScriptsReloadProgressId;

impl View for ScriptsReloadProgressId {
    type V = ();

    open spec fn view(&self) -> () {
        ()
    }
}

impl AssemblePayload for ScriptsReloadProgressId {
    open spec fn payload(v: ()) -> Seq<PacketValue> {
        seq![PacketValue::StringUTF8("ScriptCompiler"@)]
    }

    fn assemble_payload(self, assembler: WitcherPacketAssembler) -> (r: WitcherPacketAssembler) {
        let r = assembler.string_utf8("ScriptCompiler");
        assert(r@ =~= assembler@ + Self::payload(()));
        r
    }
}

impl DisassemblePayload for ScriptsReloadProgressId {
    open spec fn parsed(s: Seq<PacketValue>) -> (Result<(), DisassembleError>, nat) {
        match take_fixed_utf8(s, "ScriptCompiler"@) {
            (Err(e), n) => (Err(e), n),
            (Ok(_), _) => (Ok(()), 1),
        }
    }

    fn disassemble_payload(dasm: &mut WitcherPacketDisassembler) -> (r: Result<
        Self,
        DisassembleError,
    >) {
        let ghost before = dasm@;
        let found = dasm.fixed_string_utf8("ScriptCompiler");
        proof {
            lemma_took_at(old(dasm)@, 0, before, dasm@);
        }
        if let Err(e) = found {
            return Err(e);
        }
        Ok(Self)
    }
}

impl PayloadRoundTrip for ScriptsReloadProgressId {
    open spec fn legal(v: ()) -> bool {
        true
    }

    proof fn lemma_payload_round_trip(v: (), rest: Seq<PacketValue>) {
        let s = Self::payload(()) + rest;
        assert(s[0] == PacketValue::StringUTF8("ScriptCompiler"@));
    }

    proof fn lemma_payload_known(v: ()) {
    }
}

/// One report of the script compiler.
#[derive(Debug, Clone, PartialEq, Eq, PartialOrd, Ord)]
pub enum ScriptsReloadProgressParams {
    Started,
    Log { message: String },
    Warn { line: u32, local_script_path: String, message: String },
    Error { line: u32, local_script_path: String, message: String },
    Finished { success: bool },
}

/// What a report of the script compiler holds.
pub enum ScriptsReloadProgressView {
    Started,
    Log { message: Seq<char> },
    Warn { line: u32, local_script_path: Seq<char>, message: Seq<char> },
    Error { line: u32, local_script_path: Seq<char>, message: Seq<char> },
    Finished { success: bool },
}

impl View for ScriptsReloadProgressParams {
    type V = ScriptsReloadProgressView;

    open spec fn view(&self) -> ScriptsReloadProgressView {
        match self {
            ScriptsReloadProgressParams::Started => ScriptsReloadProgressView::Started,
            ScriptsReloadProgressParams::Log { message } => ScriptsReloadProgressView::Log {
                message: message@,
            },
            ScriptsReloadProgressParams::Warn {
                line,
                local_script_path,
                message,
            } => ScriptsReloadProgressView::Warn {
                line: *line,
                local_script_path: local_script_path@,
                message: message@,
            },
            ScriptsReloadProgressParams::Error {
                line,
                local_script_path,
                message,
            } => ScriptsReloadProgressView::Error {
                line: *line,
                local_script_path: local_script_path@,
                message: message@,
            },
            ScriptsReloadProgressParams::Finished { success } => ScriptsReloadProgressView::Finished {
                success: *success,
            },
        }
    }
}

/// The number that says on the wire how a compilation ended: zero for success.
pub open spec fn return_code(success: bool) -> i8 {
    if success {
        0
    } else {
        1
    }
}

impl AssemblePayload for ScriptsReloadProgressParams {
    open spec fn payload(v: ScriptsReloadProgressView) -> Seq<PacketValue> {
        match v {
            ScriptsReloadProgressView::Started => seq![
                PacketValue::StringUTF8("started"@),
                PacketValue::Int8(0),
                PacketValue::Int8(1),
            ],
            ScriptsReloadProgressView::Log { message } => seq![
                PacketValue::StringUTF8("log"@),
                PacketValue::StringUTF16(message),
            ],
            ScriptsReloadProgressView::Warn { line, local_script_path, message } => seq![
                PacketValue::StringUTF8("warn"@),
                PacketValue::UInt32(line),
                PacketValue::StringUTF16(local_script_path),
                PacketValue::StringUTF16(message),
            ],
            ScriptsReloadProgressView::Error { line, local_script_path, message } => seq![
                PacketValue::StringUTF8("error"@),
                PacketValue::UInt32(line),
                PacketValue::StringUTF16(local_script_path),
                PacketValue::StringUTF16(message),
            ],
            ScriptsReloadProgressView::Finished { success } => seq![
                PacketValue::StringUTF8("finished"@),
                PacketValue::Int8(return_code(success)),
            ],
        }
    }

    fn assemble_payload(self, assembler: WitcherPacketAssembler) -> (r: WitcherPacketAssembler) {
        let r = match self {
            ScriptsReloadProgressParams::Started => {
                assembler.string_utf8("started").int8(0).int8(1)
            },
            ScriptsReloadProgressParams::Log { message } => {
                assembler.string_utf8("log").string_utf16(message.as_str())
            },
            ScriptsReloadProgressParams::Warn { line, local_script_path, message } => {
                assembler.string_utf8("warn").uint32(line).string_utf16(
                    local_script_path.as_str(),
                ).string_utf16(message.as_str())
            },
            ScriptsReloadProgressParams::Error { line, local_script_path, message } => {
                assembler.string_utf8("error").uint32(line).string_utf16(
                    local_script_path.as_str(),
                ).string_utf16(message.as_str())
            },
            ScriptsReloadProgressParams::Finished { success } => {
                assembler.string_utf8("finished").int8(
                    if success {
                        0
                    } else {
                        1
                    },
                )
            },
        };
        assert(r@ =~= assembler@ + Self::payload(self@));
        r
    }
}

/// The line, path and message of a warning or an error, read from the three values
/// behind the discriminator; `names` are the names of the three fields.
pub open spec fn parsed_diagnostic(
    s: Seq<PacketValue>,
    names: (&'static str, &'static str, &'static str),
) -> (Result<(u32, Seq<char>, Seq<char>), DisassembleError>, nat) {
    match in_context(take_uint32(s.skip(1)), names.0) {
        (Err(e), n) => (Err(e), 1 + n),
        (Ok(line), _) => match in_context(take_utf16(s.skip(2)), names.1) {
            (Err(e), n) => (Err(e), 2 + n),
            (Ok(path), _) => match in_context(take_utf16(s.skip(3)), names.2) {
                (Err(e), n) => (Err(e), 3 + n),
                (Ok(message), _) => (Ok((line, path, message)), 4),
            },
        },
    }
}

/// The report that starts with the discriminator `kind`, read from the values behind it.
pub open spec fn parsed_progress(s: Seq<PacketValue>, kind: Seq<char>) -> (
    Result<ScriptsReloadProgressView, DisassembleError>,
    nat,
) {
    if kind == "started"@ {
        match in_context(take_int8(s.skip(1)), "started::unknown0") {
            (Err(e), n) => (Err(e), 1 + n),
            (Ok(_), _) => match in_context(take_int8(s.skip(2)), "started::unknown1") {
                (Err(e), n) => (Err(e), 2 + n),
                (Ok(_), _) => (Ok(ScriptsReloadProgressView::Started), 3),
            },
        }
    } else if kind == "log"@ {
        match in_context(take_utf16(s.skip(1)), "log::message") {
            (Err(e), n) => (Err(e), 1 + n),
            (Ok(message), _) => (Ok(ScriptsReloadProgressView::Log { message }), 2),
        }
    } else if kind == "warn"@ {
        match parsed_diagnostic(s, ("warn::line", "warn::local_script_path", "warn::message")) {
            (Err(e), n) => (Err(e), n),
            (Ok(found), n) => (
                Ok(
                    ScriptsReloadProgressView::Warn {
                        line: found.0,
                        local_script_path: found.1,
                        message: found.2,
                    },
                ),
                n,
            ),
        }
    } else if kind == "error"@ {
        match parsed_diagnostic(s, ("error::line", "error::local_script_path", "error::message")) {
            (Err(e), n) => (Err(e), n),
            (Ok(found), n) => (
                Ok(
                    ScriptsReloadProgressView::Error {
                        line: found.0,
                        local_script_path: found.1,
                        message: found.2,
                    },
                ),
                n,
            ),
        }
    } else if kind == "finished"@ {
        match in_context(take_int8(s.skip(1)), "finished::return_code") {
            (Err(e), n) => (Err(e), 1 + n),
            (Ok(code), _) => (Ok(ScriptsReloadProgressView::Finished { success: code == 0 }), 2),
        }
    } else {
        (Err(failure(DisassembleErrorKind::UnknownVariant)), 1)
    }
}

impl DisassemblePayload for ScriptsReloadProgressParams {
    open spec fn parsed(s: Seq<PacketValue>) -> (
        Result<ScriptsReloadProgressView, DisassembleError>,
        nat,
    ) {
        match take_utf8(s) {
            (Err(e), n) => (Err(e), n),
            (Ok(kind), _) => parsed_progress(s, kind),
        }
    }

    fn disassemble_payload(dasm: &mut WitcherPacketDisassembler) -> (r: Result<
        Self,
        DisassembleError,
    >) {
        let ghost before = dasm@;
        let found = dasm.string_utf8();
        proof {
            lemma_took_at(old(dasm)@, 0, before, dasm@);
        }
        let kind = match found {
            Ok(value) => value,
            Err(e) => { return Err(e); },
        };
        if same_text(kind.as_str(), "started") {
            let ghost before = dasm@;
            let found = dasm.int8();
            proof {
                lemma_took_at(old(dasm)@, 1, before, dasm@);
            }
            let _unknown0 = match found {
                Ok(value) => value,
                Err(e) => { return Err(e.at("started::unknown0")); },
            };
            let ghost before = dasm@;
            let found = dasm.int8();
            proof {
                lemma_took_at(old(dasm)@, 2, before, dasm@);
            }
            let _unknown1 = match found {
                Ok(value) => value,
                Err(e) => { return Err(e.at("started::unknown1")); },
            };
            Ok(Self::Started)
        } else if same_text(kind.as_str(), "log") {
            let ghost before = dasm@;
            let found = dasm.string_utf16();
            proof {
                lemma_took_at(old(dasm)@, 1, before, dasm@);
            }
            let message = match found {
                Ok(value) => value.0,
                Err(e) => { return Err(e.at("log::message")); },
            };
            Ok(Self::Log { message })
        } else if same_text(kind.as_str(), "warn") {
            match read_diagnostic(
                dasm,
                Ghost(old(dasm)@),
                ("warn::line", "warn::local_script_path", "warn::message"),
            ) {
                Ok((line, local_script_path, message)) => Ok(
                    Self::Warn { line, local_script_path, message },
                ),
                Err(e) => Err(e),
            }
        } else if same_text(kind.as_str(), "error") {
            match read_diagnostic(
                dasm,
                Ghost(old(dasm)@),
                ("error::line", "error::local_script_path", "error::message"),
            ) {
                Ok((line, local_script_path, message)) => Ok(
                    Self::Error { line, local_script_path, message },
                ),
                Err(e) => Err(e),
            }
        } else if same_text(kind.as_str(), "finished") {
            let ghost before = dasm@;
            let found = dasm.int8();
            proof {
                lemma_took_at(old(dasm)@, 1, before, dasm@);
            }
            let code = match found {
                Ok(value) => value,
                Err(e) => { return Err(e.at("finished::return_code")); },
            };
            Ok(Self::Finished { success: code == 0 })
        } else {
            Err(DisassembleError { kind: DisassembleErrorKind::UnknownVariant, context: "" })
        }
    }
}

/// Reads the line, path and message of a warning or an error.
fn read_diagnostic(
    dasm: &mut WitcherPacketDisassembler,
    Ghost(s): Ghost<Seq<PacketValue>>,
    names: (&'static str, &'static str, &'static str),
) -> (r: Result<(u32, String, String), DisassembleError>)
    requires
        s.len() >= 1,
        old(dasm)@ == s.skip(1),
    ensures
        parsed_diagnostic(s, names).1 <= s.len(),
        final(dasm)@ == s.skip(parsed_diagnostic(s, names).1 as int),
        match parsed_diagnostic(s, names).0 {
            Ok(found) => r matches Ok(x) && x.0 == found.0 && x.1@ == found.1 && x.2@
                == found.2,
            Err(e) => r == Err::<(u32, String, String), DisassembleError>(e),
        },
{
    let ghost before = dasm@;
    let found = dasm.uint32();
    proof {
        lemma_took_at(s, 1, before, dasm@);
    }
    let line = match found {
        Ok(value) => value,
        Err(e) => { return Err(e.at(names.0)); },
    };
    let ghost before = dasm@;
    let found = dasm.string_utf16();
    proof {
        lemma_took_at(s, 2, before, dasm@);
    }
    let path = match found {
        Ok(value) => value.0,
        Err(e) => { return Err(e.at(names.1)); },
    };
    let ghost before = dasm@;
    let found = dasm.string_utf16();
    proof {
        lemma_took_at(s, 3, before, dasm@);
    }
    let message = match found {
        Ok(value) => value.0,
        Err(e) => { return Err(e.at(names.2)); },
    };
    Ok((line, path, message))
}

impl PayloadRoundTrip for ScriptsReloadProgressParams {
    open spec fn legal(v: ScriptsReloadProgressView) -> bool {
        true
    }

    proof fn lemma_payload_round_trip(v: ScriptsReloadProgressView, rest: Seq<PacketValue>) {
        let s = Self::payload(v) + rest;
        reveal_strlit("started");
        reveal_strlit("log");
        reveal_strlit("warn");
        reveal_strlit("error");
        reveal_strlit("finished");
        assert("started"@.len() == 7 && "log"@.len() == 3 && "warn"@.len() == 4 && "error"@.len()
            == 5 && "finished"@.len() == 8);
        match v {
            ScriptsReloadProgressView::Started => {
                assert(s[0] == PacketValue::StringUTF8("started"@));
                assert(s.skip(1)[0] == PacketValue::Int8(0));
                assert(s.skip(2)[0] == PacketValue::Int8(1));
            },
            ScriptsReloadProgressView::Log { message } => {
                assert(s[0] == PacketValue::StringUTF8("log"@));
                assert(s.skip(1)[0] == PacketValue::StringUTF16(message));
            },
            ScriptsReloadProgressView::Warn { line, local_script_path, message } => {
                assert(s[0] == PacketValue::StringUTF8("warn"@));
                assert(s.skip(1)[0] == PacketValue::UInt32(line));
                assert(s.skip(2)[0] == PacketValue::StringUTF16(local_script_path));
                assert(s.skip(3)[0] == PacketValue::StringUTF16(message));
            },
            ScriptsReloadProgressView::Error { line, local_script_path, message } => {
                assert(s[0] == PacketValue::StringUTF8("error"@));
                assert(s.skip(1)[0] == PacketValue::UInt32(line));
                assert(s.skip(2)[0] == PacketValue::StringUTF16(local_script_path));
                assert(s.skip(3)[0] == PacketValue::StringUTF16(message));
            },
            ScriptsReloadProgressView::Finished { success } => {
                assert(s[0] == PacketValue::StringUTF8("finished"@));
                assert(s.skip(1)[0] == PacketValue::Int8(return_code(success)));
            },
        }
    }

    proof fn lemma_payload_known(v: ScriptsReloadProgressView) {
    }
}

} // verus!
