use vstd::prelude::*;
use crate::protocol::packet_assembly::{
    failure, same_text, take_utf8, AssemblePayload, DisassembleError, DisassembleErrorKind,
    DisassemblePayload, PayloadRoundTrip, WitcherPacketAssembler, WitcherPacketDisassembler,
};
use crate::protocol::packet_data::PacketValue;

verus! {

/// The subsystems of the game that send and accept messages.
#[derive(Debug, Clone, Copy, PartialEq, Eq, PartialOrd, Ord, Hash)]
pub enum WitcherNamespace {
    ScriptDebugger,
    ScriptProfiler,
    ScriptCompiler,
    Scripts,
    Remote,
    Utility,
    Config,
}

impl View for WitcherNamespace {
    type V = WitcherNamespace;

    open spec fn view(&self) -> WitcherNamespace {
        *self
    }
}

/// The namespace that a name stands for, if it is the name of one.
pub open spec fn namespace_named(name: Seq<char>) -> Option<WitcherNamespace> {
    if name == "ScriptDebugger"@ {
        Some(WitcherNamespace::ScriptDebugger)
    } else if name == "ScriptProfiler"@ {
        Some(WitcherNamespace::ScriptProfiler)
    } else if name == "ScriptCompiler"@ {
        Some(WitcherNamespace::ScriptCompiler)
    } else if name == "scripts"@ {
        Some(WitcherNamespace::Scripts)
    } else if name == "Remote"@ {
        Some(WitcherNamespace::Remote)
    } else if name == "Utility"@ {
        Some(WitcherNamespace::Utility)
    } else if name == "Config"@ {
        Some(WitcherNamespace::Config)
    } else {
        None
    }
}

impl WitcherNamespace {
    /// The name under which the namespace goes on the wire.
    pub open spec fn name(self) -> Seq<char> {
        match self {
            WitcherNamespace::ScriptDebugger => "ScriptDebugger"@,
            WitcherNamespace::ScriptProfiler => "ScriptProfiler"@,
            WitcherNamespace::ScriptCompiler => "ScriptCompiler"@,
            WitcherNamespace::Scripts => "scripts"@,
            WitcherNamespace::Remote => "Remote"@,
            WitcherNamespace::Utility => "Utility"@,
            WitcherNamespace::Config => "Config"@,
        }
    }

    /// The name under which the namespace goes on the wire.
    pub fn as_str(&self) -> (name: &'static str)
        ensures
            name@ == self.name(),
    {
        match self {
            WitcherNamespace::ScriptDebugger => "ScriptDebugger",
            WitcherNamespace::ScriptProfiler => "ScriptProfiler",
            WitcherNamespace::ScriptCompiler => "ScriptCompiler",
            WitcherNamespace::Scripts => "scripts",
            WitcherNamespace::Remote => "Remote",
            WitcherNamespace::Utility => "Utility",
            WitcherNamespace::Config => "Config",
        }
    }

    /// The namespace with the given name, if there is one.
    pub fn from_name(name: &str) -> (namespace: Option<WitcherNamespace>)
        ensures
            namespace == namespace_named(name@),
    {
        if same_text(name, "ScriptDebugger") {
            Some(WitcherNamespace::ScriptDebugger)
        } else if same_text(name, "ScriptProfiler") {
            Some(WitcherNamespace::ScriptProfiler)
        } else if same_text(name, "ScriptCompiler") {
            Some(WitcherNamespace::ScriptCompiler)
        } else if same_text(name, "scripts") {
            Some(WitcherNamespace::Scripts)
        } else if same_text(name, "Remote") {
            Some(WitcherNamespace::Remote)
        } else if same_text(name, "Utility") {
            Some(WitcherNamespace::Utility)
        } else if same_text(name, "Config") {
            Some(WitcherNamespace::Config)
        } else {
            None
        }
    }

    /// Every namespace is the one that its name stands for.
    pub proof fn lemma_name_round_trip(self)
        ensures
            namespace_named(self.name()) == Some(self),
    {
        reveal_strlit("ScriptDebugger");
        reveal_strlit("ScriptProfiler");
        reveal_strlit("ScriptCompiler");
        reveal_strlit("scripts");
        reveal_strlit("Remote");
        reveal_strlit("Utility");
        reveal_strlit("Config");
        assert("ScriptDebugger"@[6] == 'D');
        assert("ScriptProfiler"@[6] == 'P');
        assert("ScriptCompiler"@[6] == 'C');
        assert("Remote"@[0] == 'R');
        assert("Config"@[0] == 'C');
        assert("scripts"@[0] == 's');
        assert("Utility"@[0] == 'U');
    }
}

impl AssemblePayload for WitcherNamespace {
    open spec fn payload(v: WitcherNamespace) -> Seq<PacketValue> {
        seq![PacketValue::StringUTF8(v.name())]
    }

    fn assemble_payload(self, assembler: WitcherPacketAssembler) -> (r: WitcherPacketAssembler) {
        let r = assembler.string_utf8(self.as_str());
        assert(r@ =~= assembler@ + Self::payload(self@));
        r
    }
}

impl DisassemblePayload for WitcherNamespace {
    open spec fn parsed(s: Seq<PacketValue>) -> (Result<WitcherNamespace, DisassembleError>, nat) {
        match take_utf8(s) {
            (Err(e), n) => (Err(e), n),
            (Ok(name), n) => match namespace_named(name) {
                Some(namespace) => (Ok(namespace), n),
                None => (Err(failure(DisassembleErrorKind::UnknownVariant)), n),
            },
        }
    }

    fn disassemble_payload(dasm: &mut WitcherPacketDisassembler) -> (r: Result<
        Self,
        DisassembleError,
    >) {
        let name = match dasm.string_utf8() {
            Ok(name) => name,
            Err(e) => { return Err(e); },
        };
        match WitcherNamespace::from_name(name.as_str()) {
            Some(namespace) => Ok(namespace),
            None => Err(
                DisassembleError { kind: DisassembleErrorKind::UnknownVariant, context: "" },
            ),
        }
    }
}

impl PayloadRoundTrip for WitcherNamespace {
    open spec fn legal(v: WitcherNamespace) -> bool {
        true
    }

    proof fn lemma_payload_round_trip(v: WitcherNamespace, rest: Seq<PacketValue>) {
        v.lemma_name_round_trip();
        assert((Self::payload(v) + rest)[0] == PacketValue::StringUTF8(v.name()));
    }

    proof fn lemma_payload_known(v: WitcherNamespace) {
    }
}

} // verus!
