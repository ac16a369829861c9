use rw3d::client::{LifecycleError, WitcherClient};
use rw3d::connection::{frame_size, peek, valid_read_timeout, PeekOutcome, WitcherPort};
use rw3d::messages::common::WitcherNamespace;
use rw3d::messages::lines::{join_lines, split_lines};
use rw3d::messages::notifications::{
    ListenToNamespace, ListenToNamespaceParams, ReloadScripts, ScriptsReloadProgress,
    ScriptsReloadProgressParams,
};
use rw3d::messages::requests::{
    ConfigVarInfo, ConfigVars, ConfigVarsParams, ConfigVarsResponse, ConfigVarsResult,
    ExecuteCommand, ExecuteCommandParams, ExecuteCommandResponse, ExecuteCommandResult,
    OpcodeBreakdown, Opcodes, OpcodesParams, OpcodesResponse, OpcodesResult, ScriptPackageInfo,
    ScriptPackagesResponse, ScriptPackagesResult, ScriptsRootPath, ScriptsRootPathResponse,
    ScriptsRootPathResult,
};
use rw3d::messages::{Message, MessageError, MessageIdRegistry};
use rw3d::protocol::encoding::{Decode, Encode};
use rw3d::protocol::packet::WitcherPacket;
use rw3d::protocol::packet_assembly::{
    DisassembleError, DisassembleErrorKind, WitcherPacketAssembler, WitcherPacketDisassembler,
};
use rw3d::protocol::packet_data::WitcherPacketData;
use rw3d::protocol::stream::{ByteStream, DecodeErrorKind};
use rw3d::router::{Delivery, ReaderAction, RouteDecision, Router};

/// What the server's packet looks like once it has crossed the wire.
fn over_the_wire(packet: WitcherPacket) -> WitcherPacket {
    let mut stream = ByteStream::new();
    packet.encode_into(&mut stream).unwrap();
    let received = WitcherPacket::decode_from(&mut stream).unwrap();
    assert_eq!(stream.len(), 0);
    received
}

fn started_client() -> WitcherClient {
    let mut client = WitcherClient::new();
    client.start().unwrap();
    client
}

#[test]
fn root_path_scenario() {
    let mut client = started_client();
    let request = client.scripts_root_path(41);
    assert_eq!(
        request,
        WitcherPacketAssembler::new().string_utf8("ScriptCompiler").string_utf8("RootPath").finish()
    );
    assert_eq!(ScriptsRootPath::disassemble_packet(request), Ok(()));
    let reply = over_the_wire(ScriptsRootPathResponse::assemble_packet(ScriptsRootPathResult {
        abs_path: r"C:\GOG\Witcher 3\content\content0\scripts".into(),
    }));
    let decision = client.accept_packet(&reply);
    assert_eq!(decision, RouteDecision { raw: None, delivery: Delivery::Response(41) });
    let result = ScriptsRootPathResponse::disassemble_packet(reply).unwrap();
    assert_eq!(result.abs_path, r"C:\GOG\Witcher 3\content\content0\scripts");
}

#[test]
fn execute_command_without_output_scenario() {
    let mut client = started_client();
    let request = client.execute_command(ExecuteCommandParams { cmd: "spawnt(12)".into() }, 5);
    assert_eq!(
        request,
        WitcherPacketAssembler::new()
            .string_utf8("Remote")
            .int32(0x12345678)
            .int32(0x81160008u32 as i32)
            .string_utf8("spawnt(12)")
            .finish()
    );
    let reply = over_the_wire(
        WitcherPacketAssembler::new()
            .int32(0x12345678)
            .int32(0x81160008u32 as i32)
            .string_utf8("Spam: Command executed without errors")
            .finish(),
    );
    assert_eq!(client.accept_packet(&reply).delivery, Delivery::Response(5));
    assert_eq!(
        ExecuteCommandResponse::disassemble_packet(reply),
        Ok(ExecuteCommandResult::Success { log_output: None })
    );
}

#[test]
fn execute_command_with_output_scenario() {
    let reply = over_the_wire(
        WitcherPacketAssembler::new()
            .int32(0x12345678)
            .int32(0x81160008u32 as i32)
            .string_utf8("Hello\nWorld!")
            .finish(),
    );
    assert_eq!(
        ExecuteCommandResponse::disassemble_packet(reply),
        Ok(ExecuteCommandResult::Success {
            log_output: Some(vec!["Hello".to_owned(), "World!".to_owned()])
        })
    );
    let failed = WitcherPacketAssembler::new()
        .int32(0x12345678)
        .int32(0x81160008u32 as i32)
        .string_utf8("Warn: Failed to process command")
        .finish();
    assert_eq!(ExecuteCommandResponse::disassemble_packet(failed), Ok(ExecuteCommandResult::Fail));
    assert_eq!(ExecuteCommandResult::FAIL_OUTPUT, "Warn: Failed to process command");
    assert_eq!(ExecuteCommandResult::SPAM_OUTPUT, "Spam: Command executed without errors");
    assert_eq!(
        ExecuteCommandResult::from_text(""),
        ExecuteCommandResult::Success { log_output: Some(vec!["".to_owned()]) }
    );
    assert_eq!(ExecuteCommandResult::Fail.to_text(), "Warn: Failed to process command");
}

#[test]
fn reload_scripts_with_warning_scenario() {
    let mut client = started_client();
    client.on_raw_packet(1);
    client.on_scripts_reload_progress(2);
    let request = client.reload_scripts();
    assert_eq!(
        request,
        WitcherPacketAssembler::new().string_utf8("scripts").string_utf8("reload").finish()
    );
    assert_eq!(ReloadScripts::disassemble_packet(request), Ok(()));
    let pushed = vec![
        ScriptsReloadProgressParams::Started,
        ScriptsReloadProgressParams::Log { message: "Compiling foo.ws".into() },
        ScriptsReloadProgressParams::Warn {
            line: 12,
            local_script_path: "bar.ws".into(),
            message: "Variable declared, but unused".into(),
        },
        ScriptsReloadProgressParams::Finished { success: true },
    ];
    let mut received = Vec::new();
    for event in pushed.iter() {
        let packet = over_the_wire(ScriptsReloadProgress::assemble_packet(event.clone()));
        let decision = client.accept_packet(&packet);
        assert_eq!(decision, RouteDecision { raw: Some(1), delivery: Delivery::Notification(2) });
        received.push(ScriptsReloadProgress::disassemble_packet(packet).unwrap());
    }
    assert_eq!(received, pushed);
    // success travels as a zero
    let finished = ScriptsReloadProgress::assemble_packet(ScriptsReloadProgressParams::Finished {
        success: true,
    });
    assert_eq!(finished.payload()[2], WitcherPacketData::new_int8(0));
    let failed = WitcherPacketAssembler::new()
        .string_utf8("ScriptCompiler")
        .string_utf8("finished")
        .int8(7)
        .finish();
    assert_eq!(
        ScriptsReloadProgress::disassemble_packet(failed),
        Ok(ScriptsReloadProgressParams::Finished { success: false })
    );
    let started = ScriptsReloadProgress::assemble_packet(ScriptsReloadProgressParams::Started);
    assert_eq!(
        started,
        WitcherPacketAssembler::new()
            .string_utf8("ScriptCompiler")
            .string_utf8("started")
            .int8(0)
            .int8(1)
            .finish()
    );
}

#[test]
fn mod_listing_scenario() {
    let names = ["content0", "mod000_MergedFiles", "modSharedImports", "modBrothersInArms"];
    let packages: Vec<ScriptPackageInfo> = names
        .iter()
        .map(|name| ScriptPackageInfo {
            package_name: name.to_string(),
            abs_scripts_root_path: format!(r"C:\GOG\Witcher 3\Mods\{}\content\scripts", name),
        })
        .collect();
    let reply = over_the_wire(ScriptPackagesResponse::assemble_packet(ScriptPackagesResult {
        packages: packages.clone(),
    }));
    assert_eq!(reply.payload().len(), 2 + 1 + 8);
    assert_eq!(reply.payload()[2], WitcherPacketData::new_int32(4));
    let result = ScriptPackagesResponse::disassemble_packet(reply).unwrap();
    assert_eq!(result.packages, packages);
}

#[test]
fn opcodes_without_class_scenario() {
    let mut client = started_client();
    let request =
        client.opcodes(OpcodesParams { func_name: "additem".into(), class_name: None }, 8);
    assert_eq!(
        request,
        WitcherPacketAssembler::new()
            .string_utf8("ScriptDebugger")
            .string_utf8("OpcodeBreakdownRequest")
            .string_utf16("additem")
            .int8(0)
            .finish()
    );
    assert_eq!(
        Opcodes::disassemble_packet(request),
        Ok(OpcodesParams { func_name: "additem".into(), class_name: None })
    );
    let breakdowns = vec![
        OpcodeBreakdown {
            line: 0,
            opcodes: vec![
                "00000152F45B8361 (   1): Return".into(),
                "00000152F45B8362 (   2): ObjectToBool".into(),
            ],
        },
        OpcodeBreakdown {
            line: 1364,
            opcodes: vec![
                "00000152F45B8363 (   3): Breakpoint".into(),
                "00000152F45B8369 (   9): DynamicCast".into(),
                "00000152F45B8372 (  18): This".into(),
                "00000152F45B8373 (  19): Nop".into(),
            ],
        },
    ];
    let reply = over_the_wire(OpcodesResponse::assemble_packet(OpcodesResult {
        breakdowns: breakdowns.clone(),
    }));
    assert_eq!(reply.payload()[2], WitcherPacketData::new_int32(1));
    assert_eq!(reply.payload()[3], WitcherPacketData::new_string_utf16(""));
    assert_eq!(reply.payload()[4], WitcherPacketData::new_int32(2));
    assert_eq!(
        reply.payload()[6],
        WitcherPacketData::new_string_utf16(
            "00000152F45B8361 (   1): Return\n00000152F45B8362 (   2): ObjectToBool"
        )
    );
    assert_eq!(client.accept_packet(&reply).delivery, Delivery::Response(8));
    assert_eq!(OpcodesResponse::disassemble_packet(reply).unwrap().breakdowns, breakdowns);
}

#[test]
fn config_vars_end_with_a_zero() {
    let mut client = started_client();
    let request = client.config_vars(
        ConfigVarsParams { section_filter: Some("boat".into()), name_filter: Some("yaw".into()) },
        3,
    );
    assert_eq!(
        request,
        WitcherPacketAssembler::new()
            .string_utf8("Config")
            .int32(0xCC00CC00u32 as i32)
            .string_utf8("list")
            .string_utf8("boat")
            .string_utf8("yaw")
            .finish()
    );
    assert_eq!(
        ConfigVars::disassemble_packet(
            WitcherPacketAssembler::new()
                .string_utf8("Config")
                .int32(0xCC00CC00u32 as i32)
                .string_utf8("list")
                .string_utf8("")
                .string_utf8("")
                .finish()
        ),
        Ok(ConfigVarsParams { section_filter: None, name_filter: None })
    );
    let var = ConfigVarInfo {
        section: "Visuals".into(),
        name: "GammaValue".into(),
        value: "1".into(),
        data_type: 2,
        _unknown0: 9,
    };
    let reply = ConfigVarsResponse::assemble_packet(ConfigVarsResult { vars: vec![var.clone()] });
    assert_eq!(
        reply,
        WitcherPacketAssembler::new()
            .int32(0xCC00CC00u32 as i32)
            .string_utf8("vars")
            .int8(2)
            .int8(9)
            .string_utf8("GammaValue")
            .string_utf8("Visuals")
            .string_utf8("1")
            .int8(0)
            .finish()
    );
    assert_eq!(client.accept_packet(&reply).delivery, Delivery::Response(3));
    // what follows the zero is not read
    let trailing = reply.clone().append_int8(4);
    assert_eq!(ConfigVarsResponse::disassemble_packet(trailing).unwrap().vars, vec![var]);
    let unfinished = WitcherPacketAssembler::new()
        .int32(0xCC00CC00u32 as i32)
        .string_utf8("vars")
        .int8(2)
        .int8(9)
        .string_utf8("GammaValue")
        .finish();
    assert_eq!(
        ConfigVarsResponse::disassemble_packet(unfinished),
        Err(MessageError::InvalidBody(DisassembleError {
            kind: DisassembleErrorKind::NoMoreData,
            context: "section"
        }))
    );
}

#[test]
fn responses_are_served_first_come_first_served() {
    let mut client = started_client();
    let first = client.execute_command(ExecuteCommandParams { cmd: "one()".into() }, 100);
    let second = client.execute_command(ExecuteCommandParams { cmd: "two()".into() }, 200);
    let other = client.scripts_root_path(300);
    assert_eq!(ExecuteCommand::disassemble_packet(first).unwrap().cmd, "one()");
    assert_eq!(ExecuteCommand::disassemble_packet(second).unwrap().cmd, "two()");
    assert!(ScriptsRootPath::disassemble_packet(other).is_ok());
    let reply = |text: &str| {
        over_the_wire(ExecuteCommandResponse::assemble_packet(ExecuteCommandResult::Success {
            log_output: Some(vec![text.to_owned()]),
        }))
    };
    assert_eq!(client.accept_packet(&reply("S1")).delivery, Delivery::Response(100));
    assert_eq!(client.accept_packet(&reply("S2")).delivery, Delivery::Response(200));
    // every waiter is served once
    assert_eq!(client.accept_packet(&reply("S3")).delivery, Delivery::Dropped);
    let path = ScriptsRootPathResponse::assemble_packet(ScriptsRootPathResult {
        abs_path: "x".into(),
    });
    assert_eq!(client.accept_packet(&path).delivery, Delivery::Response(300));
    assert_eq!(client.accept_packet(&path).delivery, Delivery::Dropped);
}

#[test]
fn router_prefers_subscribers_and_replaces_them() {
    let mut router = Router::new();
    let progress =
        ScriptsReloadProgress::assemble_packet(ScriptsReloadProgressParams::Started);
    // an unknown packet still reaches the raw handler
    router.set_raw_packet_callback(9);
    assert_eq!(
        router.route(&progress),
        RouteDecision { raw: Some(9), delivery: Delivery::Dropped }
    );
    router.set_notification_callback::<ScriptsReloadProgress>(1);
    assert_eq!(router.route(&progress).delivery, Delivery::Notification(1));
    router.set_notification_callback::<ScriptsReloadProgress>(2);
    assert_eq!(router.route(&progress).delivery, Delivery::Notification(2));
    assert_eq!(router.route(&progress).delivery, Delivery::Notification(2));
    router.add_response_callback::<ScriptsRootPathResponse>(3);
    router.add_response_callback::<ScriptsRootPathResponse>(4);
    router.set_raw_packet_callback(10);
    let path = ScriptsRootPathResponse::assemble_packet(ScriptsRootPathResult {
        abs_path: "x".into(),
    });
    assert_eq!(
        router.route(&path),
        RouteDecision { raw: Some(10), delivery: Delivery::Response(3) }
    );
    assert_eq!(router.route(&progress).delivery, Delivery::Notification(2));
    assert_eq!(router.route(&path).delivery, Delivery::Response(4));
    assert_eq!(router.route(&path).delivery, Delivery::Dropped);
    assert_eq!(router.route(&WitcherPacket::new()).delivery, Delivery::Dropped);
}

#[test]
fn reader_polls_until_it_is_cancelled() {
    assert_eq!(Router::event_loop_step(true, None, None), ReaderAction::Stop);
    assert_eq!(Router::event_loop_step(true, Some(true), Some(5)), ReaderAction::Stop);
    assert_eq!(Router::event_loop_step(false, None, None), ReaderAction::Peek);
    assert_eq!(Router::event_loop_step(false, Some(true), None), ReaderAction::Receive);
    assert_eq!(Router::event_loop_step(false, Some(false), None), ReaderAction::Sleep(500));
    assert_eq!(Router::event_loop_step(false, Some(false), Some(20)), ReaderAction::Sleep(20));
}

#[test]
fn longest_identifier_wins() {
    let mut registry = MessageIdRegistry::new();
    let progress = registry.register_message::<ScriptsReloadProgress>();
    let path = registry.register_message::<ScriptsRootPathResponse>();
    assert_eq!(progress.len(), 1);
    assert_eq!(path.len(), 2);
    assert_eq!(registry.len(), 2);
    assert_eq!(registry.register_message::<ScriptsReloadProgress>(), progress);
    assert_eq!(registry.len(), 2);
    let reply = ScriptsRootPathResponse::assemble_packet(ScriptsRootPathResult {
        abs_path: "x".into(),
    });
    assert_eq!(registry.probe_message_id(&reply), Some(path.clone()));
    assert_eq!(registry.probe_slot(&reply), Some(1));
    let log = ScriptsReloadProgress::assemble_packet(ScriptsReloadProgressParams::Log {
        message: "RootPathConfirm".into(),
    });
    assert_eq!(registry.probe_message_id(&log), Some(progress.clone()));
    assert_eq!(registry.probe_slot(&log), Some(0));
    assert_eq!(registry.probe_message_id(&WitcherPacket::new()), None);
    assert_eq!(
        registry.probe_message_id(&WitcherPacketAssembler::new().string_utf8("scripts").finish()),
        None
    );
    // the identifier alone is a match, and a value's kind is part of it
    assert_eq!(
        registry.probe_message_id(
            &WitcherPacketAssembler::new().string_utf8("ScriptCompiler").finish()
        ),
        Some(progress)
    );
    assert_eq!(
        registry.probe_message_id(
            &WitcherPacketAssembler::new().string_utf16("ScriptCompiler").finish()
        ),
        None
    );
    assert!(path.same_as(&path.clone()));
    assert_eq!(path.values().len(), 2);
}

#[test]
fn server_messages_are_all_told_apart() {
    let mut registry = MessageIdRegistry::new();
    registry.register_server_messages();
    assert_eq!(registry.len(), 6);
    let packets = vec![
        ScriptsReloadProgress::assemble_packet(ScriptsReloadProgressParams::Started),
        ScriptsRootPathResponse::assemble_packet(ScriptsRootPathResult { abs_path: "x".into() }),
        ExecuteCommandResponse::assemble_packet(ExecuteCommandResult::Fail),
        ScriptPackagesResponse::assemble_packet(ScriptPackagesResult { packages: vec![] }),
        OpcodesResponse::assemble_packet(OpcodesResult { breakdowns: vec![] }),
        ConfigVarsResponse::assemble_packet(ConfigVarsResult { vars: vec![] }),
    ];
    for (slot, packet) in packets.iter().enumerate() {
        assert_eq!(registry.probe_slot(packet), Some(slot));
    }
}

#[test]
fn client_is_started_once_and_stopped_after() {
    let mut client = WitcherClient::new();
    assert!(!client.was_started());
    assert_eq!(client.stop(), Err(LifecycleError::NotStarted));
    let listens = client.start().unwrap();
    let namespaces = [
        WitcherNamespace::Config,
        WitcherNamespace::Remote,
        WitcherNamespace::ScriptCompiler,
        WitcherNamespace::ScriptDebugger,
        WitcherNamespace::ScriptProfiler,
        WitcherNamespace::Scripts,
        WitcherNamespace::Utility,
    ];
    assert_eq!(listens.len(), 7);
    for (packet, namesp) in listens.into_iter().zip(namespaces) {
        assert_eq!(
            packet,
            WitcherPacketAssembler::new().string_utf8("BIND").string_utf8(namesp.as_str()).finish()
        );
        assert_eq!(
            ListenToNamespace::disassemble_packet(packet),
            Ok(ListenToNamespaceParams { namesp })
        );
    }
    assert!(client.was_started());
    assert_eq!(client.start().err(), Some(LifecycleError::AlreadyStarted));
    // a waiter that is left when the client stops is given up
    client.scripts_root_path(1);
    client.on_scripts_reload_progress(2);
    assert_eq!(client.stop(), Ok(()));
    let path = ScriptsRootPathResponse::assemble_packet(ScriptsRootPathResult {
        abs_path: "x".into(),
    });
    assert_eq!(client.accept_packet(&path).delivery, Delivery::Dropped);
    let progress = ScriptsReloadProgress::assemble_packet(ScriptsReloadProgressParams::Started);
    assert_eq!(client.accept_packet(&progress).delivery, Delivery::Notification(2));
    assert!(!client.was_started());
    assert_eq!(client.stop(), Err(LifecycleError::NotStarted));
}

#[test]
fn peek_sees_a_packet_once_six_bytes_are_there() {
    assert_eq!(peek(PeekOutcome::Available(6)), Some(true));
    assert_eq!(peek(PeekOutcome::Available(5)), Some(false));
    assert_eq!(peek(PeekOutcome::Available(0)), Some(false));
    assert_eq!(peek(PeekOutcome::TimedOut), Some(false));
    assert_eq!(peek(PeekOutcome::WouldBlock), Some(false));
    assert_eq!(peek(PeekOutcome::Failed), None);
    assert!(valid_read_timeout(1));
    assert!(!valid_read_timeout(0));
    assert_eq!(WitcherPort::Game.as_number(), 37001);
    assert_eq!(WitcherPort::Editor.as_number(), 37000);
    assert_eq!(WitcherPort::Custom(8080).as_number(), 8080);
    assert_eq!(WitcherPort::default(), WitcherPort::Game);
    assert_eq!(frame_size(&[0xDE, 0xAD, 0x01, 0x02]), Ok(0x0102));
    assert_eq!(frame_size(&[0xDE, 0xAD, 0x00, 0x05]).unwrap_err().kind, DecodeErrorKind::SizeTooSmall);
    assert_eq!(frame_size(&[0xDE, 0xAD, 0x00]).unwrap_err().kind, DecodeErrorKind::UnexpectedEof);
    assert_eq!(frame_size(&[0xDE, 0xAE, 0x00, 0x06]).unwrap_err().kind, DecodeErrorKind::Mismatch);
}

#[test]
fn namespaces_go_by_their_names() {
    let names = [
        (WitcherNamespace::ScriptDebugger, "ScriptDebugger"),
        (WitcherNamespace::ScriptProfiler, "ScriptProfiler"),
        (WitcherNamespace::ScriptCompiler, "ScriptCompiler"),
        (WitcherNamespace::Scripts, "scripts"),
        (WitcherNamespace::Remote, "Remote"),
        (WitcherNamespace::Utility, "Utility"),
        (WitcherNamespace::Config, "Config"),
    ];
    for (namespace, name) in names {
        assert_eq!(namespace.as_str(), name);
        assert_eq!(WitcherNamespace::from_name(name), Some(namespace));
    }
    assert_eq!(WitcherNamespace::from_name("Scripts"), None);
    assert_eq!(
        ListenToNamespace::disassemble_packet(
            WitcherPacketAssembler::new().string_utf8("BIND").string_utf8("Nowhere").finish()
        ),
        Err(MessageError::InvalidBody(DisassembleError {
            kind: DisassembleErrorKind::UnknownVariant,
            context: ""
        }))
    );
}

#[test]
fn disassembly_errors_say_what_failed() {
    let error = |kind, context| DisassembleError { kind, context };
    assert_eq!(
        ScriptsRootPathResponse::disassemble_packet(WitcherPacket::new()),
        Err(MessageError::InvalidId(error(DisassembleErrorKind::NoMoreData, "")))
    );
    assert_eq!(
        ScriptsRootPathResponse::disassemble_packet(
            WitcherPacketAssembler::new().string_utf16("ScriptCompiler").finish()
        ),
        Err(MessageError::InvalidId(error(DisassembleErrorKind::TypeMismatch, "")))
    );
    assert_eq!(
        ScriptsRootPathResponse::disassemble_packet(
            WitcherPacketAssembler::new().string_utf8("ScriptCompiler").string_utf8("RootPath").finish()
        ),
        Err(MessageError::InvalidId(error(DisassembleErrorKind::UnexpectedValue, "")))
    );
    assert_eq!(
        ScriptsRootPathResponse::disassemble_packet(
            WitcherPacketAssembler::new()
                .string_utf8("ScriptCompiler")
                .string_utf8("RootPathConfirm")
                .string_utf8("not utf16")
                .finish()
        ),
        Err(MessageError::InvalidBody(error(DisassembleErrorKind::TypeMismatch, "abs_path")))
    );
    assert_eq!(
        ScriptsReloadProgress::disassemble_packet(
            WitcherPacketAssembler::new().string_utf8("ScriptCompiler").string_utf8("paused").finish()
        ),
        Err(MessageError::InvalidBody(error(DisassembleErrorKind::UnknownVariant, "")))
    );
    assert_eq!(
        ScriptsReloadProgress::disassemble_packet(
            WitcherPacketAssembler::new()
                .string_utf8("ScriptCompiler")
                .string_utf8("warn")
                .uint32(1)
                .string_utf16("a.ws")
                .finish()
        ),
        Err(MessageError::InvalidBody(error(DisassembleErrorKind::NoMoreData, "warn::message")))
    );
    assert_eq!(
        ExecuteCommandResponse::disassemble_packet(
            WitcherPacketAssembler::new().int32(0x12345678).int32(1).finish()
        ),
        Err(MessageError::InvalidId(error(DisassembleErrorKind::UnexpectedValue, "")))
    );
    assert_eq!(
        ScriptPackagesResponse::disassemble_packet(
            WitcherPacketAssembler::new()
                .string_utf8("scripts")
                .string_utf8("pkgSyncListing")
                .int32(2)
                .string_utf16("content0")
                .string_utf16("path")
                .string_utf16("mod")
                .finish()
        ),
        Err(MessageError::InvalidBody(error(
            DisassembleErrorKind::NoMoreData,
            "abs_package_path"
        )))
    );
    assert_eq!(
        ScriptPackagesResponse::disassemble_packet(
            WitcherPacketAssembler::new()
                .string_utf8("scripts")
                .string_utf8("pkgSyncListing")
                .int32(-3)
                .finish()
        ),
        Ok(ScriptPackagesResult { packages: vec![] })
    );
}

#[test]
fn disassembler_takes_values_in_order() {
    let packet = WitcherPacketAssembler::new()
        .int8(1)
        .int16(2)
        .int32(3)
        .uint32(4)
        .int64(5)
        .string_utf8("six")
        .string_utf16("seven")
        .int8(8)
        .finish();
    let mut dasm = WitcherPacketDisassembler::new(packet);
    assert_eq!(dasm.remaining(), 8);
    assert_eq!(dasm.fixed_int8(1), Ok(1));
    assert_eq!(dasm.fixed_int16(2), Ok(2));
    assert_eq!(dasm.fixed_int32(3), Ok(3));
    assert_eq!(dasm.fixed_uint32(4), Ok(4));
    assert_eq!(dasm.fixed_int64(5), Ok(5));
    assert_eq!(dasm.fixed_string_utf8("six").unwrap().0, "six");
    assert_eq!(dasm.fixed_string_utf16("seven").unwrap().0, "seven");
    assert_eq!(dasm.any(), Ok(WitcherPacketData::new_int8(8)));
    assert_eq!(dasm.remaining(), 0);
    assert_eq!(dasm.int8().unwrap_err().kind, DisassembleErrorKind::NoMoreData);
    let mut dasm = WitcherPacketDisassembler::new(
        WitcherPacketAssembler::new().int8(1).int8(2).int8(3).finish(),
    );
    // a value of another type is taken all the same
    assert_eq!(dasm.int16().unwrap_err().kind, DisassembleErrorKind::TypeMismatch);
    assert_eq!(dasm.fixed_int8(9).unwrap_err().kind, DisassembleErrorKind::UnexpectedValue);
    assert_eq!(dasm.int8(), Ok(3));
    assert_eq!(
        WitcherPacketAssembler::new().int8(1).finish_as_payload(),
        vec![WitcherPacketData::new_int8(1)]
    );
}

#[test]
fn lines_split_and_join() {
    assert_eq!(split_lines("a\nb"), vec!["a", "b"]);
    assert_eq!(split_lines(""), vec![""]);
    assert_eq!(split_lines("\n"), vec!["", ""]);
    assert_eq!(split_lines("ż\n\nź\n"), vec!["ż", "", "ź", ""]);
    assert_eq!(join_lines(&vec!["a".to_owned(), "b".to_owned()]), "a\nb");
    assert_eq!(join_lines(&vec![]), "");
    assert_eq!(join_lines(&vec!["".to_owned(), "".to_owned()]), "\n");
    let lines = vec!["one".to_owned(), "".to_owned(), "thrée".to_owned()];
    assert_eq!(split_lines(&join_lines(&lines)), lines);
}
