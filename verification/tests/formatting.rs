use rw3d::fmt::{
    bytes_precede, contains_text, decimal_text, pad_text, repeat_text, signed_decimal_text,
    sort_ranked, text_precedes,
};
use rw3d::local_subcommands::{
    scriptslog_colors_to_highlight_records, scriptslog_printer, Color, LogLine,
    ScriptslogColors, ScriptslogHighlightRecord,
};
use rw3d::messages::notifications::ScriptsReloadProgressParams;
use rw3d::messages::requests::{
    ConfigVarInfo, ConfigVarsResult, ExecuteCommandResult, OpcodeBreakdown, OpcodesResult,
    ScriptPackageInfo, ScriptPackagesResult, ScriptsRootPathResult,
};
use rw3d::protocol::encoding::UnknownTag;
use rw3d::protocol::packet::WitcherPacket;
use rw3d::protocol::packet_assembly::WitcherPacketAssembler;
use rw3d::protocol::packet_data::WitcherPacketData;
use rw3d::protocol::stream::{DecodeError, DecodeErrorKind, Field};
use rw3d::response_handling::{
    print_exec_result, print_mod_list_result, print_opcodes, print_raw_packet,
    print_root_path_result, print_var_list, LineColor, OutputLine, ScriptsReloadPrinter,
};
use rw3d::scriptslog::{tail_position, tail_scriptslog, try_tail_scriptslog};
use rw3d::server_subcommands::{
    read_responses, target_port, try_connect, ConnectionTarget, ResponseWait,
};
use rw3d::utils::{
    default_formatter, mod_list_formatter, opcode_formatter, scripts_execute_formatter,
    scripts_reload_formatter, scripts_reload_response_type, scripts_root_path_formatter,
    var_list_formatter, ScriptsReloadResponseType, VarlistEntry,
};

#[test]
fn numbers_are_written_in_decimal() {
    assert_eq!(decimal_text(0), "0");
    assert_eq!(decimal_text(7), "7");
    assert_eq!(decimal_text(10), "10");
    assert_eq!(decimal_text(1234567890), "1234567890");
    assert_eq!(decimal_text(u64::MAX), u64::MAX.to_string());
    assert_eq!(signed_decimal_text(0), "0");
    assert_eq!(signed_decimal_text(-1), "-1");
    assert_eq!(signed_decimal_text(i64::MIN), i64::MIN.to_string());
    assert_eq!(signed_decimal_text(i64::MAX), i64::MAX.to_string());
}

#[test]
fn texts_are_padded_and_repeated() {
    assert_eq!(pad_text("ab", 5), "ab   ");
    assert_eq!(pad_text("abcde", 5), "abcde");
    assert_eq!(pad_text("abcdef", 5), "abcdef");
    // the width counts characters, not bytes
    assert_eq!(pad_text("żół", 5), format!("{:5}", "żół"));
    assert_eq!(repeat_text("-", 3), "---");
    assert_eq!(repeat_text("-", 0), "");
}

#[test]
fn texts_are_ordered_by_their_bytes() {
    let samples = ["", "a", "A", "aa", "ab", "b", "ż", "z", "zz", "Zażółć", "\u{1F600}"];
    for a in samples {
        for b in samples {
            assert_eq!(text_precedes(a, b), a <= b, "{:?} {:?}", a, b);
            assert_eq!(bytes_precede(a.as_bytes(), b.as_bytes()), a.as_bytes() <= b.as_bytes());
        }
    }
}

#[test]
fn texts_are_searched() {
    assert!(contains_text("Compiling functions", "functions"));
    assert!(contains_text("Compiling functions", ""));
    assert!(contains_text("", ""));
    assert!(contains_text("abc", "abc"));
    assert!(!contains_text("abc", "abcd"));
    assert!(!contains_text("abc", "ca"));
    assert!(contains_text("zażółć", "żó"));
    let samples = ["", "a", "ab", "ba", "aab", "abab", "zażółć", "żó", "ół"];
    for hay in samples {
        for needle in samples {
            assert_eq!(contains_text(hay, needle), hay.contains(needle));
        }
    }
}

#[test]
fn sorting_is_stable() {
    let sorted = sort_ranked(vec!["b".to_owned(), "a".to_owned(), "c".to_owned(), "a".to_owned()]);
    assert_eq!(sorted, vec!["a", "a", "b", "c"]);
    assert_eq!(sort_ranked(Vec::<String>::new()), Vec::<String>::new());
    let row = |section: &str, variable: &str, value: &str| VarlistEntry {
        section: section.to_owned(),
        variable: variable.to_owned(),
        value: value.to_owned(),
    };
    let rows = sort_ranked(vec![
        row("B", "x", "1"),
        row("A", "y", "2"),
        row("B", "a", "3"),
        row("A", "y", "4"),
        row("A", "b", "5"),
    ]);
    let values: Vec<&str> = rows.iter().map(|r| r.value.as_str()).collect();
    assert_eq!(values, vec!["5", "2", "4", "3", "1"]);
}

#[test]
fn values_and_packets_have_a_text() {
    assert_eq!(WitcherPacketData::new_int8(-5).display_text(), "-5");
    assert_eq!(WitcherPacketData::new_int16(300).display_text(), "300");
    assert_eq!(WitcherPacketData::new_int32(i32::MIN).display_text(), "-2147483648");
    assert_eq!(WitcherPacketData::new_uint32(u32::MAX).display_text(), "4294967295");
    assert_eq!(WitcherPacketData::new_int64(9).display_text(), "9");
    assert_eq!(WitcherPacketData::new_string_utf8("a b").display_text(), "a b");
    assert_eq!(WitcherPacketData::new_string_utf16("ż").display_text(), "ż");
    assert_eq!(
        WitcherPacketData::new_unknown(UnknownTag([18, 52])).display_text(),
        format!("{:?}", UnknownTag([18, 52]))
    );
    assert_eq!(WitcherPacketData::new_int8(-5).debug_text(), "Type: Int8\nValue: -5");
    assert_eq!(WitcherPacketData::new_uint32(5).debug_text(), "Type: UInt32\nValue: 5");
    assert_eq!(
        WitcherPacketData::new_string_utf8("żół").debug_text(),
        "Type: StringUTF8\nLength: 3\nValue: żół"
    );
    assert_eq!(
        WitcherPacketData::new_string_utf16("ab").debug_text(),
        "Type: StringUTF16\nLength: 2\nValue: ab"
    );
    assert_eq!(
        WitcherPacketData::new_unknown(UnknownTag([1, 2])).debug_text(),
        "Type: Unknown\nValue: UnknownTag([1, 2])"
    );
    let packet = WitcherPacketAssembler::new().string_utf8("BIND").int8(3).finish();
    assert_eq!(packet.display_text(), "BIND 3 ");
    assert_eq!(default_formatter(&packet), "BIND 3 ");
    assert_eq!(WitcherPacket::new().display_text(), "");
    let rule = "-".repeat(51);
    assert_eq!(
        packet.debug_text(),
        format!(
            "{rule}\n                PACKET (19 bytes)\n{rule}\nType: StringUTF8\nLength: 4\nValue: BIND\n\nType: Int8\nValue: 3\n{rule}"
        )
    );
    assert_eq!(print_raw_packet(&packet), packet.debug_text());
    assert_eq!(
        WitcherPacket::new().debug_text(),
        format!("{rule}\n                PACKET (6 bytes)\n{rule}{rule}")
    );
}

#[test]
fn decode_errors_have_a_message() {
    let message = |kind, field| DecodeError { kind, field }.message();
    assert_eq!(message(DecodeErrorKind::UnexpectedEof, Field::PacketHead), "No packet head");
    assert_eq!(message(DecodeErrorKind::Mismatch, Field::PacketTail), "Invalid packet tail");
    assert_eq!(message(DecodeErrorKind::Mismatch, Field::Utf8Length), "Invalid encoding tag");
    assert_eq!(
        message(DecodeErrorKind::UnexpectedEof, Field::Utf16Content),
        "Failed to read UTF16 string contents"
    );
    assert_eq!(message(DecodeErrorKind::NegativeLength, Field::Utf8Length), "Negative string length");
    assert_eq!(
        message(DecodeErrorKind::SizeTooSmall, Field::PacketSize),
        "Packet size below the minimum"
    );
}

fn reload(kind: &str) -> WitcherPacketAssembler {
    WitcherPacketAssembler::new().string_utf8("ScriptCompiler").string_utf8(kind)
}

#[test]
fn reload_reports_are_put_in_words() {
    let started = reload("started").int8(0).int8(1).finish();
    assert!(matches!(scripts_reload_response_type(&started), Ok(ScriptsReloadResponseType::Started)));
    assert_eq!(scripts_reload_formatter(&started), "Script compilation started...");
    let log = reload("log").string_utf16("Compiling foo.ws").finish();
    assert_eq!(scripts_reload_formatter(&log), "Compiling foo.ws");
    let warn = reload("warn").uint32(12).string_utf16("bar.ws").string_utf16("unused").finish();
    assert_eq!(scripts_reload_formatter(&warn), "[Warning] bar.ws(12): unused");
    match scripts_reload_response_type(&warn) {
        Ok(ScriptsReloadResponseType::Warn { file, line, msg }) => {
            assert_eq!((file.as_str(), line.as_str(), msg.as_str()), ("bar.ws", "12", "unused"));
        }
        _ => panic!("a warning was expected"),
    }
    let error = reload("error").uint32(7).string_utf16("a.ws").string_utf16("bad").finish();
    assert_eq!(scripts_reload_formatter(&error), "[Error] a.ws(7): bad");
    assert_eq!(
        scripts_reload_formatter(&reload("finished").int8(0).finish()),
        "Script compilation finished successfully."
    );
    assert_eq!(
        scripts_reload_formatter(&reload("finished").int8(1).finish()),
        "Script compilation finished with errors."
    );
    // what is no report is shown as it is
    let short = reload("warn").uint32(12).finish();
    assert_eq!(scripts_reload_response_type(&short).err().unwrap(), "Invalid packet format");
    assert_eq!(scripts_reload_formatter(&short), "ScriptCompiler warn 12 ");
    let other = reload("paused").int8(1).finish();
    assert_eq!(scripts_reload_formatter(&other), "ScriptCompiler paused 1 ");
    assert_eq!(scripts_reload_formatter(&WitcherPacket::new()), "");
}

#[test]
fn responses_are_formatted() {
    let path = reload("RootPathConfirm").string_utf16(r"C:\scripts").finish();
    assert_eq!(scripts_root_path_formatter(&path), r"C:\scripts");
    assert_eq!(scripts_root_path_formatter(&reload("x").int8(1).finish()), "ScriptCompiler x 1 ");
    let exec = WitcherPacketAssembler::new().int32(1).int32(2).string_utf8("done").finish();
    assert_eq!(scripts_execute_formatter(&exec), "done");
    assert_eq!(scripts_execute_formatter(&WitcherPacket::new().append_int8(1)), "1 ");
    let mods = WitcherPacketAssembler::new()
        .string_utf8("scripts")
        .string_utf8("pkgSyncListing")
        .int32(3)
        .string_utf16("modB")
        .string_utf16("pathB")
        .string_utf16("content0")
        .string_utf16("path0")
        .string_utf16("modA")
        .string_utf16("pathA")
        .finish();
    assert_eq!(mod_list_formatter(&mods), "Mods installed: 3\ncontent0\nmodA\nmodB\n");
    let odd = WitcherPacketAssembler::new()
        .string_utf8("scripts")
        .string_utf8("pkgSyncListing")
        .string_utf8("?")
        .string_utf16("modB")
        .finish();
    assert_eq!(mod_list_formatter(&odd), "modB\n");
    assert_eq!(mod_list_formatter(&exec), "1 2 done ");
    let opcodes = WitcherPacketAssembler::new()
        .string_utf8("ScriptDebugger")
        .string_utf8("OpcodeBreakdownResponse")
        .int32(1)
        .string_utf16("")
        .int32(2)
        .int32(0)
        .string_utf16("first")
        .int32(5)
        .string_utf16("second")
        .finish();
    assert_eq!(opcode_formatter(&opcodes), "firstsecond");
    assert_eq!(opcode_formatter(&exec), "1 2 done ");
}

#[test]
fn variables_are_listed_in_a_table() {
    let response = WitcherPacketAssembler::new()
        .int32(-872363008)
        .string_utf8("vars")
        .int8(2)
        .int8(0)
        .string_utf8("Gamma")
        .string_utf8("Visuals")
        .string_utf8("1")
        .int8(1)
        .int8(0)
        .string_utf8("Cloth")
        .string_utf8("Visuals")
        .string_utf8("false")
        .int8(4)
        .int8(0)
        .string_utf8("Name")
        .string_utf8("Audio")
        .string_utf8("x")
        .int8(0)
        .finish();
    let rule = format!("{}+-{}+-{}\n", "-".repeat(40), "-".repeat(45), "-".repeat(40));
    let row = |s: &str, v: &str, x: &str| format!("{:40}| {:45}| {}\n", s, v, x);
    let expected = format!(
        "{rule}{}{rule}{}{}{}",
        row("Section", "Variable", "Value"),
        row("Audio", "Name", "x"),
        row("Visuals", "Cloth", "false"),
        row("Visuals", "Gamma", "1"),
    );
    assert_eq!(var_list_formatter(&response), expected);
    assert_eq!(
        var_list_formatter(&WitcherPacketAssembler::new().int8(1).string_utf8("vars").finish()),
        "1 vars "
    );
    let printed = print_var_list(ConfigVarsResult {
        vars: vec![
            ConfigVarInfo {
                section: "Visuals".into(),
                name: "Gamma".into(),
                value: "1".into(),
                data_type: 2,
                _unknown0: 0,
            },
            ConfigVarInfo {
                section: "Audio".into(),
                name: "Name".into(),
                value: "x".into(),
                data_type: 4,
                _unknown0: 0,
            },
        ],
    });
    let rule = format!("{}+-{}+-{}", "-".repeat(40), "-".repeat(45), "-".repeat(40));
    assert_eq!(
        printed,
        vec![
            rule.clone(),
            format!("{:40}| {:45}| {}", "Section", "Variable", "Value"),
            rule,
            format!("{:40}| {:45}| {}", "Audio", "Name", "x"),
            format!("{:40}| {:45}| {}", "Visuals", "Gamma", "1"),
        ]
    );
}

fn plain(text: &str) -> OutputLine {
    OutputLine { text: text.to_owned(), color: LineColor::Plain }
}

#[test]
fn reload_printer_sums_up_at_the_end() {
    let mut printer = ScriptsReloadPrinter::new(false);
    let output = printer.print_progress(ScriptsReloadProgressParams::Started);
    assert_eq!(output.lines, vec![plain("Script compilation started...")]);
    assert!(!output.finished);
    let output =
        printer.print_progress(ScriptsReloadProgressParams::Log { message: "Compiling".into() });
    assert_eq!(output.lines, vec![plain("Compiling")]);
    let output = printer.print_progress(ScriptsReloadProgressParams::Warn {
        line: 12,
        local_script_path: "bar.ws".into(),
        message: "Variable declared, but unused".into(),
    });
    assert_eq!(output.lines, vec![plain("[Warning] bar.ws(12): Variable declared, but unused")]);
    let output = printer.print_progress(ScriptsReloadProgressParams::Error {
        line: 3,
        local_script_path: "foo.ws".into(),
        message: "bad".into(),
    });
    assert_eq!(output.lines, vec![plain("[Error] foo.ws(3): bad")]);
    let output = printer.print_progress(ScriptsReloadProgressParams::Finished { success: false });
    assert!(output.finished);
    assert_eq!(
        output.lines,
        vec![
            plain("Script compilation finished with errors."),
            plain(""),
            plain("========== 1 Errors, 1 Warnings =========="),
            OutputLine { text: "[Error] foo.ws(3): bad".into(), color: LineColor::Red },
            plain(""),
            OutputLine {
                text: "[Warning] bar.ws(12): Variable declared, but unused".into(),
                color: LineColor::Yellow
            },
        ]
    );
    let mut clean = ScriptsReloadPrinter::new(false);
    let output = clean.print_progress(ScriptsReloadProgressParams::Finished { success: true });
    assert_eq!(output.lines, vec![plain("Script compilation finished successfully.")]);
    assert_eq!(clean.print_summary(), vec![plain("========== 0 Errors, 0 Warnings ==========")]);
    let mut verbose = ScriptsReloadPrinter::new(true);
    let output = verbose.print_progress(ScriptsReloadProgressParams::Warn {
        line: 1,
        local_script_path: "a".into(),
        message: "b".into(),
    });
    assert!(output.lines.is_empty());
    let output = verbose.print_progress(ScriptsReloadProgressParams::Finished { success: true });
    assert!(output.lines.is_empty());
    assert!(output.finished);
}

#[test]
fn results_are_printed() {
    assert_eq!(
        print_exec_result(ExecuteCommandResult::Success {
            log_output: Some(vec!["Hello".into(), "World!".into()])
        }),
        "Hello\nWorld!"
    );
    assert_eq!(
        print_exec_result(ExecuteCommandResult::Success { log_output: None }),
        "Command executed successfully"
    );
    assert_eq!(print_exec_result(ExecuteCommandResult::Fail), "Command failed to execute");
    assert_eq!(print_root_path_result(ScriptsRootPathResult { abs_path: "C:\\x".into() }), "C:\\x");
    let package = |name: &str| ScriptPackageInfo {
        package_name: name.to_owned(),
        abs_scripts_root_path: "p".into(),
    };
    assert_eq!(
        print_mod_list_result(ScriptPackagesResult {
            packages: vec![package("modZ"), package("content0"), package("modA")]
        }),
        vec!["Mods installed: 2", "modA", "modZ"]
    );
    assert_eq!(
        print_mod_list_result(ScriptPackagesResult { packages: vec![package("content0")] }),
        vec!["Mods installed: 0"]
    );
    assert_eq!(
        print_opcodes(OpcodesResult {
            breakdowns: vec![
                OpcodeBreakdown { line: 0, opcodes: vec!["Return".into(), "Nop".into()] },
                OpcodeBreakdown { line: -4, opcodes: vec![] },
            ]
        }),
        vec!["Line 0", "Opcodes: ", "Return", "Nop", "Line -4", "Opcodes: "]
    );
}

#[test]
fn script_log_lines_are_highlighted() {
    let colors = ScriptslogColors {
        red: vec!["Error".into(), "Fatal".into()],
        black: vec!["dark".into()],
        white: vec!["light".into()],
        green: vec!["ok".into()],
        ..Default::default()
    };
    let records = scriptslog_colors_to_highlight_records(colors);
    let record = |pattern: &str, fg, bg| ScriptslogHighlightRecord {
        pattern: pattern.to_owned(),
        fg,
        bg,
    };
    assert_eq!(
        records,
        vec![
            record("dark", Color::White, Color::Black),
            record("Error", Color::White, Color::Red),
            record("Fatal", Color::White, Color::Red),
            record("ok", Color::Black, Color::Green),
            record("light", Color::Black, Color::White),
        ]
    );
    let all = ScriptslogColors {
        black: vec!["1".into()],
        red: vec!["2".into()],
        green: vec!["3".into()],
        yellow: vec!["4".into()],
        blue: vec!["5".into()],
        magenta: vec!["6".into()],
        cyan: vec!["7".into()],
        white: vec!["8".into()],
    };
    let pairs: Vec<(Color, Color)> =
        scriptslog_colors_to_highlight_records(all).iter().map(|r| (r.fg, r.bg)).collect();
    assert_eq!(
        pairs,
        vec![
            (Color::White, Color::Black),
            (Color::White, Color::Red),
            (Color::Black, Color::Green),
            (Color::Black, Color::Yellow),
            (Color::White, Color::Blue),
            (Color::White, Color::Magenta),
            (Color::Black, Color::Cyan),
            (Color::Black, Color::White),
        ]
    );
    let text = "all ok\nFatal Error\nnothing\n".to_owned();
    let line = |text: &str, colors| LogLine { text: text.to_owned(), colors };
    assert_eq!(
        scriptslog_printer(&text, &records, false),
        vec![
            line("all ok", Some((Color::Black, Color::Green))),
            line("Fatal Error", Some((Color::White, Color::Red))),
            line("nothing", None),
            line("", None),
        ]
    );
    assert_eq!(
        scriptslog_printer(&text, &records, true),
        vec![
            line("all ok", Some((Color::Black, Color::Green))),
            line("Fatal Error", Some((Color::White, Color::Red))),
        ]
    );
    assert_eq!(scriptslog_printer(&"x".to_owned(), &vec![], true), vec![]);
}

#[test]
fn script_log_is_followed() {
    assert_eq!(tail_position(10, 20), 10);
    assert_eq!(tail_position(20, 20), 20);
    assert_eq!(tail_position(21, 20), 0);
    let step = tail_scriptslog(5, b"  line one\nline two \n");
    assert_eq!(step.last_pos, 26);
    assert_eq!(step.text.as_deref(), Some("line one\nline two"));
    let step = tail_scriptslog(5, b"");
    assert_eq!((step.last_pos, step.text), (5, None));
    let step = tail_scriptslog(0, &[0x61, 0xFF, 0x62]);
    assert_eq!(step.text.as_deref(), Some("a\u{FFFD}b"));
    assert!(try_tail_scriptslog(u64::MAX, b"x").is_none());
    assert_eq!(try_tail_scriptslog(u64::MAX - 1, b"x").unwrap().last_pos, u64::MAX);
}

#[test]
fn responses_are_waited_for() {
    assert_eq!(read_responses(3000, true, 5000), ResponseWait::Read);
    assert_eq!(read_responses(0, false, 5000), ResponseWait::Wait(1000));
    assert_eq!(read_responses(3000, false, 5000), ResponseWait::Wait(4000));
    assert_eq!(read_responses(4000, false, 5000), ResponseWait::TimedOut);
    assert_eq!(read_responses(4000, false, -1), ResponseWait::Wait(5000));
    assert_eq!(read_responses(0, false, 0), ResponseWait::TimedOut);
    assert_eq!(read_responses(i64::MAX, false, -1), ResponseWait::Wait(i64::MAX));
    assert_eq!(try_connect(5, false), Some(4));
    assert_eq!(try_connect(1, false), None);
    assert_eq!(try_connect(0, false), None);
    assert_eq!(try_connect(5, true), None);
    assert_eq!(target_port(ConnectionTarget::Game).as_number(), 37001);
    assert_eq!(target_port(ConnectionTarget::Editor).as_number(), 37000);
}
