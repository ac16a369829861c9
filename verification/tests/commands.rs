use rw3d::commands;
use rw3d::protocol::encoding::{Decode, Encode};
use rw3d::protocol::packet::WitcherPacket;
use rw3d::protocol::stream::ByteStream;

#[test]
fn commands_command_listen_parse_test() {
    let packets = commands::listen_all();
    for p1 in packets {
        let mut bytes = ByteStream::new();
        p1.encode_into(&mut bytes).unwrap();
        let p2 = WitcherPacket::decode_from(&mut bytes).unwrap();

        assert_eq!(p1, p2);
    }
}

#[test]
fn commands_command_scripts_reload_parse_test() {
    let p1 = commands::scripts_reload();
    let mut bytes = ByteStream::new();
    p1.encode_into(&mut bytes).unwrap();
    let p2 = WitcherPacket::decode_from(&mut bytes).unwrap();

    assert_eq!(p1, p2);
}

#[test]
fn commands_command_scripts_root_path_parse_test() {
    let p1 = commands::scripts_root_path();
    let mut bytes = ByteStream::new();
    p1.encode_into(&mut bytes).unwrap();
    let p2 = WitcherPacket::decode_from(&mut bytes).unwrap();

    assert_eq!(p1, p2);
}

#[test]
fn commands_command_scripts_execute_parse_test() {
    let p1 = commands::scripts_execute("additem('Aerondight', 1)".to_owned());
    let mut bytes = ByteStream::new();
    p1.encode_into(&mut bytes).unwrap();
    let p2 = WitcherPacket::decode_from(&mut bytes).unwrap();

    assert_eq!(p1, p2);
}

#[test]
fn commands_command_mod_list_parse_test() {
    let p1 = commands::mod_list();
    let mut bytes = ByteStream::new();
    p1.encode_into(&mut bytes).unwrap();
    let p2 = WitcherPacket::decode_from(&mut bytes).unwrap();

    assert_eq!(p1, p2);
}

#[test]
fn commands_command_opcode_parse_test() {
    let p1 = commands::opcode("GetPlayerWitcher".to_owned(), None);
    let mut bytes = ByteStream::new();
    p1.encode_into(&mut bytes).unwrap();
    let p2 = WitcherPacket::decode_from(&mut bytes).unwrap();

    assert_eq!(p1, p2);

    let p1 = commands::opcode("onSpawned".to_owned(), Some("CR4Player".to_owned()));
    let mut bytes = ByteStream::new();
    p1.encode_into(&mut bytes).unwrap();
    let p2 = WitcherPacket::decode_from(&mut bytes).unwrap();

    assert_eq!(p1, p2);
}

#[test]
fn commands_command_var_list_parse_test() {
    let p1 = commands::var_list(None, None);
    let mut bytes = ByteStream::new();
    p1.encode_into(&mut bytes).unwrap();
    let p2 = WitcherPacket::decode_from(&mut bytes).unwrap();

    assert_eq!(p1, p2);

    let p1 = commands::var_list(Some("VarSection".to_owned()), None);
    let mut bytes = ByteStream::new();
    p1.encode_into(&mut bytes).unwrap();
    let p2 = WitcherPacket::decode_from(&mut bytes).unwrap();

    assert_eq!(p1, p2);

    let p1 = commands::var_list(None, Some("VarName".to_owned()));
    let mut bytes = ByteStream::new();
    p1.encode_into(&mut bytes).unwrap();
    let p2 = WitcherPacket::decode_from(&mut bytes).unwrap();

    assert_eq!(p1, p2);

    let p1 = commands::var_list(Some("VarSection".to_owned()), Some("VarName".to_owned()));
    let mut bytes = ByteStream::new();
    p1.encode_into(&mut bytes).unwrap();
    let p2 = WitcherPacket::decode_from(&mut bytes).unwrap();

    assert_eq!(p1, p2);
}

#[test]
fn commands_command_var_set_parse_test() {
    let p1 = commands::var_set("VarSection".to_owned(), "VarName".to_owned(), "false".to_owned());
    let mut bytes = ByteStream::new();
    p1.encode_into(&mut bytes).unwrap();
    let p2 = WitcherPacket::decode_from(&mut bytes).unwrap();

    assert_eq!(p1, p2);
}

#[test]
fn tests_command_listen_parse_test() {
    let packets = commands::listen_all();
    for p1 in packets {
        let mut bytes = ByteStream::new();
        p1.encode_into(&mut bytes).unwrap();
        let p2 = WitcherPacket::decode_from(&mut bytes).unwrap();

        assert_eq!(p1, p2);
    }

    let packets = commands::listen_all();
    for p1 in packets {
        let bytes = p1.to_bytes().unwrap();
        let p2 = WitcherPacket::from_stream(&mut ByteStream::from_vec(bytes));

        assert!(p2.is_ok());
        let p2 = p2.unwrap();

        assert!(p1 == p2);
    }
}

#[test]
fn tests_command_scripts_reload_parse_test() {
    let p1 = commands::scripts_reload();
    let mut bytes = ByteStream::new();
    p1.encode_into(&mut bytes).unwrap();
    let p2 = WitcherPacket::decode_from(&mut bytes).unwrap();

    assert_eq!(p1, p2);

    let p1 = commands::scripts_reload();
    let bytes = p1.to_bytes().unwrap();
    let p2 = WitcherPacket::from_stream(&mut ByteStream::from_vec(bytes));

    assert!(p2.is_ok());
    let p2 = p2.unwrap();

    assert!(p1 == p2);
}

#[test]
fn tests_command_scripts_root_path_parse_test() {
    let p1 = commands::scripts_root_path();
    let mut bytes = ByteStream::new();
    p1.encode_into(&mut bytes).unwrap();
    let p2 = WitcherPacket::decode_from(&mut bytes).unwrap();

    assert_eq!(p1, p2);

    let p1 = commands::scripts_root_path();
    let bytes = p1.to_bytes().unwrap();
    let p2 = WitcherPacket::from_stream(&mut ByteStream::from_vec(bytes));

    assert!(p2.is_ok());
    let p2 = p2.unwrap();

    assert!(p1 == p2);
}

#[test]
fn tests_command_scripts_execute_parse_test() {
    let p1 = commands::scripts_execute("additem('Aerondight', 1)".to_owned());
    let mut bytes = ByteStream::new();
    p1.encode_into(&mut bytes).unwrap();
    let p2 = WitcherPacket::decode_from(&mut bytes).unwrap();

    assert_eq!(p1, p2);

    let p1 = commands::scripts_execute("additem('Aerondight', 1)".to_owned());
    let bytes = p1.to_bytes().unwrap();
    let p2 = WitcherPacket::from_stream(&mut ByteStream::from_vec(bytes));

    assert!(p2.is_ok());
    let p2 = p2.unwrap();

    assert!(p1 == p2);
}

#[test]
fn tests_command_mod_list_parse_test() {
    let p1 = commands::mod_list();
    let mut bytes = ByteStream::new();
    p1.encode_into(&mut bytes).unwrap();
    let p2 = WitcherPacket::decode_from(&mut bytes).unwrap();

    assert_eq!(p1, p2);

    let p1 = commands::mod_list();
    let bytes = p1.to_bytes().unwrap();
    let p2 = WitcherPacket::from_stream(&mut ByteStream::from_vec(bytes));

    assert!(p2.is_ok());
    let p2 = p2.unwrap();

    assert!(p1 == p2);
}

#[test]
fn tests_command_opcode_parse_test() {
    let p1 = commands::opcode("GetPlayerWitcher".to_owned(), None);
    let mut bytes = ByteStream::new();
    p1.encode_into(&mut bytes).unwrap();
    let p2 = WitcherPacket::decode_from(&mut bytes).unwrap();

    assert_eq!(p1, p2);

    let p1 = commands::opcode("GetPlayerWitcher".to_owned(), None);
    let bytes = p1.to_bytes().unwrap();
    let p2 = WitcherPacket::from_stream(&mut ByteStream::from_vec(bytes));

    assert!(p2.is_ok());
    let p2 = p2.unwrap();

    assert!(p1 == p2);

    let p1 = commands::opcode("onSpawned".to_owned(), Some("CR4Player".to_owned()));
    let mut bytes = ByteStream::new();
    p1.encode_into(&mut bytes).unwrap();
    let p2 = WitcherPacket::decode_from(&mut bytes).unwrap();

    assert_eq!(p1, p2);

    let p1 = commands::opcode("onSpawned".to_owned(), Some("CR4Player".to_owned()));
    let bytes = p1.to_bytes().unwrap();
    let p2 = WitcherPacket::from_stream(&mut ByteStream::from_vec(bytes));

    assert!(p2.is_ok());
    let p2 = p2.unwrap();

    assert!(p1 == p2);
}

#[test]
fn tests_command_var_list_parse_test() {
    let p1 = commands::var_list(None, None);
    let mut bytes = ByteStream::new();
    p1.encode_into(&mut bytes).unwrap();
    let p2 = WitcherPacket::decode_from(&mut bytes).unwrap();

    assert_eq!(p1, p2);

    let p1 = commands::var_list(None, None);
    let bytes = p1.to_bytes().unwrap();
    let p2 = WitcherPacket::from_stream(&mut ByteStream::from_vec(bytes));

    assert!(p2.is_ok());
    let p2 = p2.unwrap();

    assert!(p1 == p2);

    let p1 = commands::var_list(Some("VarSection".to_owned()), None);
    let mut bytes = ByteStream::new();
    p1.encode_into(&mut bytes).unwrap();
    let p2 = WitcherPacket::decode_from(&mut bytes).unwrap();

    assert_eq!(p1, p2);

    let p1 = commands::var_list(Some("VarSection".to_owned()), None);
    let bytes = p1.to_bytes().unwrap();
    let p2 = WitcherPacket::from_stream(&mut ByteStream::from_vec(bytes));

    assert!(p2.is_ok());
    let p2 = p2.unwrap();

    assert!(p1 == p2);

    let p1 = commands::var_list(None, Some("VarName".to_owned()));
    let mut bytes = ByteStream::new();
    p1.encode_into(&mut bytes).unwrap();
    let p2 = WitcherPacket::decode_from(&mut bytes).unwrap();

    assert_eq!(p1, p2);

    let p1 = commands::var_list(None, Some("VarName".to_owned()));
    let bytes = p1.to_bytes().unwrap();
    let p2 = WitcherPacket::from_stream(&mut ByteStream::from_vec(bytes));

    assert!(p2.is_ok());
    let p2 = p2.unwrap();

    assert!(p1 == p2);

    let p1 = commands::var_list(Some("VarSection".to_owned()), Some("VarName".to_owned()));
    let mut bytes = ByteStream::new();
    p1.encode_into(&mut bytes).unwrap();
    let p2 = WitcherPacket::decode_from(&mut bytes).unwrap();

    assert_eq!(p1, p2);

    let p1 = commands::var_list(Some("VarSection".to_owned()), Some("VarName".to_owned()));
    let bytes = p1.to_bytes().unwrap();
    let p2 = WitcherPacket::from_stream(&mut ByteStream::from_vec(bytes));

    assert!(p2.is_ok());
    let p2 = p2.unwrap();

    assert!(p1 == p2);
}

#[test]
fn tests_command_var_set_parse_test() {
    let p1 = commands::var_set("VarSection".to_owned(), "VarName".to_owned(), "false".to_owned());
    let mut bytes = ByteStream::new();
    p1.encode_into(&mut bytes).unwrap();
    let p2 = WitcherPacket::decode_from(&mut bytes).unwrap();

    assert_eq!(p1, p2);

    let p1 = commands::var_set("VarSection".to_owned(), "VarName".to_owned(), "false".to_owned());
    let bytes = p1.to_bytes().unwrap();
    let p2 = WitcherPacket::from_stream(&mut ByteStream::from_vec(bytes));

    assert!(p2.is_ok());
    let p2 = p2.unwrap();

    assert!(p1 == p2);
}

