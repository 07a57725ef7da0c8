//! Tests of the Yamcs client logic: configuration, addresses, name
//! resolution, argument assembly and packet checks.
use rust_and_vulkan::error::YamcsTcError;
use rust_and_vulkan::json::JsonValue;
use rust_and_vulkan::yamcs_client::{
    build_final_args_from, command_listing_of, final_args_fit_exec, packet_array_of,
    packets_contain_name, packets_include_name, poll_step, resolve_command_name_in,
    CommandDefinition, CommandInfo, PacketId, PacketInfo, PollStep, YamcsClient, YamcsConfig,
};

fn obj(members: Vec<(&str, JsonValue)>) -> JsonValue {
    JsonValue::Object(members.into_iter().map(|(k, v)| (k.to_string(), v)).collect())
}

fn s(text: &str) -> JsonValue {
    JsonValue::Str(text.to_string())
}

fn config() -> YamcsConfig {
    YamcsConfig {
        base_url: "http://localhost:8090//".to_string(),
        instance: "myproject".to_string(),
        processor: "realtime".to_string(),
        username: "guest".to_string(),
        password: "guest".to_string(),
        origin: "rust-automation".to_string(),
    }
}

fn info(name: Option<&str>, qualified: Option<&str>) -> CommandInfo {
    CommandInfo {
        name: name.map(|n| n.to_string()),
        qualified_name: qualified.map(|q| q.to_string()),
        short_description: None,
    }
}

#[test]
fn config_validation_reports_first_blank_field() {
    assert!(config().validate().is_ok());
    let mut c = config();
    c.base_url = " ".to_string();
    c.origin = "".to_string();
    assert!(matches!(c.validate(), Err(YamcsTcError::Config(m)) if m == "base_url cannot be empty"));
    let mut c = config();
    c.processor = "\t".to_string();
    assert!(matches!(c.validate(), Err(YamcsTcError::Config(m)) if m == "processor cannot be empty"));
    let mut c = config();
    c.origin = "".to_string();
    assert!(matches!(YamcsClient::new(c), Err(YamcsTcError::Config(m)) if m == "origin cannot be empty"));
}

#[test]
fn request_addresses() {
    let client = YamcsClient::new(config()).unwrap();
    assert_eq!(client.mdb_commands_url(), "http://localhost:8090/api/mdb/myproject/commands");
    assert_eq!(client.mdb_command_url("UCF/PUS_17_1"), "http://localhost:8090/api/mdb/myproject/commands/UCF/PUS_17_1");
    assert_eq!(client.mdb_command_url("/UCF/PUS_17_1"), "http://localhost:8090/api/mdb/myproject/commands/UCF/PUS_17_1");
    assert_eq!(
        client.issue_command_url("PUS_17_1"),
        "http://localhost:8090/api/processors/myproject/realtime/commands/PUS_17_1"
    );
    assert_eq!(client.packets_url(25), "http://localhost:8090/api/archive/myproject/packets?order=desc&limit=25");
    assert_eq!(client.packages_url(), "http://localhost:8090/api/archive/myproject/packets");
    assert_eq!(
        client.packets_by_name_url("%2FUCF%2FBEACON", "2024-01-01T00:00:00Z", 7),
        "http://localhost:8090/api/archive/myproject/packets/%2FUCF%2FBEACON/2024-01-01T00:00:00Z/7:extract"
    );
    assert_eq!(client.container_url("//UCF/Header"), "http://localhost:8090/api/mdb/myproject/containers/UCF/Header");
}

#[test]
fn resolve_prefers_plain_name() {
    let cmds = vec![
        info(Some("OTHER"), Some("/A/PUS_17_1")),
        info(Some("PUS_17_1"), Some("/UCF/PUS_17_1")),
    ];
    assert_eq!(resolve_command_name_in(" /PUS_17_1 ", &cmds).unwrap(), "/UCF/PUS_17_1");
}

#[test]
fn resolve_by_qualified_name_and_fallbacks() {
    let cmds = vec![info(None, Some("/UCF/X")), info(Some("Y"), None)];
    assert_eq!(resolve_command_name_in("UCF/X", &cmds).unwrap(), "/UCF/X");
    assert_eq!(resolve_command_name_in("Y", &cmds).unwrap(), "/Y");
}

#[test]
fn resolve_by_last_segment_must_be_unique() {
    let one = vec![info(None, Some("/UCF/PUS/PUS_1_1"))];
    assert_eq!(resolve_command_name_in("PUS_1_1", &one).unwrap(), "/UCF/PUS/PUS_1_1");
    let two = vec![info(None, Some("/A/PUS_1_1")), info(None, Some("/B/PUS_1_1"))];
    let err = resolve_command_name_in("PUS_1_1", &two).unwrap_err();
    assert!(matches!(err, YamcsTcError::Command(m) if m == "ambiguous command name 'PUS_1_1': multiple MDB matches found"));
    let err = resolve_command_name_in("NOPE", &two).unwrap_err();
    assert!(matches!(err, YamcsTcError::Command(m) if m == "command 'NOPE' not found in MDB"));
    let err = resolve_command_name_in("   ", &two).unwrap_err();
    assert!(matches!(err, YamcsTcError::Validation(m) if m == "requested command name cannot be empty"));
}

fn header_definition() -> CommandDefinition {
    CommandDefinition {
        raw: obj(vec![
            ("argument", JsonValue::Array(vec![
                obj(vec![("name", s("CCSDS_Packet_Data_Length"))]),
                obj(vec![("name", s("CCSDS_Source_ID"))]),
                obj(vec![("name", s("Service"))]),
            ])),
            ("argumentAssignment", JsonValue::Array(vec![
                obj(vec![("name", s("Service")), ("value", s("17"))]),
            ])),
            ("commandContainer", obj(vec![("entry", JsonValue::Array(vec![
                obj(vec![("argument", obj(vec![
                    ("name", s("CCSDS_Packet_Data_Length")),
                    ("type", obj(vec![("dataEncoding", obj(vec![("sizeInBits", JsonValue::PosInt(16))]))])),
                ]))]),
            ]))])),
        ]),
    }
}

fn body_definition() -> CommandDefinition {
    CommandDefinition {
        raw: obj(vec![
            ("baseCommand", obj(vec![("qualifiedName", s("/UCF/Header")), ("name", s("Header"))])),
            ("argument", JsonValue::Array(vec![obj(vec![("name", s("Channel_ID"))])])),
            ("commandContainer", obj(vec![("entry", JsonValue::Array(vec![
                obj(vec![("argument", obj(vec![
                    ("name", s("Channel_ID")),
                    ("type", obj(vec![("dataEncoding", obj(vec![("sizeInBits", JsonValue::PosInt(8))]))])),
                ]))]),
                obj(vec![("argument", obj(vec![
                    ("name", s("Spare")),
                    ("type", obj(vec![("dataEncoding", obj(vec![("sizeInBits", JsonValue::PosInt(24))]))])),
                ]))]),
            ]))])),
        ]),
    }
}

#[test]
fn definition_accessors() {
    let h = header_definition();
    let b = body_definition();
    assert_eq!(b.base_command(), Some("/UCF/Header".to_string()));
    assert_eq!(h.base_command(), None);
    assert_eq!(h.argument_names(), vec!["CCSDS_Packet_Data_Length", "CCSDS_Source_ID", "Service"]);
    let a = h.assignments();
    assert_eq!(a.len(), 1);
    assert_eq!(a[0].0, "Service");
    assert_eq!(b.container_bits(), 32);
    assert_eq!(h.container_bits(), 16);
    assert!(h.has_arg_in_container("CCSDS_Packet_Data_Length"));
    assert!(!b.has_arg_in_container("CCSDS_Packet_Data_Length"));
    assert_eq!(b.payload_arg_names(), vec!["Channel_ID", "Spare"]);
}

#[test]
fn final_args_forward_declared_and_compute_length() {
    let chain = vec![header_definition(), body_definition()];
    let user = obj(vec![
        ("Channel_ID", JsonValue::PosInt(3)),
        ("Service", JsonValue::PosInt(99)),
        ("Unknown", JsonValue::PosInt(1)),
    ]);
    assert!(final_args_fit_exec(&chain, &user));
    let args = build_final_args_from(&chain, &user).unwrap();
    let names: Vec<&str> = args.iter().map(|(k, _)| k.as_str()).collect();
    assert_eq!(names, vec!["Channel_ID", "CCSDS_Packet_Data_Length"]);
    assert!(matches!(args[1].1, JsonValue::PosInt(3)));
}

#[test]
fn final_args_keep_user_length_and_reject_non_objects() {
    let chain = vec![header_definition(), body_definition()];
    let user = obj(vec![("CCSDS_Packet_Data_Length", JsonValue::PosInt(10))]);
    let args = build_final_args_from(&chain, &user).unwrap();
    assert_eq!(args.len(), 1);
    assert!(matches!(args[0].1, JsonValue::PosInt(10)));
    let err = build_final_args_from(&chain, &JsonValue::PosInt(1)).unwrap_err();
    assert!(matches!(err, YamcsTcError::Validation(m) if m == "user args must be a JSON object"));
}

#[test]
fn listings_and_packet_arrays() {
    let nested = obj(vec![("commands", JsonValue::Array(vec![obj(vec![])]))]);
    assert_eq!(command_listing_of(&nested).unwrap().len(), 1);
    let bare = JsonValue::Array(vec![obj(vec![]), obj(vec![])]);
    assert_eq!(command_listing_of(&bare).unwrap().len(), 2);
    let err = command_listing_of(&JsonValue::Null).unwrap_err();
    assert!(matches!(err, YamcsTcError::Command(m) if m == "unexpected response shape from list_commands"));
    assert!(matches!(packet_array_of(&obj(vec![])), Err(YamcsTcError::Verification(m)) if m == "missing packet array"));
}

#[test]
fn packet_lookup_by_last_segment() {
    let client = YamcsClient::new(config()).unwrap();
    let packages = obj(vec![("packet", JsonValue::Array(vec![
        obj(vec![("id", obj(vec![("name", s("/UCF/HK"))]))]),
        obj(vec![
            ("id", obj(vec![("name", s("/UCF/BEACON"))])),
            ("generationTime", s("2024-05-01T10:00:00Z")),
            ("sequenceNumber", JsonValue::PosInt(42)),
        ]),
    ]))]);
    assert_eq!(
        client.packet_by_name_url_from(&packages, "BEACON").unwrap(),
        "http://localhost:8090/api/archive/myproject/packets/%2FUCF%2FBEACON/2024-05-01T10:00:00Z/42:extract"
    );
    assert_eq!(
        client.packet_by_name_url_from(&packages, "MISSING").unwrap(),
        "http://localhost:8090/api/archive/myproject/packets/MISSING//0:extract"
    );
    let err = client.packet_by_name_url_from(&packages, "HK").unwrap_err();
    assert!(matches!(err, YamcsTcError::Verification(m) if m == "missing generationTime for packet 'HK'"));
    let err = client.packet_by_name_url_from(&obj(vec![]), "HK").unwrap_err();
    assert!(matches!(err, YamcsTcError::Verification(m) if m == "missing packet array in packages"));
}

fn packet(name: Option<&str>) -> PacketInfo {
    PacketInfo {
        id: Some(PacketId { name: name.map(|n| n.to_string()) }),
        generation_time: None,
        sequence_number: None,
    }
}

#[test]
fn packet_name_checks() {
    let ps = vec![packet(None), packet(Some("/UCF/PUS_1_1")), PacketInfo { id: None, generation_time: None, sequence_number: Some(1) }];
    assert!(packets_contain_name(&ps, "PUS_1"));
    assert!(!packets_contain_name(&ps, "PUS_2"));
    assert!(packets_include_name(&ps, "/UCF/PUS_1_1"));
    assert!(!packets_include_name(&ps, "PUS_1_1"));
}

#[test]
fn polling_decisions() {
    assert_eq!(poll_step(true, 999, 10), PollStep::Seen);
    assert_eq!(poll_step(false, 10, 10), PollStep::GiveUp);
    assert_eq!(poll_step(false, 9, 10), PollStep::Wait);
}

#[test]
fn command_request_body() {
    let client = YamcsClient::new(config()).unwrap();
    let req = client.command_request(vec![("A".to_string(), JsonValue::PosInt(1))], true);
    assert_eq!(req.origin, "rust-automation");
    assert_eq!(req.sequence_number, 0);
    assert!(req.dry_run);
    assert!(matches!(req.args.get("A"), Some(JsonValue::PosInt(1))));
}

#[test]
fn final_args_do_not_depend_on_chain_order() {
    let user = obj(vec![
        ("Channel_ID", JsonValue::PosInt(3)),
        ("Service", JsonValue::PosInt(99)),
    ]);
    let forward = build_final_args_from(&[header_definition(), body_definition()], &user).unwrap();
    let backward = build_final_args_from(&[body_definition(), header_definition()], &user).unwrap();
    let names = |a: &Vec<(String, JsonValue)>| a.iter().map(|(k, _)| k.clone()).collect::<Vec<_>>();
    assert_eq!(names(&forward), names(&backward));
    assert!(matches!(backward[1].1, JsonValue::PosInt(3)));
}

#[test]
fn trailing_slashes_of_the_base_url_do_not_matter() {
    let mut c = config();
    c.base_url = "http://localhost:8090".to_string();
    let plain = YamcsClient::new(c).unwrap();
    let slashed = YamcsClient::new(config()).unwrap();
    assert_eq!(plain.mdb_commands_url(), slashed.mdb_commands_url());
    assert_eq!(plain.container_url("/UCF/Header"), slashed.container_url("UCF/Header"));
}
