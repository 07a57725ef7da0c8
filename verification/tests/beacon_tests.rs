//! Tests of the BEACON packet reading: parameter values, packet extracts,
//! poll answers and generation times.
use rust_and_vulkan::beacon::{
    extract_eng_value, iso8601_parts, parse_beacon_poll_response, parse_extract_response,
    classify_fields, history_step, param_field_of, seconds_in_range, FieldKind, HistoryStep, sorted_unique_names, whole_seconds, BeaconValue,
};
use rust_and_vulkan::json::JsonValue;
use rust_and_vulkan::text::parse_i64;

fn obj(members: Vec<(&str, JsonValue)>) -> JsonValue {
    JsonValue::Object(members.into_iter().map(|(k, v)| (k.to_string(), v)).collect())
}

fn s(text: &str) -> JsonValue {
    JsonValue::Str(text.to_string())
}

fn param(name: &str, eng: JsonValue) -> JsonValue {
    obj(vec![("id", obj(vec![("name", s(name))])), ("engValue", eng)])
}

fn chars(text: &str) -> Vec<char> {
    text.chars().collect()
}

#[test]
fn eng_values_by_type() {
    let v = extract_eng_value(&obj(vec![("type", s("FLOAT")), ("floatValue", JsonValue::Float("1.5".to_string()))]));
    assert!(matches!(v, Some(BeaconValue::Float(JsonValue::Float(ref t))) if t == "1.5"));
    let v = extract_eng_value(&obj(vec![("type", s("DOUBLE")), ("doubleValue", JsonValue::PosInt(3))]));
    assert!(matches!(v, Some(BeaconValue::Float(JsonValue::PosInt(3)))));
    let v = extract_eng_value(&obj(vec![("type", s("UINT32")), ("uint32Value", JsonValue::PosInt(7))]));
    assert!(matches!(v, Some(BeaconValue::Int(7))));
    let v = extract_eng_value(&obj(vec![("type", s("UINT64")), ("uint64Value", JsonValue::PosInt(u64::MAX))]));
    assert!(matches!(v, Some(BeaconValue::Int(-1))));
    let v = extract_eng_value(&obj(vec![("type", s("SINT64")), ("sint32Value", JsonValue::NegInt(-4))]));
    assert!(matches!(v, Some(BeaconValue::Int(-4))));
    let v = extract_eng_value(&obj(vec![("type", s("BOOLEAN")), ("booleanValue", JsonValue::Bool(true))]));
    assert!(matches!(v, Some(BeaconValue::Bool(true))));
    let v = extract_eng_value(&obj(vec![("type", s("ENUMERATED")), ("stringValue", s("SAFE"))]));
    assert!(matches!(v, Some(BeaconValue::StringVal(ref t)) if t == "SAFE"));
    let v = extract_eng_value(&obj(vec![("type", s("FLOAT")), ("doubleValue", JsonValue::PosInt(3))]));
    assert!(v.is_none());
}

#[test]
fn eng_values_without_known_type() {
    let v = extract_eng_value(&obj(vec![("sint64Value", JsonValue::NegInt(-9)), ("stringValue", s("x"))]));
    assert!(matches!(v, Some(BeaconValue::Int(-9))));
    let v = extract_eng_value(&obj(vec![("type", s("BINARY")), ("stringValue", s("x"))]));
    assert!(matches!(v, Some(BeaconValue::StringVal(ref t)) if t == "x"));
    let v = extract_eng_value(&obj(vec![("floatValue", JsonValue::NegInt(-2)), ("sint64Value", JsonValue::PosInt(1))]));
    assert!(matches!(v, Some(BeaconValue::Float(JsonValue::NegInt(-2)))));
    assert!(extract_eng_value(&obj(vec![])).is_none());
}

#[test]
fn parameter_names_drop_the_path() {
    let p = param("/BEACON/battery_voltage", obj(vec![("type", s("SINT32")), ("sint32Value", JsonValue::PosInt(12))]));
    let (name, v) = param_field_of(&p).unwrap();
    assert_eq!(name, "battery_voltage");
    assert!(matches!(v, BeaconValue::Int(12)));
    let no_eng = obj(vec![("id", obj(vec![("name", s("a"))]))]);
    assert!(param_field_of(&no_eng).is_none());
}

#[test]
fn packet_extracts() {
    let pkt = obj(vec![
        ("generationTime", s("2024-05-01T12:00:00Z")),
        ("parameter", JsonValue::Array(vec![
            param("/B/mode", obj(vec![("type", s("STRING")), ("stringValue", s("NOMINAL"))])),
            param("/B/skip", obj(vec![("type", s("BOOLEAN"))])),
            param("/B/temp", obj(vec![("type", s("SINT32")), ("sint32Value", JsonValue::NegInt(-3))])),
        ])),
    ]);
    let e = parse_extract_response(&pkt).unwrap();
    assert_eq!(e.generation_time, "2024-05-01T12:00:00Z");
    assert_eq!(e.fields.len(), 2);
    assert_eq!(e.fields[0].0, "mode");
    assert_eq!(e.fields[1].0, "temp");
    let empty = obj(vec![("parameter", JsonValue::Array(vec![]))]);
    assert!(parse_extract_response(&empty).is_none());
    let no_params = obj(vec![("generationTime", s("t"))]);
    assert!(parse_extract_response(&no_params).is_none());
    let time_only = obj(vec![("generationTime", s("t")), ("parameter", JsonValue::Array(vec![]))]);
    assert_eq!(parse_extract_response(&time_only).unwrap().fields.len(), 0);
}

#[test]
fn poll_answers() {
    let pkt = |t: &str| obj(vec![("generationTime", s(t)), ("parameter", JsonValue::Array(vec![]))]);
    let answer = obj(vec![("packet", JsonValue::Array(vec![pkt("a"), obj(vec![]), pkt("b")]))]);
    let snaps = parse_beacon_poll_response(&answer);
    assert_eq!(snaps.len(), 2);
    assert_eq!(snaps[0].generation_time, "a");
    assert_eq!(snaps[1].generation_time, "b");
    let single = pkt("c");
    assert_eq!(parse_beacon_poll_response(&single).len(), 1);
}

#[test]
fn integer_parsing() {
    assert_eq!(parse_i64(&chars("2024")), Some(2024));
    assert_eq!(parse_i64(&chars("+7")), Some(7));
    assert_eq!(parse_i64(&chars("-9223372036854775808")), Some(i64::MIN));
    assert_eq!(parse_i64(&chars("9223372036854775808")), None);
    assert_eq!(parse_i64(&chars("12a")), None);
    assert_eq!(parse_i64(&chars("-")), None);
    assert_eq!(parse_i64(&chars("")), None);
}

#[test]
fn generation_time_parts() {
    let t = iso8601_parts("2024-05-01T12:34:56.789Z").unwrap();
    assert_eq!((t.year, t.month, t.day, t.hour, t.minute), (2024, 5, 1, 12, 34));
    assert_eq!(t.seconds, "56.789");
    let t = iso8601_parts("2024-05-01T01:02:03+00:00").unwrap();
    assert_eq!((t.hour, t.minute), (1, 2));
    assert_eq!(t.seconds, "03");
    let t = iso8601_parts("2024-05-01-extra T01:02:03:04").unwrap();
    assert_eq!((t.year, t.month, t.day), (2024, 5, 1));
    assert_eq!(t.seconds, "03:04");
    assert!(iso8601_parts("2024-05-01 01:02:03").is_none());
    assert!(iso8601_parts("2024-05T01:02:03").is_none());
    assert!(iso8601_parts("2024-05-01T01:02").is_none());
}

#[test]
fn whole_seconds_of_a_timestamp() {
    assert!(seconds_in_range(2024, 5, 1, 12, 34, 56));
    let a = whole_seconds(2024, 5, 1, 12, 34, 56);
    let b = whole_seconds(2024, 5, 1, 0, 0, 0);
    assert_eq!(a - b, 12 * 3600 + 34 * 60 + 56);
    assert_eq!(whole_seconds(1970, 1, 1, 0, 0, 0), 0);
    assert_eq!(whole_seconds(1970, 1, 2, 3, 4, 5), 97445);
    assert!(!seconds_in_range(i64::MAX, 5, 1, 0, 0, 0));
    assert!(!seconds_in_range(2024, 5, 1, i64::MAX, 0, 0));
}

#[test]
fn field_names_sorted_and_distinct() {
    let names: Vec<String> = ["temp", "mode", "b", "temp", "a", "mode", "Z", "ab"]
        .iter()
        .map(|x| x.to_string())
        .collect();
    assert_eq!(sorted_unique_names(&names), vec!["Z", "a", "ab", "b", "mode", "temp"]);
    assert!(sorted_unique_names(&Vec::new()).is_empty());
}

#[test]
fn history_steps() {
    let held = vec!["t1".to_string(), "t2".to_string()];
    assert_eq!(history_step(&held, "t2", 5), HistoryStep::Duplicate);
    assert_eq!(history_step(&held, "t3", 5), HistoryStep::Append);
    assert_eq!(history_step(&held, "t3", 2), HistoryStep::ReplaceOldest);
    assert_eq!(history_step(&Vec::new(), "t1", 0), HistoryStep::ReplaceOldest);
}

#[test]
fn field_groups() {
    let names: Vec<String> = ["a", "b", "c", "d", "e"].iter().map(|x| x.to_string()).collect();
    let selected = vec![true, true, false, true, true];
    let kinds = vec![
        Some(FieldKind::Numeric),
        Some(FieldKind::Flag),
        Some(FieldKind::Numeric),
        None,
        Some(FieldKind::Text),
    ];
    let (numeric, flags, texts) = classify_fields(&names, &selected, &kinds);
    assert_eq!(numeric, vec![(0, "a".to_string())]);
    assert_eq!(flags, vec![(1, "b".to_string())]);
    assert_eq!(texts, vec![(4, "e".to_string())]);
}
