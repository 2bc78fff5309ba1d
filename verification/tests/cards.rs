use arena_log::json::{find_member, Json};
use arena_log::{GetPlayerCardsV3, LogError};

fn cards(text: &str) -> Result<(u64, Vec<(u64, usize)>), LogError> {
    GetPlayerCardsV3::from_json(text).map(|record| (record.id, record.payload))
}

#[test]
fn cards_record_is_read() {
    assert_eq!(
        cards("{\"id\": 5, \"payload\": {\"123\": 4, \"456\": 2}}"),
        Ok((5, vec![(123, 4), (456, 2)]))
    );
}

#[test]
fn cards_record_may_be_empty() {
    assert_eq!(cards("{\"id\": 0, \"payload\": {}}"), Ok((0, vec![])));
}

#[test]
fn other_members_of_a_cards_record_do_not_matter() {
    assert_eq!(
        cards("{\"jsonrpc\": \"2.0\", \"payload\": {\"9\": 1}, \"extra\": [1, {\"x\": null}], \"id\": 8}"),
        Ok((8, vec![(9, 1)]))
    );
}

#[test]
fn cards_keys_are_decimal_numbers() {
    assert_eq!(cards("{\"id\": 1, \"payload\": {\"+7\": 2}}"), Ok((1, vec![(7, 2)])));
    assert_eq!(cards("{\"id\": 1, \"payload\": {\"007\": 2}}"), Ok((1, vec![(7, 2)])));
    for key in ["", "x", "-1", "1.5", " 1", "18446744073709551616"] {
        let text = format!("{{\"id\": 1, \"payload\": {{\"1\": 1, \"{}\": 2}}}}", key);
        assert_eq!(cards(&text), Err(LogError::BadPayload), "{:?}", key);
    }
}

#[test]
fn cards_counts_are_counts() {
    for count in
        ["-1", "-0", "1.0", "1e2", "\"4\"", "null", "[4]", "{}", "true", "18446744073709551616"]
    {
        let text = format!("{{\"id\": 1, \"payload\": {{\"1\": {}}}}}", count);
        assert_eq!(cards(&text), Err(LogError::BadPayload), "{:?}", count);
    }
    assert_eq!(cards("{\"id\": 1, \"payload\": {\"1\": 0}}"), Ok((1, vec![(1, 0)])));
}

#[test]
fn cards_record_needs_id_and_payload() {
    for text in [
        "",
        "{",
        "null",
        "[]",
        "{}",
        "{\"id\": 1}",
        "{\"payload\": {}}",
        "{\"id\": -1, \"payload\": {}}",
        "{\"id\": \"1\", \"payload\": {}}",
        "{\"id\": 1.5, \"payload\": {}}",
        "{\"id\": 1e0, \"payload\": {}}",
        "{\"id\": 18446744073709551616, \"payload\": {}}",
        "{\"id\": 1, \"payload\": []}",
        "{\"id\": 1, \"payload\": null}",
        "{\"id\": 1, \"payload\": {}} x",
        "[1, {\"1\": 1}]",
    ] {
        assert_eq!(cards(text), Err(LogError::BadPayload), "{:?}", text);
    }
}

#[test]
fn document_is_read_member_by_member() {
    let members = vec![
        ("id".to_string(), Json::Number(Some(3))),
        (
            "payload".to_string(),
            Json::Object(vec![
                ("20".to_string(), Json::Number(Some(1))),
                ("10".to_string(), Json::Number(Some(2))),
            ]),
        ),
        ("note".to_string(), Json::Text("kept out".to_string())),
    ];
    let record = GetPlayerCardsV3::from_document(&Json::Object(members)).expect("record");
    assert_eq!(record.id, 3);
    assert_eq!(record.payload, vec![(20, 1), (10, 2)]);
}

#[test]
fn document_with_a_number_out_of_range_is_no_record() {
    let members = vec![
        ("id".to_string(), Json::Number(None)),
        ("payload".to_string(), Json::Object(vec![])),
    ];
    assert!(matches!(
        GetPlayerCardsV3::from_document(&Json::Object(members)),
        Err(LogError::BadPayload)
    ));
    assert!(matches!(GetPlayerCardsV3::from_document(&Json::Null), Err(LogError::BadPayload)));
    assert!(matches!(
        GetPlayerCardsV3::from_document(&Json::Array(vec![Json::Bool(true)])),
        Err(LogError::BadPayload)
    ));
}

#[test]
fn first_member_of_a_key_is_found() {
    let members = vec![
        ("a".to_string(), Json::Number(Some(1))),
        ("b".to_string(), Json::Bool(true)),
        ("a".to_string(), Json::Number(Some(2))),
    ];
    assert!(matches!(find_member(&members, &"a".to_string()), Some(Json::Number(Some(1)))));
    assert!(matches!(find_member(&members, &"b".to_string()), Some(Json::Bool(true))));
    assert!(find_member(&members, &"c".to_string()).is_none());
    assert!(find_member(&members, &"".to_string()).is_none());
}

#[test]
fn error_has_a_description() {
    assert_eq!(LogError::BadPayload.description(), "bad payload");
    assert_eq!(LogError::UnknownCatalogId { arena_id: 1 }.description(), "unknown catalog id");
    assert_eq!(LogError::UnknownName { arena_id: 1 }.description(), "unknown card name");
    assert_eq!(
        LogError::ArenaIdConflict { arena_id: 1, bound_to: 2 }.description(),
        "arena id conflict"
    );
}

#[test]
fn largest_id_and_count_are_read() {
    let text = format!(
        "{{\"id\": 18446744073709551615, \"payload\": {{\"18446744073709551615\": {}}}}}",
        usize::MAX
    );
    assert_eq!(cards(&text), Ok((u64::MAX, vec![(u64::MAX, usize::MAX)])));
}

#[test]
fn escaped_keys_are_read_as_what_they_spell() {
    assert_eq!(cards("{\"\\u0069d\": 4, \"payload\": {\"\\u0031\\u0032\": 3}}"), Ok((4, vec![(12, 3)])));
}

#[test]
fn cards_record_is_read_from_characters() {
    let text: Vec<char> = "{\"id\": 5, \"payload\": {\"12\": 4}}".chars().collect();
    let record = GetPlayerCardsV3::from_chars(&text).expect("record");
    assert_eq!((record.id, record.payload), (5, vec![(12, 4)]));
    assert!(matches!(GetPlayerCardsV3::from_chars(&text[1..]), Err(LogError::BadPayload)));
    assert!(matches!(GetPlayerCardsV3::from_chars(&[]), Err(LogError::BadPayload)));
}
