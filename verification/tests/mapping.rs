use sb_dice::mapping::{rendered, MappingError, PlaceholderMapping};
use sb_dice::substitute;
use sb_dice::tree::{Node, StrLit};

fn record(texts: &[&str]) -> Vec<String> {
    texts.iter().map(|text| text.to_string()).collect()
}

#[test]
fn an_empty_record_gives_an_empty_table() {
    let mapping = PlaceholderMapping::build(&Vec::new());
    assert!(mapping.table().is_empty());
    assert_eq!(mapping.to_json().unwrap(), "{}");
}

#[test]
fn each_position_is_keyed_by_its_numeral() {
    let texts = record(&["zero", "one", "two"]);
    let mapping = PlaceholderMapping::build(&texts);
    let table = mapping.table();
    assert_eq!(table.len(), 3);
    assert_eq!(table.get("0").and_then(|v| v.as_str()), Some("zero"));
    assert_eq!(table.get("1").and_then(|v| v.as_str()), Some("one"));
    assert_eq!(table.get("2").and_then(|v| v.as_str()), Some("two"));
    assert!(table.get("3").is_none());
    assert!(table.get("00").is_none());
    assert!(table.get("").is_none());
    assert!(table.get("zero").is_none());
}

#[test]
fn the_entries_stand_in_the_order_of_their_numbers() {
    let texts: Vec<String> = (0..12).map(|i| format!("t{}", i)).collect();
    let mapping = PlaceholderMapping::build(&texts);
    let keys: Vec<String> = mapping.table().keys().cloned().collect();
    let expected: Vec<String> = (0..12).map(|i: usize| i.to_string()).collect();
    assert_eq!(keys, expected);
    let text = mapping.to_json().unwrap();
    let mut lines = vec!["{".to_string()];
    for i in 0..12 {
        let comma = if i < 11 { "," } else { "" };
        lines.push(format!("  \"{}\": \"t{}\"{}", i, i, comma));
    }
    lines.push("}".to_string());
    assert_eq!(text, lines.join("\n"));
    let nine = text.find("\"9\"").unwrap();
    let ten = text.find("\"10\"").unwrap();
    let two = text.find("\"2\"").unwrap();
    assert!(two < nine && nine < ten);
}

#[test]
fn the_keys_have_no_leading_zeros() {
    let texts: Vec<String> = (0..101).map(|i| i.to_string()).collect();
    let mapping = PlaceholderMapping::build(&texts);
    for key in mapping.table().keys() {
        assert!(key == "0" || !key.starts_with('0'));
        assert!(key.chars().all(|c| c.is_ascii_digit()));
    }
    assert!(mapping.table().contains_key("100"));
    assert!(!mapping.table().contains_key("101"));
}

#[test]
fn the_values_are_the_texts_as_they_were() {
    let texts = record(&["say \"hi\"", "line\nbreak", "tab\there", "back\\slash", "\u{4f60}\u{597d}", "", "{\"k\": 1}"]);
    let mapping = PlaceholderMapping::build(&texts);
    let text = mapping.to_json().unwrap();
    let parsed: serde_json::Value = serde_json::from_str(&text).unwrap();
    let object = parsed.as_object().unwrap();
    assert_eq!(object.len(), texts.len());
    for (i, original) in texts.iter().enumerate() {
        assert_eq!(object.get(&i.to_string()).and_then(|v| v.as_str()), Some(original.as_str()));
    }
}

#[test]
fn writing_the_mapping_twice_gives_the_same_text() {
    let mapping = PlaceholderMapping::build(&record(&["a", "b"]));
    let first = mapping.to_json().unwrap();
    let second = mapping.to_json().unwrap();
    assert_eq!(first, second);
    assert_eq!(first, "{\n  \"0\": \"a\",\n  \"1\": \"b\"\n}");
}

#[test]
fn the_text_of_the_serializer_is_handed_on() {
    let outcome = rendered(Ok("{}".to_string()));
    assert!(matches!(outcome, Ok(ref text) if text == "{}"));
}

#[test]
fn a_failure_of_the_serializer_becomes_a_mapping_error() {
    let cause = serde_json::from_str::<serde_json::Value>("{").unwrap_err();
    let message = cause.to_string();
    let outcome = rendered(Err(cause));
    match outcome {
        Err(MappingError::Serialize(inner)) => assert_eq!(inner.to_string(), message),
        Ok(_) => panic!("the failure was lost"),
    }
}

#[test]
fn the_mapping_of_a_tree_leads_back_to_its_texts() {
    let mut tree = Node::Other {
        kind: "Module".to_string(),
        children: vec![
            Node::Str(StrLit { value: Some("hello".to_string()), raw: Some("'hello'".to_string()) }),
            Node::TemplateStatic("not me".to_string()),
            Node::Str(StrLit { value: Some("world".to_string()), raw: None }),
        ],
    };
    let mapping = substitute(&mut tree);
    assert_eq!(mapping.to_json().unwrap(), "{\n  \"0\": \"hello\",\n  \"1\": \"world\"\n}");
}
