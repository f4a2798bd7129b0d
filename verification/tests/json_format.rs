use shortcut_keeper::shortcuts::Shortcut;
use shortcut_keeper::shortcuts::Shortcuts;

fn store_of(entries: &[(&str, &str, u32)]) -> Shortcuts {
    let mut store = Shortcuts::new();
    for (i, &(combo, desc, count)) in entries.iter().enumerate() {
        store.add_shortcut(Shortcut::from(combo.to_string(), desc.to_string()));
        store.increment_lookup_count(i, count);
    }
    store
}

fn triples(store: &Shortcuts) -> Vec<(String, String, u32)> {
    store
        .get_all_shortcuts()
        .iter()
        .map(|s| (s.get_key_combo().to_string(), s.get_description().to_string(), s.get_lookup_count()))
        .collect()
}

#[test]
fn serializes_canonical_text() {
    let store = store_of(&[("A", "open tab", 0)]);
    assert_eq!(
        store.to_json(),
        "{\"shortcuts\":[{\"lookup_count\":0,\"key_combo\":\"A\",\"description\":\"open tab\"}]}"
    );
}

#[test]
fn serializes_empty_store() {
    let store = Shortcuts::new();
    assert_eq!(store.to_json(), "{\"shortcuts\":[]}");
}

#[test]
fn save_path_is_never_serialized() {
    let mut store = store_of(&[("A", "open tab", 0)]);
    let unbound = store.to_json();
    store.set_save_path("somewhere.json".to_string());
    assert_eq!(store.to_json(), unbound);
    assert!(!store.to_json().contains("somewhere"));
}

#[test]
fn round_trips_plain_records() {
    let store = store_of(&[("CTRL+S", "save", 3), ("CTRL+T", "open new tab", 0)]);
    let reloaded = Shortcuts::from_json(&store.to_json()).expect("canonical text parses");
    assert_eq!(triples(&reloaded), triples(&store));
    assert!(reloaded.get_save_path().is_none());
}

#[test]
fn round_trips_escaped_characters() {
    let store = store_of(&[
        ("\"quoted\"", "back\\slash", 1),
        ("tab\there", "line\nbreak\rcarriage", 2),
        ("bell\u{7}null\u{0}", "form\u{c}feed\u{8}", 3),
        ("caf\u{e9} \u{4e2d}\u{6587}", "\u{1f600}", 4),
    ]);
    let text = store.to_json();
    let reloaded = Shortcuts::from_json(&text).expect("escaped text parses");
    assert_eq!(triples(&reloaded), triples(&store));
}

#[test]
fn round_trips_largest_count() {
    let store = store_of(&[("A", "b", u32::MAX)]);
    let reloaded = Shortcuts::from_json(&store.to_json()).expect("largest count parses");
    assert_eq!(reloaded.get_all_shortcuts()[0].get_lookup_count(), u32::MAX);
}

#[test]
fn parses_whitespace_between_tokens() {
    let text = " {\n  \"shortcuts\" : [\r\n    { \"lookup_count\" : 7 ,\n      \"key_combo\" : \"A\" ,\n      \"description\" : \"open tab\" }\n  ]\n}\n";
    let store = Shortcuts::from_json(text).expect("spaced text parses");
    assert_eq!(triples(&store), vec![("A".to_string(), "open tab".to_string(), 7)]);
}

#[test]
fn parses_short_and_unicode_escapes() {
    let text = "{\"shortcuts\":[{\"lookup_count\":0,\"key_combo\":\"\\u0041\\/\",\"description\":\"\\\"\\\\\\n\\t\\r\\b\\f\\u00e9\"}]}";
    let store = Shortcuts::from_json(text).expect("escapes parse");
    let all = store.get_all_shortcuts();
    assert_eq!(all[0].get_key_combo(), "A/");
    assert_eq!(all[0].get_description(), "\"\\\n\t\r\u{8}\u{c}\u{e9}");
}

#[test]
fn rejects_malformed_documents() {
    // Each of these breaks the grammar in a different place.
    let bad = [
        "",
        "   ",
        "{\"shortcuts\":[]",
        "{\"shortcuts\":[]}}",
        "{\"shortcuts\":[]} trailing",
        "[{\"lookup_count\":0}]",
        "{\"entries\":[]}",
        "{\"shortcuts\":[{\"key_combo\":\"A\",\"lookup_count\":0,\"description\":\"d\"}]}",
        "{\"shortcuts\":[{\"lookup_count\":-1,\"key_combo\":\"A\",\"description\":\"d\"}]}",
        "{\"shortcuts\":[{\"lookup_count\":0,\"key_combo\":\"A\",\"description\":\"d\"},]}",
        "{\"shortcuts\":[{\"lookup_count\":0,\"key_combo\":\"A\",\"description\":\"d\"}",
        "{\"shortcuts\":[{\"lookup_count\":0,\"key_combo\":\"A\"}]}",
        "{\"shortcuts\":[{\"lookup_count\":4294967296,\"key_combo\":\"A\",\"description\":\"d\"}]}",
        "{\"shortcuts\":[{\"lookup_count\":,\"key_combo\":\"A\",\"description\":\"d\"}]}",
        "{\"shortcuts\":[{\"lookup_count\":0,\"key_combo\":\"unterminated,\"description\":\"d\"}]}",
        "{\"shortcuts\":[{\"lookup_count\":0,\"key_combo\":\"bad\\xescape\",\"description\":\"d\"}]}",
        "{\"shortcuts\":[{\"lookup_count\":0,\"key_combo\":\"\\u0141\",\"description\":\"d\"}]}",
        "{\"shortcuts\":[{\"lookup_count\":0,\"key_combo\":\"raw\ncontrol\",\"description\":\"d\"}]}",
    ];
    for text in bad {
        assert!(Shortcuts::from_json(text).is_err(), "accepted: {:?}", text);
    }
}

#[test]
fn count_just_at_the_limit_parses() {
    let text = "{\"shortcuts\":[{\"lookup_count\":4294967295,\"key_combo\":\"A\",\"description\":\"d\"}]}";
    let store = Shortcuts::from_json(text).expect("u32::MAX parses");
    assert_eq!(store.get_all_shortcuts()[0].get_lookup_count(), u32::MAX);
}

#[test]
fn leading_zeros_read_as_the_same_number() {
    let text = "{\"shortcuts\":[{\"lookup_count\":007,\"key_combo\":\"A\",\"description\":\"d\"}]}";
    let store = Shortcuts::from_json(text).expect("leading zeros parse");
    assert_eq!(store.get_all_shortcuts()[0].get_lookup_count(), 7);
}
