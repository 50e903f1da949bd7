//! The multi-format codec: canonical encodings, the round-trip law in every
//! format, the create-on-missing load policy, and rejection of anything
//! that is not canonical.

use todo::conversion::Formats;
use todo::error::TodoError;
use todo::storage::{decode_store, encode_store, load_store_content};
use todo::tasks::Tasks;

const ALL_FORMATS: [Formats; 4] = [Formats::TOML, Formats::JSON, Formats::YAML, Formats::XML];

fn sample_store() -> Tasks {
    let mut ts = Tasks::new();
    ts.add("buy milk", &Some(String::from("2%")));
    ts.add("write tests", &None);
    ts.toggle_completed(0).unwrap();
    ts
}

fn assert_same_store(a: &Tasks, b: &Tasks) {
    assert_eq!(a.len(), b.len());
    // Identifiers and all task fields agree wherever either store has one.
    for id in 0..20usize {
        match (a.get(id), b.get(id)) {
            (None, None) => {}
            (Some(x), Some(y)) => {
                assert_eq!(x.name, y.name);
                assert_eq!(x.description, y.description);
                assert_eq!(x.get_is_completed(), y.get_is_completed());
            }
            _ => panic!("stores differ at identifier {id}"),
        }
    }
}

#[test]
fn exact_toml_encoding() {
    let ts = sample_store();
    assert_eq!(
        encode_store(&ts, Formats::TOML),
        "[[tasks]]\nid = 0\nname = \"buy milk\"\ndescription = \"2%\"\ncompleted = true\n\
         [[tasks]]\nid = 1\nname = \"write tests\"\ndescription = \"\"\ncompleted = false\n"
    );
}

#[test]
fn exact_json_encoding() {
    let ts = sample_store();
    assert_eq!(
        encode_store(&ts, Formats::JSON),
        "{\"tasks\":[{\"id\":0,\"name\":\"buy milk\",\"description\":\"2%\",\"completed\":true},\
         {\"id\":1,\"name\":\"write tests\",\"description\":\"\",\"completed\":false}]}"
    );
}

#[test]
fn exact_yaml_encoding() {
    let ts = sample_store();
    assert_eq!(
        encode_store(&ts, Formats::YAML),
        "tasks:\n- id: 0\n  name: \"buy milk\"\n  description: \"2%\"\n  completed: true\n\
         - id: 1\n  name: \"write tests\"\n  description: \"\"\n  completed: false\n"
    );
}

#[test]
fn exact_xml_encoding() {
    let ts = sample_store();
    assert_eq!(
        encode_store(&ts, Formats::XML),
        "<tasks><task><id>0</id><name>buy milk</name><description>2%</description>\
         <completed>true</completed></task><task><id>1</id><name>write tests</name>\
         <description></description><completed>false</completed></task></tasks>"
    );
}

#[test]
fn exact_empty_encodings() {
    let ts = Tasks::new();
    assert_eq!(encode_store(&ts, Formats::TOML), "");
    assert_eq!(encode_store(&ts, Formats::JSON), "{\"tasks\":[]}");
    assert_eq!(encode_store(&ts, Formats::YAML), "tasks:\n");
    assert_eq!(encode_store(&ts, Formats::XML), "<tasks></tasks>");
}

#[test]
fn round_trip_in_every_format() {
    let ts = sample_store();
    for f in ALL_FORMATS {
        let text = encode_store(&ts, f);
        let back = decode_store(&text, f).unwrap();
        assert_same_store(&ts, &back);
    }
}

#[test]
fn round_trip_of_the_empty_store() {
    let ts = Tasks::new();
    for f in ALL_FORMATS {
        let back = decode_store(&encode_store(&ts, f), f).unwrap();
        assert!(back.is_empty());
    }
}

#[test]
fn round_trip_with_non_contiguous_identifiers() {
    let mut ts = Tasks::new();
    for name in ["a", "b", "c", "d", "e", "f"] {
        ts.add(name, &None);
    }
    ts.remove(1).unwrap();
    ts.remove(3).unwrap();
    ts.remove(4).unwrap();
    // Live identifiers: {0, 2, 5}.
    for f in ALL_FORMATS {
        let back = decode_store(&encode_store(&ts, f), f).unwrap();
        assert_same_store(&ts, &back);
        assert!(back.get(0).is_some() && back.get(2).is_some() && back.get(5).is_some());
        assert!(back.get(1).is_none());
    }
}

#[test]
fn round_trip_with_escaped_characters() {
    let mut ts = Tasks::new();
    ts.add("a\"b\\c", &Some(String::from("line one\nline two\ttabbed\r")));
    ts.add("x & y < z > w", &Some(String::from("\u{e9}\u{2713} unicode")));
    for f in ALL_FORMATS {
        let text = encode_store(&ts, f);
        let back = decode_store(&text, f).unwrap();
        assert_same_store(&ts, &back);
    }
    assert_eq!(
        encode_store(&ts, Formats::TOML).lines().nth(2).unwrap(),
        "name = \"a\\\"b\\\\c\""
    );
    assert!(encode_store(&ts, Formats::XML).contains("x &amp; y &lt; z &gt; w"));
}

#[test]
fn decode_rejects_garbage() {
    for f in ALL_FORMATS {
        assert!(matches!(decode_store("nonsense", f), Err(TodoError::Decode)));
    }
}

#[test]
fn decode_rejects_truncated_input() {
    let text = encode_store(&sample_store(), Formats::JSON);
    let cut = &text[..text.len() - 2];
    assert!(matches!(decode_store(cut, Formats::JSON), Err(TodoError::Decode)));
}

#[test]
fn decode_rejects_non_canonical_whitespace() {
    assert!(matches!(decode_store("{ \"tasks\": [] }", Formats::JSON), Err(TodoError::Decode)));
}

#[test]
fn decode_rejects_bad_escapes() {
    assert!(matches!(decode_store(
            "[[tasks]]\nid = 0\nname = \"a\\qb\"\ndescription = \"\"\ncompleted = true\n",
            Formats::TOML
        ), Err(TodoError::Decode)));
}

#[test]
fn decode_rejects_out_of_order_identifiers() {
    let text = "[[tasks]]\nid = 1\nname = \"a\"\ndescription = \"\"\ncompleted = false\n\
                [[tasks]]\nid = 0\nname = \"b\"\ndescription = \"\"\ncompleted = false\n";
    assert!(matches!(decode_store(text, Formats::TOML), Err(TodoError::Decode)));
}

#[test]
fn decode_rejects_duplicate_identifiers() {
    let text = "[[tasks]]\nid = 0\nname = \"a\"\ndescription = \"\"\ncompleted = false\n\
                [[tasks]]\nid = 0\nname = \"b\"\ndescription = \"\"\ncompleted = false\n";
    assert!(matches!(decode_store(text, Formats::TOML), Err(TodoError::Decode)));
}

#[test]
fn decode_rejects_oversized_identifiers() {
    let text = "[[tasks]]\nid = 99999999999999999999999999\nname = \"a\"\
                \ndescription = \"\"\ncompleted = false\n";
    assert!(matches!(decode_store(text, Formats::TOML), Err(TodoError::Decode)));
}

#[test]
fn loading_missing_or_empty_content_yields_an_empty_store() {
    // The task file that does not exist yet hands the loader empty content;
    // doing it twice gives the same empty store, with no error.
    let first = load_store_content("", Formats::TOML).unwrap();
    assert!(first.is_empty());
    let again = load_store_content("", Formats::TOML).unwrap();
    assert!(again.is_empty());
    // Non-empty content still decodes as usual.
    let ts = sample_store();
    let text = encode_store(&ts, Formats::TOML);
    let back = load_store_content(&text, Formats::TOML).unwrap();
    assert_same_store(&ts, &back);
    assert!(matches!(load_store_content("junk", Formats::TOML), Err(TodoError::Decode)));
}

#[test]
fn end_to_end_scenario() {
    let mut ts = Tasks::new();
    assert!(ts.is_empty());
    let id = ts.add("buy milk", &Some(String::from("2%")));
    assert_eq!(id, 0);
    assert_eq!(ts.len(), 1);
    assert!(!ts.get(0).unwrap().get_is_completed());
    assert_eq!(ts.toggle_completed(0), Ok(true));
    assert!(ts.get(0).unwrap().get_is_completed());
    let json = encode_store(&ts, Formats::JSON);
    assert_eq!(
        json,
        "{\"tasks\":[{\"id\":0,\"name\":\"buy milk\",\"description\":\"2%\",\"completed\":true}]}"
    );
    ts.remove(0).unwrap();
    assert!(ts.is_empty());
}

#[test]
fn decode_accepts_handwritten_canonical_yaml() {
    let text = "tasks:\n- id: 3\n  name: \"n\"\n  description: \"d\"\n  completed: true\n";
    let ts = decode_store(text, Formats::YAML).unwrap();
    assert_eq!(ts.len(), 1);
    assert_eq!(ts.get(3).unwrap().name, "n");
    assert_eq!(ts.get(3).unwrap().description, "d");
    assert!(ts.get(3).unwrap().get_is_completed());
}

#[test]
fn decode_accepts_handwritten_canonical_json() {
    let text = "{\"tasks\":[{\"id\":0,\"name\":\"a\\nb\",\"description\":\"\",\"completed\":false},\
                {\"id\":7,\"name\":\"c\",\"description\":\"d\",\"completed\":true}]}";
    let ts = decode_store(text, Formats::JSON).unwrap();
    assert_eq!(ts.len(), 2);
    assert_eq!(ts.get(0).unwrap().name, "a\nb");
    assert!(ts.get(7).unwrap().get_is_completed());
}
