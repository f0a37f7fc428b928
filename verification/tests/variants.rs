use slate::variants::{
    ConvertError, DecodeError, EncodeError, FromVariant, InferError, ToVariant,
};

const FROM: [FromVariant; 6] = [
    FromVariant::Json,
    FromVariant::Yaml,
    FromVariant::Cbor,
    FromVariant::Ron,
    FromVariant::Toml,
    FromVariant::Bson,
];

fn convert(from: FromVariant, to: ToVariant, input: &[u8]) -> Vec<u8> {
    from.serialize(input, to).unwrap()
}

fn converted_text(from: FromVariant, to: ToVariant, input: &str) -> String {
    String::from_utf8(convert(from, to, input.as_bytes())).unwrap()
}

#[test]
fn extensions_name_the_format_to_read() {
    for (path, format) in [
        ("a.bson", FromVariant::Bson),
        ("a.bs", FromVariant::Bson),
        ("a.cbor", FromVariant::Cbor),
        ("a.cb", FromVariant::Cbor),
        ("x/a.json", FromVariant::Json),
        ("a.b.ron", FromVariant::Ron),
        ("a.toml", FromVariant::Toml),
        ("a.service", FromVariant::Toml),
        ("a.yaml", FromVariant::Yaml),
        ("a.yml", FromVariant::Yaml),
    ] {
        assert_eq!(FromVariant::from_path(path), Ok(format));
    }
    for path in ["a", ".json", "x.json/..", ""] {
        assert_eq!(FromVariant::from_path(path), Err(InferError::NoExtension));
    }
    for path in ["a.JSON", "a.", "a.hjson", "a.ini", "a.pkl"] {
        assert_eq!(FromVariant::from_path(path), Err(InferError::UnknownExtension));
    }
    assert_eq!(
        InferError::NoExtension.message(),
        "Extension not found, the type of the file could not be inferred."
    );
    assert_eq!(InferError::UnknownExtension.message(), "Type of the file could not be inferred");
}

#[test]
fn extensions_name_the_format_to_write() {
    for (ext, format) in [
        ("bincode", ToVariant::Bincode),
        ("bc", ToVariant::Bincode),
        ("bson", ToVariant::Bson),
        ("bs", ToVariant::Bson),
        ("cbor", ToVariant::Cbor),
        ("cb", ToVariant::Cbor),
        ("yaml", ToVariant::Yaml),
        ("yml", ToVariant::Yaml),
        ("flexbuffers", ToVariant::Flexbuffers),
        ("fb", ToVariant::Flexbuffers),
        ("postcard", ToVariant::Postcard),
        ("pc", ToVariant::Postcard),
        ("pickle", ToVariant::Pickle),
        ("pkl", ToVariant::Pickle),
        ("json", ToVariant::Json),
        ("hjson", ToVariant::PrettyJson),
        ("ron", ToVariant::Ron),
        ("hron", ToVariant::PrettyRon),
        ("toml", ToVariant::Toml),
        ("ini", ToVariant::Ini),
    ] {
        assert_eq!(ToVariant::from_path(&format!("dir/file.{ext}")), Some(format));
    }
    for path in ["a", "a.service", "a.txt", "dir.json/"] {
        assert_eq!(ToVariant::from_path(path).is_some(), path == "dir.json/");
    }
}

#[test]
fn formats_are_written_as_they_are_read() {
    for ext in ["bson", "bs", "cbor", "cb", "json", "ron", "toml", "yaml", "yml"] {
        let path = format!("file.{ext}");
        let from = FromVariant::from_path(&path).unwrap();
        assert_eq!(ToVariant::from_path(&path), Some(ToVariant::from(from)));
    }
    assert_eq!(ToVariant::from(FromVariant::Ron), ToVariant::Ron);
}

#[test]
fn json_is_converted() {
    let input = r#"{"a": 1, "b": ["x", true]}"#;
    let json = |to| converted_text(FromVariant::Json, to, input);
    assert_eq!(json(ToVariant::Json), r#"{"a":1,"b":["x",true]}"#);
    assert_eq!(
        json(ToVariant::PrettyJson),
        "{\n  \"a\": 1,\n  \"b\": [\n    \"x\",\n    true\n  ]\n}"
    );
    assert_eq!(json(ToVariant::Yaml), "a: 1\nb:\n- x\n- true\n");
    assert_eq!(json(ToVariant::Toml), "a = 1\nb = [\"x\", true]\n");
    assert_eq!(json(ToVariant::Ron), r#"{"a":1,"b":["x",true]}"#);
    assert_eq!(
        json(ToVariant::PrettyRon),
        "{\n    \"a\": 1,\n    \"b\": [\n        \"x\",\n        true,\n    ],\n}"
    );
    assert_eq!(
        convert(FromVariant::Json, ToVariant::Cbor, br#"{"a":1}"#),
        vec![0xa1, 0x61, 0x61, 0x01]
    );
    assert_eq!(
        converted_text(FromVariant::Json, ToVariant::Ini, r#"{"S":{"k":"v"}}"#),
        "[S]\r\nk=v\r\n"
    );
}

#[test]
fn encoders_get_the_document_itself() {
    let input = br#"{"a": [1, "two", null], "b": {"c": false}}"#;
    let value: serde_json::Value = serde_json::from_slice(input).unwrap();
    let json = |to| convert(FromVariant::Json, to, input);
    assert_eq!(
        json(ToVariant::Pickle),
        serde_pickle::to_vec(&value, serde_pickle::SerOptions::new()).unwrap()
    );
    assert_eq!(json(ToVariant::Bincode), bincode::serialize(&value).unwrap());
    assert_eq!(json(ToVariant::Postcard), postcard::to_allocvec(&value).unwrap());
    assert_eq!(json(ToVariant::Cbor), serde_cbor::to_vec(&value).unwrap());
    assert_eq!(json(ToVariant::Bson), bson::to_vec(&value).unwrap());
    assert_eq!(json(ToVariant::Flexbuffers), flexbuffers::to_vec(&value).unwrap());
    let all = [
        json(ToVariant::Pickle),
        json(ToVariant::Bincode),
        json(ToVariant::Postcard),
        json(ToVariant::Cbor),
        json(ToVariant::Bson),
        json(ToVariant::Flexbuffers),
    ];
    for (i, a) in all.iter().enumerate() {
        assert_ne!(a.as_slice(), input);
        assert!(all[..i].iter().all(|b| a != b));
    }
}

#[test]
fn every_format_can_be_read() {
    let expected = r#"{"a":"x"}"#;
    let json = |from, input: &[u8]| String::from_utf8(convert(from, ToVariant::Json, input)).unwrap();
    assert_eq!(json(FromVariant::Json, b" {\"a\" : \"x\"}"), expected);
    assert_eq!(json(FromVariant::Yaml, b"a: x"), expected);
    assert_eq!(json(FromVariant::Cbor, &[0xa1, 0x61, 0x61, 0x61, 0x78]), expected);
    assert_eq!(json(FromVariant::Ron, b"{\"a\": \"x\"}"), expected);
    assert_eq!(json(FromVariant::Toml, b"a = 'x'"), expected);
    let document = convert(FromVariant::Json, ToVariant::Bson, expected.as_bytes());
    assert_eq!(json(FromVariant::Bson, &document), expected);
}

#[test]
fn what_cannot_be_read_is_an_error() {
    let bad: [&[u8]; 6] = [b"{", b"a: [", &[0xff], b"(", b"a =", &[1, 2]];
    for (from, input) in FROM.iter().zip(bad) {
        let error = match from.serialize(input, ToVariant::Json) {
            Err(ConvertError::Decode(e)) => e,
            other => panic!("{other:?}"),
        };
        assert!(match from {
            FromVariant::Json => matches!(error, DecodeError::Json(_)),
            FromVariant::Yaml => matches!(error, DecodeError::Yaml(_)),
            FromVariant::Cbor => matches!(error, DecodeError::Cbor(_)),
            FromVariant::Ron => matches!(error, DecodeError::Ron(_)),
            FromVariant::Toml => matches!(error, DecodeError::Toml(_)),
            FromVariant::Bson => matches!(error, DecodeError::BsonStructure(_)),
        });
    }
    assert!(matches!(FromVariant::Toml.decode(&[0xff]), Err(DecodeError::NotUtf8(_))));
}

#[test]
fn what_cannot_be_written_is_an_error() {
    let fails = |from: FromVariant, to, input: &str| match from.serialize(input.as_bytes(), to) {
        Err(ConvertError::Encode(e)) => e,
        other => panic!("{other:?}"),
    };
    assert!(matches!(
        fails(FromVariant::Json, ToVariant::Toml, "{\"a\":null}"),
        EncodeError::Toml(_)
    ));
    assert!(matches!(
        fails(FromVariant::Json, ToVariant::Ini, "{\"a\":{\"b\":{\"c\":1}}}"),
        EncodeError::Ini(_)
    ));
    assert!(matches!(
        fails(FromVariant::Yaml, ToVariant::Json, "[1]: 2"),
        EncodeError::Json(_)
    ));
    assert!(matches!(
        fails(FromVariant::Yaml, ToVariant::PrettyJson, "[1]: 2"),
        EncodeError::Json(_)
    ));
    assert!(matches!(fails(FromVariant::Json, ToVariant::Bson, "[1]"), EncodeError::Bson(_)));
    assert!(matches!(
        fails(FromVariant::Yaml, ToVariant::Flexbuffers, "[1]: 2"),
        EncodeError::Json(_)
    ));
    assert!(matches!(
        fails(FromVariant::Yaml, ToVariant::Flexbuffers, "1: 2"),
        EncodeError::Flexbuffers(_)
    ));
}

#[test]
fn keys_of_flexbuffers_hold_no_nul() {
    for input in [r#"{"a\u0000":1}"#, r#"{"x":"\u0000","y":[{"\\\u0000b":1}]}"#] {
        assert!(matches!(
            FromVariant::Json.serialize(input.as_bytes(), ToVariant::Flexbuffers),
            Err(ConvertError::Encode(EncodeError::NulKey))
        ));
    }
    for input in [r#"{"a":"\u0000"}"#, r#"{"\\u0000":1}"#, r#"["\u0000:"]"#, r#"{"\u0001":1}"#] {
        let value: serde_json::Value = serde_json::from_str(input).unwrap();
        assert_eq!(
            convert(FromVariant::Json, ToVariant::Flexbuffers, input.as_bytes()),
            flexbuffers::to_vec(&value).unwrap()
        );
    }
}

const TO: [ToVariant; 13] = [
    ToVariant::Pickle,
    ToVariant::Bincode,
    ToVariant::Postcard,
    ToVariant::Flexbuffers,
    ToVariant::Json,
    ToVariant::PrettyJson,
    ToVariant::Yaml,
    ToVariant::Cbor,
    ToVariant::Ron,
    ToVariant::PrettyRon,
    ToVariant::Toml,
    ToVariant::Bson,
    ToVariant::Ini,
];

/// Documents or arrays inside each other, as many as there are levels.
fn nested_bson(levels: usize, kind: u8) -> Vec<u8> {
    let mut bytes = vec![5, 0, 0, 0, 0];
    for _ in 1..levels {
        let mut outer = ((bytes.len() + 8) as u32).to_le_bytes().to_vec();
        outer.extend([kind, b'0', 0]);
        outer.extend(&bytes);
        outer.push(0);
        bytes = outer;
    }
    bytes
}

const DOCUMENT: u8 = 3;
const ARRAY: u8 = 4;

/// Scopes inside each other, as many as there are levels.
fn nested_scopes(levels: usize) -> Vec<u8> {
    let mut bytes = vec![5, 0, 0, 0, 0];
    for _ in 1..levels {
        let mut outer = ((bytes.len() + 17) as u32).to_le_bytes().to_vec();
        outer.extend([15, b'0', 0]);
        outer.extend(((bytes.len() + 9) as u32).to_le_bytes());
        outer.extend([1, 0, 0, 0, 0]);
        outer.extend(&bytes);
        outer.push(0);
        bytes = outer;
    }
    bytes
}

#[test]
fn bson_is_read_down_to_a_limit() {
    for levels in [1, 2, 127, 128] {
        let inputs =
            [nested_bson(levels, DOCUMENT), nested_bson(levels, ARRAY), nested_scopes(levels)];
        for bytes in inputs {
            assert_eq!(convert(FromVariant::Bson, ToVariant::Bson, &bytes), bytes);
            let document = FromVariant::Bson.decode(&bytes).unwrap();
            for to in TO {
                let _ = to.to_buf(&document);
            }
        }
    }
    for levels in [129, 2000] {
        let inputs =
            [nested_bson(levels, DOCUMENT), nested_bson(levels, ARRAY), nested_scopes(levels)];
        for bytes in inputs {
            assert!(matches!(FromVariant::Bson.decode(&bytes), Err(DecodeError::TooDeep)));
        }
    }
}

#[test]
fn bson_that_is_none_is_an_error() {
    let mut broken = nested_bson(3, DOCUMENT);
    broken[7] = 9;
    assert!(matches!(FromVariant::Bson.decode(&broken), Err(DecodeError::BsonStructure(_))));
    // The bytes are in order, but an identifier has no such digits.
    let input = br#"{"a":{"$oid":"x"}}"#;
    let bytes = convert(FromVariant::Json, ToVariant::Bson, input);
    assert!(matches!(FromVariant::Bson.decode(&bytes), Err(DecodeError::Bson(_))));
}

#[test]
fn toml_is_read_down_to_a_limit() {
    let keys = |n: usize| vec!["a"; n].join(".");
    // Nested inline tables, each under a key of two parts.
    let inline = |k: &str, n: usize| {
        format!("{k} = {}1{}\n", "{x.y = ".repeat(n), "}".repeat(n))
    };
    let texts = format!(
        "s = \"\"\"\n{}\\\"\"\"\"\"\nt = '''{}'''''\n",
        "[".repeat(500),
        "{a.".repeat(500)
    );
    // Each array of tables stands in the last table of the one before.
    let arrays: String = (1..80).map(|n| format!("[[{}]]\n", keys(n))).collect();
    for input in [
        format!("[{}]\n{} = 1\n", keys(79), keys(79)),
        format!("{arrays}{}", inline("k", 60)),
        format!("{}{}", inline("k", 60), inline("l", 60)),
        format!("{}\n[{}]\n{}", inline("k", 60), keys(79), inline("l", 60)),
        format!("s = '{}' # {}\n", "[".repeat(500), "{".repeat(500)),
        format!("{texts}{}", inline("k", 60)),
        format!("l = [{}]\n", "1.5, ".repeat(1000)),
    ] {
        let expected: toml::Value = toml::from_str(&input).unwrap();
        assert_eq!(
            converted_text(FromVariant::Toml, ToVariant::Toml, &input),
            toml::to_string(&expected).unwrap()
        );
        let document = FromVariant::Toml.decode(input.as_bytes()).unwrap();
        for to in TO {
            let _ = to.to_buf(&document);
        }
    }
    for input in [inline("k", 70), format!("{texts}{}", inline("k", 70))] {
        assert!(matches!(FromVariant::Toml.decode(input.as_bytes()), Err(DecodeError::TooDeep)));
    }
}

#[test]
fn documents_are_written_one_by_one() {
    let document = FromVariant::Yaml.decode(b"a: 1").unwrap();
    assert_eq!(ToVariant::Json.to_buf(&document).unwrap(), b"{\"a\":1}");
    assert_eq!(ToVariant::Yaml.to_buf(&document).unwrap(), b"a: 1\n");
}
