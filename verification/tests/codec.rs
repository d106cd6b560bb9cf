use messy_notes::codec::{
    decode_note, fallback_document, frame_record, header_value, holds_dash_line,
    note_from_header, parse_markdown_with_frontmatter, read_header, render_record, save_note,
    split_record, Header,
};
use messy_notes::model::Note;
use serde_json::Value;

fn json(text: &str) -> Value {
    serde_json::from_str(text).unwrap()
}

fn sample_note() -> Note {
    Note {
        id: "n1".to_string(),
        title: "Shopping".to_string(),
        raw_text: Some("milk and eggs".to_string()),
        content: Some(json(r#"{"type":"doc","content":[]}"#)),
        updated_at: "2024-05-01T10:00:00+00:00".to_string(),
        created_at: "2024-04-30T09:00:00+00:00".to_string(),
        sticky: true,
        ephemeral: false,
        archived: true,
        note_type: "list".to_string(),
        color: "#ff0000".to_string(),
        folder_id: Some("f1".to_string()),
        position: 7,
    }
}

#[test]
fn record_without_dashes_is_all_text() {
    let (header, body) = split_record("just some text");
    assert_eq!(header, None);
    assert_eq!(body, "just some text");
}

#[test]
fn record_without_header_keeps_its_white_space() {
    let (header, body) = split_record("  spaced out \n");
    assert_eq!(header, None);
    assert_eq!(body, "  spaced out \n");
}

#[test]
fn record_with_header_is_split_at_its_lines() {
    let (header, body) = split_record("---\n{\"title\": \"A\"}\n---\n\n  hello world \n");
    assert_eq!(header, Some("{\"title\": \"A\"}".to_string()));
    assert_eq!(body, "  hello world \n");
}

#[test]
fn header_ends_at_the_first_line_of_dashes() {
    let (header, body) = split_record("---\n{\"a\": \"b---c\"}\n---\n\nt");
    assert_eq!(header, Some("{\"a\": \"b---c\"}".to_string()));
    assert_eq!(body, "t");
}

#[test]
fn lines_of_dashes_in_the_text_belong_to_the_text() {
    let (header, body) = split_record("---\n{}\n---\n\nabove\n---\nbelow");
    assert_eq!(header, Some("{}".to_string()));
    assert_eq!(body, "above\n---\nbelow");
}

#[test]
fn only_one_line_break_is_taken_from_the_text() {
    let (_, body) = split_record("---\n{}\n---\n\n\n\ntext");
    assert_eq!(body, "\n\ntext");
    let (_, body) = split_record("---\n{}\n---\ntext");
    assert_eq!(body, "text");
    let (_, body) = split_record("---\n{}\n---\n");
    assert_eq!(body, "");
}

#[test]
fn only_one_line_break_is_taken_from_the_header() {
    let (header, _) = split_record("---\n\n {} \n---\n\n");
    assert_eq!(header, Some("\n {} ".to_string()));
    let (header, _) = split_record("---{}\n---\n\n");
    assert_eq!(header, Some("{}".to_string()));
    let (header, body) = split_record("---\n---\n\nx");
    assert_eq!(header, Some(String::new()));
    assert_eq!(body, "x");
}

#[test]
fn closing_dashes_without_a_line_break_are_read_leniently() {
    let (header, body) = split_record("---\n {} \n---");
    assert_eq!(header, Some("{}".to_string()));
    assert_eq!(body, "");
    let (header, body) = split_record("---\n{}\n--- \n text \n");
    assert_eq!(header, Some("{}".to_string()));
    assert_eq!(body, "text");
}

#[test]
fn white_space_may_stand_before_the_first_dashes() {
    let (header, body) = split_record(" \n\t---x---y");
    assert_eq!(header, Some("x".to_string()));
    assert_eq!(body, "y");
}

#[test]
fn text_before_the_first_dashes_means_no_header() {
    let (header, body) = split_record("a---x---y");
    assert_eq!(header, None);
    assert_eq!(body, "a---x---y");
}

#[test]
fn one_run_of_dashes_is_no_header() {
    let (header, body) = split_record("---\nonly one");
    assert_eq!(header, None);
    assert_eq!(body, "---\nonly one");
}

#[test]
fn later_dashes_belong_to_the_text() {
    let (header, body) = split_record("---h---a---b---");
    assert_eq!(header, Some("h".to_string()));
    assert_eq!(body, "a---b---");
}

#[test]
fn runs_of_dashes_do_not_overlap() {
    // Five dashes hold one run and two dashes more: there is no second run.
    let (header, body) = split_record("-----x");
    assert_eq!(header, None);
    assert_eq!(body, "-----x");
    // Six dashes are two runs with nothing in between.
    let (header, body) = split_record("------x");
    assert_eq!(header, Some(String::new()));
    assert_eq!(body, "x");
}

#[test]
fn lenient_reading_splits_and_trims_as_std_does() {
    let samples = [
        "",
        "---",
        "------",
        "---{}---body",
        "\u{a0}---\u{2003}h\u{3000}---\u{85}b\u{1680}",
        "x\n---\n{}\n---\n",
        "--- - -- ---- plain",
        "---{\"a\": \"b\"}--- t ---more---",
        "\n\n---\n{}\n ---\n\nbody\n",
    ];
    for s in samples {
        let parts: Vec<&str> = s.split("---").collect();
        let expected = if parts.len() >= 3 && parts[0].trim().is_empty() {
            (Some(parts[1].trim().to_string()), parts[2..].join("---").trim().to_string())
        } else {
            (None, s.to_string())
        };
        assert_eq!(split_record(s), expected, "record {:?}", s);
    }
}

#[test]
fn finding_a_line_of_dashes() {
    assert!(holds_dash_line("---"));
    assert!(holds_dash_line("---\nabc"));
    assert!(holds_dash_line("abc\n---"));
    assert!(holds_dash_line("abc\n---\ndef"));
    assert!(holds_dash_line("\n---\n"));
    assert!(!holds_dash_line(""));
    assert!(!holds_dash_line("--"));
    assert!(!holds_dash_line("----"));
    assert!(!holds_dash_line("a---"));
    assert!(!holds_dash_line("---a"));
    assert!(!holds_dash_line("abc\n ---\ndef"));
    assert!(!holds_dash_line("abc\n--- \ndef"));
    assert!(!holds_dash_line("{\n  \"title\": \"a---b\"\n}"));
    assert!(!holds_dash_line("{\n  \"title\": \"a\\n---\\nb\"\n}"));
}

#[test]
fn metadata_of_a_record_with_header() {
    let (meta, text) = parse_markdown_with_frontmatter("---\n{\"title\": \"A\", \"n\": 3}\n---\n\nbody");
    assert_eq!(meta, json(r#"{"title": "A", "n": 3}"#));
    assert_eq!(text, "body");
}

#[test]
fn metadata_of_a_record_without_header_is_an_empty_object() {
    let (meta, text) = parse_markdown_with_frontmatter("no header here");
    assert_eq!(meta, json("{}"));
    assert_eq!(text, "no header here");
}

#[test]
fn header_that_is_no_json_gives_an_empty_object_and_the_text() {
    let (meta, text) = parse_markdown_with_frontmatter("---\nnot json\n---\n\n body ");
    assert_eq!(meta, json("{}"));
    assert_eq!(text, " body ");
}

#[test]
fn header_fields_are_read_by_kind() {
    let meta = json(
        r##"{"title": "T", "content": {"k": [1, 2]}, "updatedAt": "u", "createdAt": "c",
            "sticky": true, "ephemeral": false, "archived": true, "type": "list",
            "color": "#000000", "folderId": "f9", "position": 12}"##,
    );
    let h = read_header(&meta);
    assert_eq!(
        h,
        Header {
            title: Some("T".to_string()),
            content: Some(json(r#"{"k": [1, 2]}"#)),
            updated_at: Some("u".to_string()),
            created_at: Some("c".to_string()),
            sticky: Some(true),
            ephemeral: Some(false),
            archived: Some(true),
            note_type: Some("list".to_string()),
            color: Some("#000000".to_string()),
            folder_id: Some("f9".to_string()),
            position: Some(12),
        }
    );
}

#[test]
fn header_fields_of_the_wrong_kind_are_absent() {
    let meta = json(
        r#"{"title": 5, "updatedAt": true, "sticky": "yes", "position": "3", "folderId": null,
            "color": ["x"], "content": null}"#,
    );
    let h = read_header(&meta);
    assert_eq!(h.title, None);
    assert_eq!(h.updated_at, None);
    assert_eq!(h.sticky, None);
    assert_eq!(h.position, None);
    assert_eq!(h.folder_id, None);
    assert_eq!(h.color, None);
    // A stored content is taken as it is, whatever it holds.
    assert_eq!(h.content, Some(Value::Null));
}

#[test]
fn header_of_a_value_that_is_no_object_is_empty() {
    for text in ["[1, 2]", "\"title\"", "3", "null", "true"] {
        let h = read_header(&json(text));
        assert_eq!(h.title, None);
        assert_eq!(h.content, None);
        assert_eq!(h.position, None);
    }
}

#[test]
fn position_that_is_no_integer_is_absent() {
    assert_eq!(read_header(&json(r#"{"position": 2.5}"#)).position, None);
    assert_eq!(read_header(&json(r#"{"position": 18446744073709551615}"#)).position, None);
    assert_eq!(read_header(&json(r#"{"position": -4}"#)).position, Some(-4));
}

#[test]
fn fallback_document_of_a_text() {
    assert_eq!(
        fallback_document("hello"),
        json(
            r#"{"type": "doc", "content": [{"type": "paragraph",
                "content": [{"type": "text", "text": "hello"}]}]}"#
        )
    );
}

#[test]
fn fallback_document_of_no_text() {
    assert_eq!(fallback_document(""), json(r#"{"type": "doc", "content": []}"#));
}

#[test]
fn missing_fields_take_their_defaults() {
    let header = Header {
        title: None,
        content: None,
        updated_at: None,
        created_at: None,
        sticky: None,
        ephemeral: None,
        archived: None,
        note_type: None,
        color: None,
        folder_id: None,
        position: None,
    };
    let note = note_from_header("id-1".to_string(), header, "some text".to_string(), "NOW");
    assert_eq!(
        note,
        Note {
            id: "id-1".to_string(),
            title: "Untitled".to_string(),
            raw_text: Some("some text".to_string()),
            content: Some(fallback_document("some text")),
            updated_at: "NOW".to_string(),
            created_at: "NOW".to_string(),
            sticky: false,
            ephemeral: true,
            archived: false,
            note_type: "text".to_string(),
            color: "#ffffff".to_string(),
            folder_id: None,
            position: 0,
        }
    );
}

#[test]
fn stored_fields_win_over_defaults() {
    let header = Header {
        title: Some("T".to_string()),
        content: Some(Value::Null),
        updated_at: Some("u".to_string()),
        created_at: Some("c".to_string()),
        sticky: Some(true),
        ephemeral: Some(false),
        archived: Some(true),
        note_type: Some("list".to_string()),
        color: Some("#123456".to_string()),
        folder_id: Some("f".to_string()),
        position: Some(5),
    };
    let note = note_from_header("x".to_string(), header, String::new(), "NOW");
    assert_eq!(
        note,
        Note {
            id: "x".to_string(),
            title: "T".to_string(),
            raw_text: Some(String::new()),
            content: Some(Value::Null),
            updated_at: "u".to_string(),
            created_at: "c".to_string(),
            sticky: true,
            ephemeral: false,
            archived: true,
            note_type: "list".to_string(),
            color: "#123456".to_string(),
            folder_id: Some("f".to_string()),
            position: 5,
        }
    );
}

#[test]
fn stored_position_is_cut_to_32_bits() {
    let mut header = read_header(&json("{}"));
    header.position = Some(4294967296 + 3);
    assert_eq!(note_from_header("x".to_string(), header, String::new(), "t").position, 3);
    let mut header = read_header(&json("{}"));
    header.position = Some(2147483648);
    assert_eq!(
        note_from_header("x".to_string(), header, String::new(), "t").position,
        -2147483648
    );
}

#[test]
fn decoding_a_record_without_header() {
    let note = decode_note("abc".to_string(), "plain words", "2024-01-01T00:00:00+00:00");
    assert_eq!(note.id, "abc");
    assert_eq!(note.title, "Untitled");
    assert_eq!(note.raw_text, Some("plain words".to_string()));
    assert_eq!(note.content, Some(fallback_document("plain words")));
    assert_eq!(note.updated_at, "2024-01-01T00:00:00+00:00");
    assert_eq!(note.created_at, "2024-01-01T00:00:00+00:00");
    assert_eq!(note.position, 0);
    assert_eq!(note.folder_id, None);
    assert!(note.ephemeral);
}

#[test]
fn decoding_an_empty_record() {
    let note = decode_note("e".to_string(), "", "t");
    assert_eq!(note.raw_text, Some(String::new()));
    assert_eq!(note.content, Some(json(r#"{"type": "doc", "content": []}"#)));
}

#[test]
fn header_value_holds_every_field_but_id_and_text() {
    let v = header_value(&sample_note());
    assert_eq!(
        v,
        json(
            r##"{"title": "Shopping", "updatedAt": "2024-05-01T10:00:00+00:00",
                "createdAt": "2024-04-30T09:00:00+00:00", "sticky": true, "ephemeral": false,
                "archived": true, "type": "list", "color": "#ff0000",
                "content": {"type": "doc", "content": []}, "position": 7, "folderId": "f1"}"##
        )
    );
}

#[test]
fn header_value_leaves_out_what_the_note_lacks() {
    let mut note = sample_note();
    note.content = None;
    note.folder_id = None;
    let v = header_value(&note);
    let object = v.as_object().unwrap();
    assert_eq!(object.len(), 9);
    assert!(!object.contains_key("content"));
    assert!(!object.contains_key("folderId"));
    assert!(!object.contains_key("id"));
    assert!(!object.contains_key("rawText"));
}

#[test]
fn framing_a_record() {
    assert_eq!(frame_record("{}", "body"), "---\n{}\n---\n\nbody");
    assert_eq!(frame_record("", ""), "---\n\n---\n\n");
}

#[test]
fn rendering_prints_the_header_pretty() {
    let record = render_record(&json(r#"{"a": 1}"#), "text").unwrap();
    assert_eq!(record, "---\n{\n  \"a\": 1\n}\n---\n\ntext");
}

#[test]
fn saved_record_has_header_and_text() {
    let record = save_note(&sample_note()).unwrap();
    assert!(record.starts_with("---\n{\n"));
    assert!(record.ends_with("\n}\n---\n\nmilk and eggs"));
    let (meta, text) = parse_markdown_with_frontmatter(&record);
    assert_eq!(meta, header_value(&sample_note()));
    assert_eq!(text, "milk and eggs");
}

#[test]
fn saved_record_of_a_note_without_text() {
    let mut note = sample_note();
    note.raw_text = None;
    let record = save_note(&note).unwrap();
    assert!(record.ends_with("\n}\n---\n\n"));
}

#[test]
fn encoding_and_decoding_gives_the_note_back() {
    let note = sample_note();
    let record = save_note(&note).unwrap();
    let back = decode_note("n1".to_string(), &record, "another time");
    assert_eq!(back, note);
}

#[test]
fn round_trip_of_a_note_in_the_root_scope() {
    let mut note = sample_note();
    note.folder_id = None;
    note.position = -3;
    note.title = "quotes \" and \\ and \n and \u{1F600}".to_string();
    let back = decode_note("n1".to_string(), &save_note(&note).unwrap(), "t");
    assert_eq!(back, note);
}

#[test]
fn round_trip_rebuilds_missing_content_from_the_text() {
    let mut note = sample_note();
    note.content = None;
    let back = decode_note("n1".to_string(), &save_note(&note).unwrap(), "t");
    assert_eq!(back.content, Some(fallback_document("milk and eggs")));
    note.content = back.content.clone();
    assert_eq!(back, note);
}

#[test]
fn round_trip_of_extreme_positions() {
    for p in [i32::MIN, -1, 0, 1, i32::MAX] {
        let mut note = sample_note();
        note.position = p;
        let back = decode_note("n1".to_string(), &save_note(&note).unwrap(), "t");
        assert_eq!(back.position, p);
    }
}

#[test]
fn dashes_in_any_field_come_back() {
    let mut note = sample_note();
    note.title = "before---after".to_string();
    note.color = "---".to_string();
    note.note_type = "a\n---\nb".to_string();
    note.folder_id = Some("------".to_string());
    note.content = Some(json(r#"{"text": "x\n---\ny", "---": ["---"]}"#));
    let back = decode_note("n1".to_string(), &save_note(&note).unwrap(), "NOW");
    assert_eq!(back, note);
}

#[test]
fn white_space_around_the_text_comes_back() {
    for text in [" hi", "hi ", "  padded\n", "\n\nlines\n\n", "\t", " ", "\n", "\u{a0}x\u{3000}"] {
        let mut note = sample_note();
        note.raw_text = Some(text.to_string());
        let back = decode_note("n1".to_string(), &save_note(&note).unwrap(), "t");
        assert_eq!(back.raw_text, Some(text.to_string()), "text {:?}", text);
        assert_eq!(back, note);
    }
}

#[test]
fn dashes_in_the_text_come_back() {
    for text in ["---", "a---b", "above\n---\nbelow", "\n---\n", "---\n{}\n---\n\nnested"] {
        let mut note = sample_note();
        note.raw_text = Some(text.to_string());
        let back = decode_note("n1".to_string(), &save_note(&note).unwrap(), "t");
        assert_eq!(back, note, "text {:?}", text);
    }
}

#[test]
fn a_note_without_text_comes_back_with_an_empty_one() {
    let mut note = sample_note();
    note.raw_text = None;
    let back = decode_note("n1".to_string(), &save_note(&note).unwrap(), "t");
    assert_eq!(back.raw_text, Some(String::new()));
    note.raw_text = Some(String::new());
    assert_eq!(back, note);
}

#[test]
fn parsing_what_was_framed_gives_header_and_text_back() {
    let header = json(r#"{"title": "a---b", "n": [1, 2], "deep": {"k": "v\n---\n"}}"#);
    for text in ["", " hi", "x\n", "\n---\n"] {
        let record = render_record(&header, text).unwrap();
        let (meta, body) = parse_markdown_with_frontmatter(&record);
        assert_eq!(meta, header);
        assert_eq!(body, text);
    }
}
