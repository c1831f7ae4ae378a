use masque::error::MasqueError;
use masque::event::Event;
use masque::event::EventBuilder;
use masque::event::EventLine;
use masque::event::EventLineResponse;
use masque::event::EventTag;

#[test]
fn test_parses_event_types() {
    let id = "id: the-event-uuid\n";
    let event = "event: thetype\n";
    let data = "data: some event data\n";

    let id_p = EventLine::from_str(id).unwrap();
    let event_p = EventLine::from_str(event).unwrap();
    let data_p = EventLine::from_str(data).unwrap();

    assert_eq!(id_p.tag, EventTag::Id);
    assert_eq!(id_p.data.as_str(), "the-event-uuid");
    assert_eq!(event_p.tag, EventTag::Event);
    assert_eq!(event_p.data.as_str(), "thetype");
    assert_eq!(data_p.tag, EventTag::Data);
    assert_eq!(data_p.data.as_str(), "some event data");
}

#[test]
fn test_parses_ending_line() {
    let end = "\n";

    let end_p = EventLine::from_str(end).unwrap();

    assert_eq!(end_p.tag, EventTag::End);
}

#[test]
fn test_concats_multiple_data_lines_with_newline() {
    let b = EventBuilder::new();

    match b.read_in_lines(vec!["data: line1\n", "data: line2\n"]) {
        EventLineResponse::Continue(builder) => {
            let ev = builder.build();
            assert_eq!(ev.data(), "line1\nline2");
        }
        EventLineResponse::Complete(_) => panic!("Builder not found"),
    }
}

#[test]
fn test_omits_lines_after_ending_line() {
    let b = EventBuilder::new();

    let resp = b.read_in_lines(vec![
        "id: the-event-uuid\n",
        "event: thetype\n",
        "data: the first data\n",
        "data: the second data\n",
        "\n",
        "data: the third data\n",
        "data: the fourth data\n",
    ]);

    match resp {
        EventLineResponse::Continue(_) => panic!("Builder did not terminate"),
        EventLineResponse::Complete(ev) => {
            assert_eq!(ev.data(), "the first data\nthe second data");
        }
    }
}

#[test]
fn test_builds_on_ending_line() {
    let b = EventBuilder::new();

    let resp = b.read_in_lines(vec![
        "id: the-event-uuid\n",
        "event: thetype\n",
        "data: the first data\n",
        "data: the rest of the data\n",
        "\n",
    ]);

    match resp {
        EventLineResponse::Continue(_) => panic!("Builder did not terminate"),
        EventLineResponse::Complete(_) => (),
    }
}

#[test]
fn test_line_without_colon_is_terminator() {
    let p = EventLine::from_str("no separator here").unwrap();
    assert_eq!(p.tag, EventTag::End);
    assert_eq!(p.data.as_str(), "");

    let blank = EventLine::from_str("").unwrap();
    assert_eq!(blank.tag, EventTag::End);
    assert_eq!(blank.data.as_str(), "");
}

#[test]
fn test_parses_retry_line() {
    let p = EventLine::from_str("retry: 3000\n").unwrap();
    assert_eq!(p.tag, EventTag::Retry);
    assert_eq!(p.data.as_str(), "3000");
}

#[test]
fn test_unknown_field_tag_is_error() {
    assert_eq!(
        EventLine::from_str("foo: bar\n"),
        Err(MasqueError::InvalidEventTag)
    );
    assert_eq!(
        EventTag::from_str("Data"),
        Err(MasqueError::InvalidEventTag)
    );
    assert_eq!(EventTag::from_str("data"), Ok(EventTag::Data));
}

#[test]
fn test_strips_at_most_one_leading_space() {
    let none = EventLine::from_str("data:tight\n").unwrap();
    assert_eq!(none.data.as_str(), "tight");

    let two = EventLine::from_str("data:  padded\n").unwrap();
    assert_eq!(two.data.as_str(), " padded");
}

#[test]
fn test_value_may_contain_colons() {
    let p = EventLine::from_str("data: a:b:c\n").unwrap();
    assert_eq!(p.tag, EventTag::Data);
    assert_eq!(p.data.as_str(), "a:b:c");
}

#[test]
fn test_parses_line_without_trailing_newline() {
    let p = EventLine::from_str("id: bare").unwrap();
    assert_eq!(p.tag, EventTag::Id);
    assert_eq!(p.data.as_str(), "bare");
}

#[test]
fn test_empty_value_line() {
    let p = EventLine::from_str("data:\n").unwrap();
    assert_eq!(p.tag, EventTag::Data);
    assert_eq!(p.data.as_str(), "");
}

#[test]
fn test_unknown_field_leaves_builder_unchanged() {
    let b = EventBuilder::new()
        .id(Some("before".to_string()))
        .data("kept".to_string());

    match b.read_in_line("foo: bar\n") {
        EventLineResponse::Continue(builder) => {
            assert_eq!(builder.id, Some("before".to_string()));
            assert_eq!(builder.event, None);
            assert_eq!(builder.data.as_str(), "kept");
        }
        EventLineResponse::Complete(_) => panic!("unrecognized line must not terminate"),
    }
}

#[test]
fn test_retry_line_has_no_effect_on_builder() {
    let b = EventBuilder::new().data("kept".to_string());

    match b.read_in_line("retry: 250\n") {
        EventLineResponse::Continue(builder) => {
            assert_eq!(builder.data.as_str(), "kept");
            assert_eq!(builder.id, None);
            assert_eq!(builder.event, None);
        }
        EventLineResponse::Complete(_) => panic!("retry must not terminate"),
    }
}

#[test]
fn test_one_complete_event_per_batch() {
    let b = EventBuilder::new();

    let resp = b.read_in_lines(vec![
        "id: X\n",
        "event: Y\n",
        "data: A\n",
        "data: B\n",
        "\n",
        "data: C\n",
    ]);

    match resp {
        EventLineResponse::Continue(_) => panic!("Builder did not terminate"),
        EventLineResponse::Complete(ev) => {
            assert_eq!(ev.id(), &Some("X".to_string()));
            assert_eq!(ev.event(), &Some("Y".to_string()));
            assert_eq!(ev.data(), "A\nB");
        }
    }
}

#[test]
fn test_event_new_keeps_parts() {
    let ev = Event::new(
        Some("an-id".to_string()),
        None,
        "payload".to_string(),
    );
    assert_eq!(ev.id(), &Some("an-id".to_string()));
    assert_eq!(ev.event(), &None);
    assert_eq!(ev.data(), "payload");
}

#[test]
fn test_builder_field_setters() {
    let ev = EventBuilder::new()
        .id(Some("i".to_string()))
        .event(Some("e".to_string()))
        .data("first".to_string())
        .extend_data("second")
        .build();
    assert_eq!(ev.id(), &Some("i".to_string()));
    assert_eq!(ev.event(), &Some("e".to_string()));
    assert_eq!(ev.data(), "first\nsecond");
}
