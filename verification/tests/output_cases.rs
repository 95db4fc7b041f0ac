use jjit::output::{
    commit_list, format_summary, parse_xml_output, response_kind, CommitOutput, GotoOutput,
    LlmOutput, OutputError, PackOutput, ReplyOutput, ResponseField, ResponseKind,
};

#[test]
fn commit_reply_fields_are_read() {
    let xml = "<commit>\n  <summary>3 files</summary>\n  <message>feat: add x</message>\n  <body>details</body>\n</commit>";
    match parse_xml_output(xml) {
        Ok(LlmOutput::Commit(CommitOutput { summary, message, body })) => {
            assert_eq!(summary.as_deref(), Some("3 files"));
            assert_eq!(message, "feat: add x");
            assert_eq!(body.as_deref(), Some("details"));
        }
        other => panic!("unexpected parse: {:?}", other),
    }
}

#[test]
fn commit_reply_without_optional_fields() {
    match parse_xml_output("<commit><summary>s</summary><message>fix: y</message></commit>") {
        Ok(LlmOutput::Commit(c)) => {
            assert_eq!(c.summary.as_deref(), Some("s"));
            assert_eq!(c.message, "fix: y");
            assert_eq!(c.body, None);
        }
        other => panic!("unexpected parse: {:?}", other),
    }
}

#[test]
fn goto_reply_fields_are_read() {
    match parse_xml_output("<goto><summary>found</summary><target>abc123</target></goto>") {
        Ok(LlmOutput::Goto(GotoOutput { summary, target })) => {
            assert_eq!(summary, "found");
            assert_eq!(target, "abc123");
        }
        other => panic!("unexpected parse: {:?}", other),
    }
}

#[test]
fn pack_commit_list_is_split_and_trimmed() {
    let xml = "<pack><summary>s</summary><commits> abc , def ,, ghi </commits><message>m</message></pack>";
    match parse_xml_output(xml) {
        Ok(LlmOutput::Pack(PackOutput { summary, commits, message, body })) => {
            assert_eq!(summary, "s");
            assert_eq!(commits, vec!["abc".to_string(), "def".to_string(), "ghi".to_string()]);
            assert_eq!(message, "m");
            assert_eq!(body, None);
        }
        other => panic!("unexpected parse: {:?}", other),
    }
}

#[test]
fn pack_without_commits_has_an_empty_list() {
    match parse_xml_output("<pack><summary>s</summary><message>m</message></pack>") {
        Ok(LlmOutput::Pack(p)) => assert!(p.commits.is_empty()),
        other => panic!("unexpected parse: {:?}", other),
    }
}

#[test]
fn reply_message_is_read() {
    match parse_xml_output("<reply><message>no changes</message></reply>") {
        Ok(LlmOutput::Reply(ReplyOutput { message })) => assert_eq!(message, "no changes"),
        other => panic!("unexpected parse: {:?}", other),
    }
}

#[test]
fn tag_names_are_matched_without_case() {
    match parse_xml_output("<COMMIT><Summary>s</Summary><Message>feat: z</Message></COMMIT>") {
        Ok(LlmOutput::Commit(c)) => assert_eq!(c.message, "feat: z"),
        other => panic!("unexpected parse: {:?}", other),
    }
}

#[test]
fn commit_reply_without_summary_is_rejected() {
    assert_eq!(
        parse_xml_output("<commit><message>feat: x</message></commit>").err(),
        Some(OutputError::MissingField {
            response: ResponseKind::Commit,
            field: ResponseField::Summary
        })
    );
}

#[test]
fn error_messages_explain_the_error() {
    assert_eq!(
        OutputError::MissingField { response: ResponseKind::Goto, field: ResponseField::Target }
            .message(),
        "Missing required field 'target' in goto response"
    );
    assert_eq!(OutputError::RootTagNotFound.message(), "Could not find root tag in XML");
    assert_eq!(
        OutputError::UnknownRootTag.message(),
        "Unknown or missing root tag in LLM response"
    );
    assert_eq!(
        OutputError::XmlSyntax { message: "bad".to_string() }.message(),
        "XML parse error: bad"
    );
}

#[test]
fn missing_required_fields_are_reported() {
    assert_eq!(
        parse_xml_output("<commit><summary>s</summary></commit>").err(),
        Some(OutputError::MissingField {
            response: ResponseKind::Commit,
            field: ResponseField::Message
        })
    );
    assert_eq!(
        parse_xml_output("<goto><target>t</target></goto>").err(),
        Some(OutputError::MissingField {
            response: ResponseKind::Goto,
            field: ResponseField::Summary
        })
    );
    assert_eq!(
        parse_xml_output("<goto><summary>s</summary></goto>").err(),
        Some(OutputError::MissingField {
            response: ResponseKind::Goto,
            field: ResponseField::Target
        })
    );
    assert_eq!(
        parse_xml_output("<pack><message>m</message></pack>").err(),
        Some(OutputError::MissingField {
            response: ResponseKind::Pack,
            field: ResponseField::Summary
        })
    );
    assert_eq!(
        parse_xml_output("<pack><summary>s</summary></pack>").err(),
        Some(OutputError::MissingField {
            response: ResponseKind::Pack,
            field: ResponseField::Message
        })
    );
    assert_eq!(
        parse_xml_output("<reply></reply>").err(),
        Some(OutputError::MissingField {
            response: ResponseKind::Reply,
            field: ResponseField::Message
        })
    );
}

#[test]
fn text_without_tags_has_no_root() {
    assert_eq!(
        parse_xml_output("no xml here").err(),
        Some(OutputError::RootTagNotFound)
    );
    assert_eq!(parse_xml_output("").err(), Some(OutputError::RootTagNotFound));
}

#[test]
fn unknown_root_tag_is_reported() {
    assert_eq!(
        parse_xml_output("<answer><message>x</message></answer>").err(),
        Some(OutputError::UnknownRootTag)
    );
}

#[test]
fn kind_is_inferred_from_the_text_under_an_unknown_root() {
    // The kind comes from `<reply>` in the text; its message is nested too
    // deep to count as a field.
    assert_eq!(
        parse_xml_output("<wrapper><reply><message>hi</message></reply></wrapper>").err(),
        Some(OutputError::MissingField {
            response: ResponseKind::Reply,
            field: ResponseField::Message
        })
    );
}

#[test]
fn only_direct_children_of_the_root_are_fields() {
    let xml = "<commit><summary>s</summary><message>top</message><body><message>inner</message></body></commit>";
    match parse_xml_output(xml) {
        Ok(LlmOutput::Commit(c)) => {
            assert_eq!(c.message, "top");
            assert_eq!(c.body.as_deref(), Some("inner"));
        }
        other => panic!("unexpected parse: {:?}", other),
    }
}

#[test]
fn syntax_error_before_any_field_fails() {
    assert_eq!(
        parse_xml_output("<commit></wrong>").err(),
        Some(OutputError::XmlSyntax {
            message: "ill-formed document: expected `</commit>`, but `</wrong>` was found".to_string()
        })
    );
    let e = parse_xml_output("<commit><message>a</msg></commit>").err().unwrap();
    assert!(e.message().starts_with("XML parse error: "));
}

#[test]
fn syntax_error_after_a_field_keeps_what_was_read() {
    match parse_xml_output("<commit><summary>s</summary><message>fix</message><body>x</commit>") {
        Ok(LlmOutput::Commit(c)) => {
            assert_eq!(c.message, "fix");
            assert_eq!(c.body, None);
        }
        other => panic!("unexpected parse: {:?}", other),
    }
}

#[test]
fn entities_in_text_are_resolved() {
    match parse_xml_output("<reply><message>a &lt; b</message></reply>") {
        Ok(LlmOutput::Reply(r)) => assert_eq!(r.message, "a < b"),
        other => panic!("unexpected parse: {:?}", other),
    }
}

#[test]
fn summary_of_each_kind() {
    let c = parse_xml_output("<commit><summary>s</summary><message>m</message></commit>").unwrap();
    assert_eq!(format_summary(&c), "s");
    let g = parse_xml_output("<goto><summary>gs</summary><target>t</target></goto>").unwrap();
    assert_eq!(format_summary(&g), "gs");
    let p = parse_xml_output("<pack><summary>ps</summary><message>m</message></pack>").unwrap();
    assert_eq!(format_summary(&p), "ps");
    let r = parse_xml_output("<reply><message>rm</message></reply>").unwrap();
    assert_eq!(format_summary(&r), "rm");
}

#[test]
fn commit_list_drops_blank_items() {
    assert_eq!(commit_list("a,b"), vec!["a".to_string(), "b".to_string()]);
    assert_eq!(commit_list(" , ,"), Vec::<String>::new());
    assert_eq!(commit_list(""), Vec::<String>::new());
    assert_eq!(commit_list("\n x \n"), vec!["x".to_string()]);
}

#[test]
fn response_kind_prefers_the_root_tag() {
    assert_eq!(response_kind("<goto>", "commit"), Some(ResponseKind::Commit));
    assert_eq!(response_kind("<x><goto></goto></x>", "x"), Some(ResponseKind::Goto));
    assert_eq!(response_kind("<x><pack/></x>", "x"), None);
    assert_eq!(response_kind("<x><pack></pack></x>", "x"), Some(ResponseKind::Pack));
}
