use gmail_to_rag::{
    extract_plain_text, parse_message, prepare_export, split_mbox, Config, ExportTally,
    MboxSplitter, RawMessage,
};

/// Three messages as a Gmail export holds them: a plain one, a multipart
/// one with plain and HTML alternatives, and one with an encoded subject.
fn dummy_mbox() -> Vec<u8> {
    let text = [
        "From 1234567890@xxx Mon Jan 06 09:15:00 +0000 2025\n",
        "From: Alice Example <alice@example.com>\n",
        "To: team@example.com\n",
        "Subject: Q4 Budget Review\n",
        "Date: Mon, 06 Jan 2025 09:15:00 +0000\n",
        "Content-Type: text/plain; charset=utf-8\n",
        "\n",
        "Hi team,\n",
        "\n",
        "Please find attached the Q4 budget review.\n",
        "Key highlights: Revenue up 12%, costs down 3%.\n",
        "\n",
        "Alice\n",
        "\n",
        "From 1234567891@xxx Tue Jan 07 10:00:00 +0000 2025\n",
        "From: GitHub <notifications@github.com>\n",
        "Subject: [open-webui/open-webui] RAG upload fails for large files (Issue #4521)\n",
        "Date: Tue, 07 Jan 2025 10:00:00 +0000\n",
        "MIME-Version: 1.0\n",
        "Content-Type: multipart/alternative; boundary=\"b1\"\n",
        "\n",
        "--b1\n",
        "Content-Type: text/plain; charset=utf-8\n",
        "\n",
        "A new issue has been opened in open-webui.\n",
        "--b1\n",
        "Content-Type: text/html; charset=utf-8\n",
        "\n",
        "<html><body><p>A new issue has been opened.</p></body></html>\n",
        "--b1--\n",
        "\n",
        "From 1234567892@xxx Wed Jan 08 11:30:00 +0000 2025\n",
        "From: Events Team <events@example.com>\n",
        "Subject: =?UTF-8?Q?=F0=9F=8E=89_Holiday_Party_RSVP?=\n",
        "Date: Wed, 08 Jan 2025 11:30:00 +0000\n",
        "Content-Type: text/plain; charset=utf-8\n",
        "\n",
        "Please RSVP for the annual holiday party.\n",
        "Venue: The Grand Ballroom\n",
    ]
    .concat();
    text.into_bytes()
}

/// Two valid messages around two that cannot be parsed.
fn corrupt_mbox() -> Vec<u8> {
    let mut data = Vec::new();
    data.extend_from_slice(b"From a@x Mon Jan 06 09:00:00 2025\nFrom: a@example.com\nSubject: First valid email\n\nHello.\n");
    data.extend_from_slice(b"From b@x Mon Jan 06 09:01:00 2025\n   indented junk that is no header\n\xff\xfe\x00\n");
    data.extend_from_slice(b"From c@x Mon Jan 06 09:02:00 2025\n \n");
    data.extend_from_slice(b"From d@x Mon Jan 06 09:03:00 2025\nFrom: d@example.com\nSubject: Valid email after corruption\n\nThis should still be exported.\n");
    data
}

fn count(config: &Config, messages: &[RawMessage]) -> (usize, usize, Vec<String>) {
    let mut tally = ExportTally::new();
    let mut contents = Vec::new();
    for (i, raw) in messages.iter().enumerate() {
        match prepare_export(config, i, raw) {
            Ok(file) => {
                contents.push(file.content);
                tally.record(true);
            }
            Err(_) => tally.record(false),
        }
    }
    (tally.exported, tally.skipped, contents)
}

#[test]
fn test_read_mbox_splits_three_messages() {
    let messages = split_mbox(&dummy_mbox());
    assert_eq!(messages.len(), 3, "dummy.mbox should contain exactly 3 emails");
}

#[test]
fn test_read_mbox_messages_are_parseable() {
    let messages = split_mbox(&dummy_mbox());
    for (i, raw) in messages.iter().enumerate() {
        assert!(parse_message(raw).is_ok(), "Message {} should parse without errors", i);
    }
}

#[test]
fn test_simple_email_headers() {
    let messages = split_mbox(&dummy_mbox());
    let mail = parse_message(&messages[0]).unwrap();
    let from = mail.from.clone().unwrap();
    let subject = mail.subject.clone().unwrap();
    let date = mail.date.clone().unwrap();
    assert!(from.contains("alice@example.com"), "From should contain alice's address");
    assert_eq!(subject, "Q4 Budget Review");
    assert!(date.contains("2025"), "Date should contain the year");
}

#[test]
fn test_multipart_email_headers() {
    let messages = split_mbox(&dummy_mbox());
    let mail = parse_message(&messages[1]).unwrap();
    let from = mail.from.clone().unwrap();
    let subject = mail.subject.clone().unwrap();
    assert!(from.contains("github.com"));
    assert!(subject.contains("RAG upload fails"));
}

#[test]
fn test_encoded_subject_header() {
    let messages = split_mbox(&dummy_mbox());
    let mail = parse_message(&messages[2]).unwrap();
    let subject = mail.subject.clone().unwrap();
    assert!(
        subject.contains("Holiday Party RSVP"),
        "Encoded subject should decode to readable text, got: {}",
        subject
    );
}

#[test]
fn test_extract_plain_text_simple() {
    let messages = split_mbox(&dummy_mbox());
    let mail = parse_message(&messages[0]).unwrap();
    let body = extract_plain_text(&mail);
    assert!(body.contains("Q4 budget review"), "Body should contain email text");
    assert!(body.contains("Revenue up 12%"), "Body should contain the key highlights");
}

#[test]
fn test_extract_plain_text_multipart_prefers_plain() {
    let messages = split_mbox(&dummy_mbox());
    let mail = parse_message(&messages[1]).unwrap();
    let body = extract_plain_text(&mail);
    assert!(body.contains("A new issue has been opened"), "Should extract plain text part");
    assert!(
        !body.contains("<html>"),
        "Should NOT contain HTML tags — plain text part should be preferred"
    );
}

#[test]
fn test_extract_plain_text_third_email() {
    let messages = split_mbox(&dummy_mbox());
    let mail = parse_message(&messages[2]).unwrap();
    let body = extract_plain_text(&mail);
    assert!(body.contains("RSVP for the annual holiday party"));
    assert!(body.contains("The Grand Ballroom"));
}

#[test]
fn test_corrupt_mbox_does_not_panic() {
    let messages = split_mbox(&corrupt_mbox());
    assert!(
        messages.len() >= 2,
        "Should split at least the valid messages from the corrupt mbox, got {}",
        messages.len()
    );
}

#[test]
fn test_corrupt_messages_are_skipped_during_export() {
    let messages = split_mbox(&corrupt_mbox());
    let (exported, _skipped, _) = count(&Config::default(), &messages);
    assert!(exported >= 2, "Should export at least the 2 clearly valid emails, got {}", exported);
}

#[test]
fn test_valid_emails_survive_after_corruption() {
    let messages = split_mbox(&corrupt_mbox());
    let (_, _, contents) = count(&Config::default(), &messages);
    let found = contents
        .iter()
        .any(|c| c.contains("Valid email after corruption") || c.contains("should still be exported"));
    assert!(found, "The valid email after the corrupt ones should have been exported");
}

#[test]
fn test_export_counts_are_consistent() {
    let messages = split_mbox(&corrupt_mbox());
    let (exported, skipped, contents) = count(&Config::default(), &messages);
    assert_eq!(
        exported + skipped,
        messages.len(),
        "exported ({}) + skipped ({}) should equal total messages ({})",
        exported,
        skipped,
        messages.len()
    );
    assert_eq!(contents.len(), exported, "Number of files should match exported count");
}

#[test]
fn test_purely_corrupt_bytes_are_skipped() {
    let messages = vec![RawMessage {
        bytes: b"This is not an email at all\xff\xfe\x00\x00just garbage bytes".to_vec(),
    }];
    let (exported, skipped, _) = count(&Config::default(), &messages);
    assert_eq!(exported + skipped, 1, "Should account for the single message");
}

#[test]
fn test_full_export_pipeline() {
    let messages = split_mbox(&dummy_mbox());
    let config = Config::default();
    let (exported, skipped, _) = count(&config, &messages);
    assert_eq!(exported, 3);
    assert_eq!(skipped, 0);
    let first = prepare_export(&config, 0, &messages[0]).unwrap();
    assert_eq!(first.filename, "00000_Q4 Budget Review.txt");
    assert!(first.content.starts_with("From: "), "File should start with From: header");
    assert!(first.content.contains("Subject: Q4 Budget Review"));
    assert!(first.content.contains("---\n\n"), "File should contain the separator");
    assert!(first.content.contains("Revenue up 12%"), "File should contain email body");
}

#[test]
fn test_export_with_custom_config() {
    let messages = split_mbox(&dummy_mbox());
    let mut config = Config::default();
    config.output.file_extension = "md".to_string();
    config.output.filename_pattern = "email-{index}-{subject}.{ext}".to_string();
    config.output.index_padding = 3;
    config.output.file_template = "# {subject}\\nFrom: {from}\\nDate: {date}\\n\\n{body}".to_string();
    let (exported, _, _) = count(&config, &messages);
    assert_eq!(exported, 3);
    let first = prepare_export(&config, 0, &messages[0]).unwrap();
    assert_eq!(first.filename, "email-000-Q4 Budget Review.md");
    assert!(first.content.starts_with("# Q4 Budget Review\n"), "Should use markdown heading template");
}

#[test]
fn test_output_files_are_valid_for_rag_upload() {
    let messages = split_mbox(&dummy_mbox());
    let config = Config::default();
    for (i, raw) in messages.iter().enumerate() {
        let file = prepare_export(&config, i, raw).unwrap();
        assert!(file.filename.ends_with(".txt"), "All output files should be .txt");
        let lines: Vec<&str> = file.content.lines().collect();
        assert!(lines.len() >= 4, "Each file needs at least From, Date, Subject, and separator lines");
        assert!(lines[0].starts_with("From: "), "Line 1 should be From:");
        assert!(lines[1].starts_with("Date: "), "Line 2 should be Date:");
        assert!(lines[2].starts_with("Subject: "), "Line 3 should be Subject:");
        assert_eq!(lines[3], "---", "Line 4 should be the separator");
    }
}

#[test]
fn marker_lines_are_dropped_and_never_start_an_empty_message() {
    let data = b"From a\nFrom b\nline 1\nline 2\nFrom c\n\nlast";
    let messages = split_mbox(data);
    assert_eq!(messages.len(), 2);
    assert_eq!(messages[0].bytes, b"line 1\nline 2\n".to_vec());
    assert_eq!(messages[1].bytes, b"\nlast\n".to_vec());
}

#[test]
fn from_without_space_is_not_a_marker() {
    let messages = split_mbox(b"From x\nFrom: someone\nFromage\n");
    assert_eq!(messages.len(), 1);
    assert_eq!(messages[0].bytes, b"From: someone\nFromage\n".to_vec());
}

#[test]
fn empty_archive_has_no_messages() {
    assert!(split_mbox(b"").is_empty());
    assert!(split_mbox(b"From a\nFrom b\n").is_empty());
}

#[test]
fn splitter_fed_line_by_line_matches_whole_split() {
    let data = dummy_mbox();
    let mut splitter = MboxSplitter::new();
    for line in std::io::BufRead::split(std::io::Cursor::new(&data), b'\n') {
        splitter.push_line(&line.unwrap());
    }
    let streamed = splitter.finish();
    let whole = split_mbox(&data);
    assert_eq!(streamed.len(), whole.len());
    for (a, b) in streamed.iter().zip(whole.iter()) {
        assert_eq!(a.bytes, b.bytes);
    }
}

#[test]
fn parse_error_is_reported() {
    let raw = RawMessage { bytes: b" starts with a space\n\nbody".to_vec() };
    let err = parse_message(&raw).unwrap_err();
    assert!(!err.description.is_empty());
}

#[test]
fn missing_headers_take_fallbacks() {
    let raw = RawMessage { bytes: b"X-Other: 1\n\nJust a body\n".to_vec() };
    let config = Config::default();
    let file = prepare_export(&config, 7, &raw).unwrap();
    assert_eq!(file.subject, "No Subject");
    assert_eq!(file.filename, "00007_No Subject.txt");
    assert_eq!(
        file.content,
        "From: Unknown\nDate: Unknown\nSubject: No Subject\n---\n\nJust a body\n"
    );
    assert!(!file.body_is_empty);
}

#[test]
fn html_only_message_has_empty_body() {
    let raw = RawMessage {
        bytes: [
            "Subject: Only HTML\n",
            "Content-Type: multipart/alternative; boundary=\"z\"\n",
            "\n",
            "--z\n",
            "Content-Type: text/html\n",
            "\n",
            "<p>hi</p>\n",
            "--z--\n",
        ]
        .concat()
        .into_bytes(),
    };
    let mail = parse_message(&raw).unwrap();
    assert_eq!(extract_plain_text(&mail), "");
    let file = prepare_export(&Config::default(), 0, &raw).unwrap();
    assert!(file.body_is_empty);
}

#[test]
fn nested_multipart_body_is_found() {
    let raw = RawMessage {
        bytes: [
            "Subject: Nested\n",
            "Content-Type: multipart/mixed; boundary=\"outer\"\n",
            "\n",
            "--outer\n",
            "Content-Type: multipart/alternative; boundary=\"inner\"\n",
            "\n",
            "--inner\n",
            "Content-Type: text/html\n",
            "\n",
            "<b>html</b>\n",
            "--inner\n",
            "Content-Type: text/plain\n",
            "\n",
            "deep plain text\n",
            "--inner--\n",
            "--outer\n",
            "Content-Type: text/plain\n",
            "\n",
            "later plain text\n",
            "--outer--\n",
        ]
        .concat()
        .into_bytes(),
    };
    let mail = parse_message(&raw).unwrap();
    assert_eq!(extract_plain_text(&mail), "deep plain text");
}

#[test]
fn first_plain_part_wins_even_when_empty() {
    let raw = RawMessage {
        bytes: [
            "Subject: Empty first\n",
            "Content-Type: multipart/mixed; boundary=\"outer\"\n",
            "\n",
            "--outer\n",
            "Content-Type: multipart/alternative; boundary=\"inner\"\n",
            "\n",
            "--inner\n",
            "Content-Type: text/plain\n",
            "\n",
            "--inner--\n",
            "--outer\n",
            "Content-Type: text/plain\n",
            "\n",
            "Hi\n",
            "--outer--\n",
        ]
        .concat()
        .into_bytes(),
    };
    let mail = parse_message(&raw).unwrap();
    assert_eq!(mail.parts.len(), 4);
    assert_eq!(extract_plain_text(&mail), "");
}

#[test]
fn html_leaf_before_plain_part_is_passed_over() {
    let raw = RawMessage {
        bytes: [
            "Subject: HTML first\n",
            "Content-Type: multipart/alternative; boundary=\"b\"\n",
            "\n",
            "--b\n",
            "Content-Type: text/html\n",
            "\n",
            "<p>html</p>\n",
            "--b\n",
            "Content-Type: text/plain\n",
            "\n",
            "plain\n",
            "--b--\n",
        ]
        .concat()
        .into_bytes(),
    };
    let mail = parse_message(&raw).unwrap();
    assert_eq!(extract_plain_text(&mail), "plain");
}
