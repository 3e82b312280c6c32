use gmail_to_rag::sanitise::{sanitise_filename, sanitise_filename_default_length};

#[test]
fn test_sanitise_simple_subject() {
    assert_eq!(sanitise_filename("Q4 Budget Review", 80), "Q4 Budget Review");
}

#[test]
fn test_sanitise_special_characters() {
    let result = sanitise_filename("[open-webui/open-webui] Issue #4521: Fails!", 80);
    assert_eq!(result, "_open-webui_open-webui_ Issue _4521_ Fails_");
}

#[test]
fn test_sanitise_truncates_at_configured_length() {
    let long_subject = "A".repeat(120);
    assert_eq!(sanitise_filename(&long_subject, 80).len(), 80);
    assert_eq!(sanitise_filename(&long_subject, 50).len(), 50);
    assert_eq!(sanitise_filename(&long_subject, 120).len(), 120);
}

#[test]
fn test_sanitise_empty_string() {
    assert_eq!(sanitise_filename("", 80), "");
}

#[test]
fn test_sanitise_unicode_emoji() {
    let result = sanitise_filename("🎉 Holiday Party RSVP - Don't Miss Out!", 80);
    assert!(result.contains("Holiday Party RSVP"));
    assert!(!result.contains("🎉"));
}

#[test]
fn sanitise_counts_characters_not_bytes() {
    // Non-ASCII letters are alphanumeric and kept; the limit counts characters.
    assert_eq!(sanitise_filename("Grüße aus Köln", 80), "Grüße aus Köln");
    assert_eq!(sanitise_filename("Grüße aus Köln", 4), "Grüß");
    assert_eq!(sanitise_filename("path/to\\file.txt", 80), "path_to_file_txt");
}

#[test]
fn sanitise_twice_changes_nothing() {
    let once = sanitise_filename("Re: [x] a/b? c*d", 10);
    assert_eq!(once, "Re_ _x_ a_");
    assert_eq!(sanitise_filename(&once, 10), once);
}

#[test]
fn sanitise_with_zero_length_gives_nothing() {
    assert_eq!(sanitise_filename("Anything", 0), "");
}

#[test]
fn sanitise_replaces_path_and_template_characters() {
    assert_eq!(sanitise_filename("a/b\\c.d:e{f}g\u{0}h", 80), "a_b_c_d_e_f_g_h");
}

#[test]
fn default_length_sanitiser_matches_limit_of_eighty() {
    let long = "x/".repeat(70);
    for s in ["", "Q4 Budget Review", "[open-webui/open-webui] Issue #4521: Fails!", long.as_str()] {
        assert_eq!(sanitise_filename_default_length(s), sanitise_filename(s, 80));
    }
    assert_eq!(sanitise_filename_default_length(&long).chars().count(), 80);
    assert_eq!(&sanitise_filename_default_length(&long)[..4], "x_x_");
}
