use gmail_to_rag::Config;

#[test]
fn test_default_config_values() {
    let config = Config::default();
    assert_eq!(config.paths.default_output_dir, "./emails");
    assert_eq!(config.output.file_extension, "txt");
    assert_eq!(config.output.max_filename_length, 80);
    assert_eq!(config.output.index_padding, 5);
    assert_eq!(config.fallbacks.default_subject, "No Subject");
    assert_eq!(config.fallbacks.default_from, "Unknown");
    assert_eq!(config.fallbacks.default_date, "Unknown");
}

#[test]
fn test_format_filename() {
    let config = Config::default();
    let result = config.format_filename(42, "Hello World");
    assert_eq!(result, "00042_Hello World.txt");
}

#[test]
fn test_format_filename_custom_pattern() {
    let mut config = Config::default();
    config.output.filename_pattern = "email-{index}-{subject}.{ext}".to_string();
    config.output.index_padding = 3;
    config.output.file_extension = "md".to_string();

    let result = config.format_filename(7, "Test");
    assert_eq!(result, "email-007-Test.md");
}

#[test]
fn test_format_content() {
    let config = Config::default();
    let result = config.format_content("alice@test.com", "2025-01-01", "Hi", "Hello!");
    assert!(result.starts_with("From: alice@test.com\n"));
    assert!(result.contains("Subject: Hi\n"));
    assert!(result.contains("---\n\n"));
    assert!(result.ends_with("Hello!"));
}

#[test]
fn test_format_content_custom_template() {
    let mut config = Config::default();
    config.output.file_template =
        "# {subject}\\n\\nFrom {from} on {date}\\n\\n{body}".to_string();

    let result = config.format_content("alice@test.com", "2025-01-01", "Hi", "Hello!");
    assert_eq!(result, "# Hi\n\nFrom alice@test.com on 2025-01-01\n\nHello!");
}

#[test]
fn test_format_filename_zero_index() {
    let config = Config::default();
    assert_eq!(config.format_filename(0, "Test"), "00000_Test.txt");
}

#[test]
fn test_format_filename_large_index() {
    let config = Config::default();
    assert_eq!(config.format_filename(123456, "Test"), "123456_Test.txt");
}

#[test]
fn default_content_has_the_expected_layout() {
    let config = Config::default();
    let result = config.format_content("a@b.c", "Mon, 1 Jan 2025", "Hello", "Line one\nLine two");
    assert_eq!(
        result,
        "From: a@b.c\nDate: Mon, 1 Jan 2025\nSubject: Hello\n---\n\nLine one\nLine two"
    );
}

#[test]
fn replacements_apply_in_order_to_inserted_text() {
    // A sender that holds a later placeholder is itself rewritten, and a
    // backslash-n anywhere becomes a line break.
    let mut config = Config::default();
    config.output.file_template = "{from}|{date}".to_string();
    let result = config.format_content("x{date}y", "D", "S", "B");
    assert_eq!(result, "xDy|D");
    let result = config.format_content("a\\nb", "D", "S", "B");
    assert_eq!(result, "a\nb|D");
}

#[test]
fn placeholders_repeat_and_absent_ones_are_ignored() {
    let mut config = Config::default();
    config.output.filename_pattern = "{subject}-{subject}".to_string();
    assert_eq!(config.format_filename(3, "S"), "S-S");
    config.output.filename_pattern = "{index}{index}.{ext}".to_string();
    config.output.index_padding = 0;
    assert_eq!(config.format_filename(12, "S"), "1212.txt");
}

#[test]
fn padding_narrower_than_the_number_keeps_every_digit() {
    let mut config = Config::default();
    config.output.index_padding = 2;
    assert_eq!(config.format_filename(98765, "x"), "98765_x.txt");
    config.output.index_padding = 8;
    assert_eq!(config.format_filename(5, "x"), "00000005_x.txt");
}

#[test]
fn different_indices_never_share_a_file_name() {
    let mut config = Config::default();
    config.output.index_padding = 1;
    let names = [
        config.format_filename(1, "0_x"),
        config.format_filename(10, "x"),
        config.format_filename(0, "1_x"),
        config.format_filename(101, ""),
    ];
    for a in 0..names.len() {
        for b in 0..names.len() {
            if a != b {
                assert_ne!(names[a], names[b]);
            }
        }
    }
}
