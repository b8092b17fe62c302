use container_mirror::discord::{
    decode, description, embed_at, embed_container, footer, format_logs, log_text, tail,
    text_container, EmbedError, Payload, EMBED_LOG_LIMIT, FIRST_MICROSECOND, LAST_MICROSECOND,
    PACKAGE_NAME, PACKAGE_VERSION, TEXT_LOG_LIMIT,
};
use container_mirror::docker::{Container, LogOutput};
use twilight_model::util::Timestamp;

fn web() -> Container {
    Container {
        id: "abc123".to_string(),
        name: "/web".to_string(),
        image: "nginx:latest".to_string(),
        command: "nginx -g daemon off;".to_string(),
        status: "Up 2 hours".to_string(),
    }
}

fn out(text: &str) -> LogOutput {
    LogOutput::StdOut { message: text.as_bytes().to_vec() }
}

#[test]
fn decode_keeps_valid_text() {
    assert_eq!(decode(&"héllo\n".as_bytes().to_vec()), "héllo\n");
    assert_eq!(decode(&Vec::new()), "");
}

#[test]
fn decode_replaces_malformed_bytes_with_a_notice() {
    assert_eq!(
        decode(&vec![0x66, 0x6f, 0xff]),
        "-- Failed to parse bytes as utf8: invalid utf-8 sequence of 1 bytes from index 2"
    );
    assert_eq!(
        decode(&vec![0x61, 0xe2, 0x82]),
        "-- Failed to parse bytes as utf8: incomplete utf-8 byte sequence from index 1"
    );
}

#[test]
fn log_text_strips_escapes_and_joins_in_order() {
    let logs = vec![
        LogOutput::StdOut { message: b"\x1b[32mfoo\x1b[m bar\n".to_vec() },
        LogOutput::StdErr { message: b"second\n".to_vec() },
        LogOutput::StdIn { message: b"third".to_vec() },
        LogOutput::Console { message: b"\x1b[1mfourth\x1b[0m".to_vec() },
    ];
    assert_eq!(log_text(&logs), "foo bar\nsecond\nthirdfourth");
    assert_eq!(log_text(&[]), "");
}

#[test]
fn log_text_drops_control_characters_but_keeps_line_feeds() {
    let logs = vec![out("a\x07b\rc\nd\te")];
    assert_eq!(log_text(&logs), "abc\nde");
}

#[test]
fn log_text_marks_a_malformed_frame_and_goes_on() {
    let logs = vec![out("ok "), LogOutput::StdOut { message: vec![0xc0] }, out(" after")];
    assert_eq!(
        log_text(&logs),
        "ok -- Failed to parse bytes as utf8: invalid utf-8 sequence of 1 bytes from index 0 after"
    );
}

#[test]
fn tail_keeps_the_last_characters() {
    assert_eq!(tail("abcdef", 3), "def");
    assert_eq!(tail("abcdef", 6), "abcdef");
    assert_eq!(tail("abcdef", 7), "abcdef");
    assert_eq!(tail("abcdef", 0), "");
    assert_eq!(tail("", 5), "");
}

#[test]
fn tail_counts_characters_not_bytes() {
    assert_eq!(tail("aé😀z", 2), "😀z");
    assert_eq!(tail("aé😀z", 3), "é😀z");
    assert_eq!(tail("ééé", 1).chars().count(), 1);
}

#[test]
fn format_logs_has_min_of_length_and_limit_characters() {
    let long: String = "0123456789".repeat(500);
    let logs = vec![out(&long)];
    let shown = format_logs(&logs, EMBED_LOG_LIMIT);
    assert_eq!(shown.chars().count(), 3900);
    assert_eq!(shown, long[1100..]);
    let short = format_logs(&logs, TEXT_LOG_LIMIT);
    assert_eq!(short.chars().count(), 1900);
    assert_eq!(short, long[3100..]);
    let whole = format_logs(&logs, 5000);
    assert_eq!(whole, long);
    let exact = format_logs(&logs, 5001);
    assert_eq!(exact.chars().count(), 5000);
}

#[test]
fn embed_at_builds_every_field() {
    let logs = vec![out("\x1b[31mhello\x1b[0m\n"), out("world\n")];
    let embed = embed_at(&web(), &logs, 1_580_608_922_020_000).unwrap();
    assert_eq!(embed.author, "/web (abc123)");
    assert_eq!(embed.color, 0x3772FF);
    assert_eq!(
        embed.description,
        "Image `nginx:latest`\nRunning `nginx -g daemon off;`:\n```hello\nworld\n```"
    );
    assert_eq!(embed.footer, "container_mirror (0.1.0)");
    assert_eq!(embed.kind, "rich");
    assert_eq!(embed.timestamp, 1_580_608_922_020_000);
    assert_eq!(embed.title, "Up 2 hours");
}

#[test]
fn embed_at_truncates_the_log_to_its_tail() {
    let long: String = "x".repeat(100) + &"y".repeat(3900);
    let embed = embed_at(&web(), &[out(&long)], 0).unwrap();
    let expected = format!(
        "Image `nginx:latest`\nRunning `nginx -g daemon off;`:\n```{}```",
        "y".repeat(3900)
    );
    assert_eq!(embed.description, expected);
}

#[test]
fn embed_at_accepts_exactly_the_representable_instants() {
    assert!(embed_at(&web(), &[], FIRST_MICROSECOND).is_ok());
    assert!(embed_at(&web(), &[], LAST_MICROSECOND).is_ok());
    assert_eq!(embed_at(&web(), &[], FIRST_MICROSECOND - 1), Err(EmbedError::Timestamp));
    assert_eq!(embed_at(&web(), &[], LAST_MICROSECOND + 1), Err(EmbedError::Timestamp));
    assert_eq!(embed_at(&web(), &[], i64::MAX), Err(EmbedError::Timestamp));
    assert_eq!(embed_at(&web(), &[], i64::MIN), Err(EmbedError::Timestamp));
}

#[test]
fn timestamp_bounds_agree_with_twilight() {
    assert_eq!(Timestamp::from_micros(FIRST_MICROSECOND).unwrap().as_micros(), FIRST_MICROSECOND);
    assert_eq!(Timestamp::from_micros(LAST_MICROSECOND).unwrap().as_micros(), LAST_MICROSECOND);
    assert!(Timestamp::from_micros(FIRST_MICROSECOND - 1).is_err());
    assert!(Timestamp::from_micros(LAST_MICROSECOND + 1).is_err());
}

#[test]
fn embed_container_stamps_the_present() {
    let embed = embed_container(&web(), &[out("line\n")]).unwrap();
    assert!(embed.timestamp > 1_600_000_000_000_000);
    assert_eq!(embed, embed_at(&web(), &[out("line\n")], embed.timestamp).unwrap());
}

#[test]
fn embed_error_says_what_failed() {
    assert_eq!(EmbedError::Timestamp.message(), "Failed to get timestamp");
}

#[test]
fn text_container_uses_the_shorter_limit() {
    let long: String = "a".repeat(50) + &"b".repeat(1900);
    let text = text_container(&web(), &[out(&long)]);
    let expected = format!(
        "Image `nginx:latest`\nRunning `nginx -g daemon off;`:\n```{}```",
        "b".repeat(1900)
    );
    assert_eq!(text, expected);
}

#[test]
fn format_gives_an_embed_or_falls_back_to_text() {
    let logs = vec![out("log\n")];
    match container_mirror::discord::format(&web(), &logs, 42) {
        Payload::Embed(embed) => assert_eq!(embed, embed_at(&web(), &logs, 42).unwrap()),
        Payload::Text(_) => panic!("expected an embed"),
    }
    match container_mirror::discord::format(&web(), &logs, i64::MAX) {
        Payload::Text(text) => assert_eq!(text, text_container(&web(), &logs)),
        Payload::Embed(_) => panic!("expected plain text"),
    }
}

#[test]
fn description_puts_image_command_and_log_together() {
    assert_eq!(
        description(&web(), "one\ntwo\n"),
        "Image `nginx:latest`\nRunning `nginx -g daemon off;`:\n```one\ntwo\n```"
    );
    assert_eq!(
        description(&web(), ""),
        "Image `nginx:latest`\nRunning `nginx -g daemon off;`:\n``````"
    );
}

#[test]
fn footer_names_the_program_and_its_version() {
    assert_eq!(PACKAGE_NAME, "container_mirror");
    assert_eq!(PACKAGE_VERSION, "0.1.0");
    assert_eq!(footer(), "container_mirror (0.1.0)");
    assert_eq!(embed_at(&web(), &[], 0).unwrap().footer, footer());
}

#[test]
fn a_clock_reading_is_stamped_as_it_comes() {
    let first = embed_container(&web(), &[]).unwrap().timestamp;
    let second = embed_container(&web(), &[]).unwrap().timestamp;
    assert!((second - first).abs() < 60_000_000);
    assert!(first > 1_600_000_000_000_000);
}
