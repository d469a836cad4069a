use pastelink::chat::classify_input;
use pastelink::chat::ChatCommand;
use pastelink::utils::add_timestamp;
use pastelink::utils::format_bytes;
use pastelink::utils::format_duration;
use pastelink::utils::stamp_message;

#[test]
fn bytes_zero_and_small() {
    assert_eq!(format_bytes(0), "0 B");
    assert_eq!(format_bytes(1), "1.00 B");
    assert_eq!(format_bytes(512), "512.00 B");
    assert_eq!(format_bytes(1023), "1023.00 B");
}

#[test]
fn bytes_scaled_units() {
    assert_eq!(format_bytes(1024), "1.00 KB");
    assert_eq!(format_bytes(1536), "1.50 KB");
    assert_eq!(format_bytes(10 * 1024), "10.00 KB");
    assert_eq!(format_bytes(1024 * 1024), "1.00 MB");
    assert_eq!(format_bytes(1024 * 1024 * 1024), "1.00 GB");
    assert_eq!(format_bytes(1024usize * 1024 * 1024 * 1024), "1.00 TB");
}

#[test]
fn bytes_beyond_terabytes_stay_in_terabytes() {
    assert_eq!(format_bytes(2048usize * 1024 * 1024 * 1024 * 1024), "2048.00 TB");
}

#[test]
fn bytes_fraction_is_zero_padded() {
    // 1100 / 1024 = 1.0742...: rounds to two places as 1.07
    assert_eq!(format_bytes(1100), "1.07 KB");
    // 1034 / 1024 = 1.0097...: the fraction keeps its leading zero
    assert_eq!(format_bytes(1034), "1.01 KB");
}

#[test]
fn duration_seconds_minutes_hours() {
    assert_eq!(format_duration(0), "0s");
    assert_eq!(format_duration(45), "45s");
    assert_eq!(format_duration(60), "1m 0s");
    assert_eq!(format_duration(125), "2m 5s");
    assert_eq!(format_duration(3600), "1h 0m 0s");
    assert_eq!(format_duration(3725), "1h 2m 5s");
    assert_eq!(format_duration(86400), "24h 0m 0s");
}

#[test]
fn stamping_a_message() {
    assert_eq!(stamp_message("12:34:56", "hello"), "[12:34:56] hello");
}

#[test]
fn timestamp_shape() {
    let r = add_timestamp("hello");
    assert_eq!(r.chars().count(), "hello".len() + 11);
    assert!(r.starts_with('['));
    assert_eq!(r.chars().nth(9), Some(']'));
    assert_eq!(r.chars().nth(10), Some(' '));
    assert!(r.ends_with("hello"));
}

#[test]
fn chat_commands_classify() {
    assert_eq!(classify_input("/exit"), ChatCommand::Exit);
    assert_eq!(classify_input("/quit"), ChatCommand::Exit);
    assert_eq!(classify_input("/help"), ChatCommand::Help);
    assert_eq!(classify_input("/status"), ChatCommand::Status);
    assert_eq!(classify_input("/clear"), ChatCommand::Clear);
    assert_eq!(classify_input("/history"), ChatCommand::History);
    assert_eq!(classify_input("/frobnicate"), ChatCommand::Unknown);
}

#[test]
fn chat_input_is_trimmed_first() {
    assert_eq!(classify_input("  /exit  "), ChatCommand::Exit);
    assert_eq!(classify_input(""), ChatCommand::Empty);
    assert_eq!(classify_input("   "), ChatCommand::Empty);
    assert_eq!(classify_input("  hello there  "), ChatCommand::Message);
}
