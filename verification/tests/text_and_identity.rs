use carry_talk::device_identity::{
    backend_namespace, fingerprint_payload, microphone_rematch_score, namespaced_id, normalize_label,
    parse_v2_fingerprint, parse_v2_fingerprint_payload, split_namespaced_id, split_versioned_payload,
    versioned_id, InputFingerprint,
};
use carry_talk::numeric::{parse_u16, parse_u32, u64_to_string};
use carry_talk::text::{is_blank, sort_strings, split_once_char, str_le, trim};
use carry_talk::types::AudioBackendKind;

fn fp(label: &str, rate: u32, channels: u16, format: &str, sig: &str) -> InputFingerprint {
    InputFingerprint {
        normalized_label: label.to_string(),
        default_sample_rate: rate,
        default_channels: channels,
        default_sample_format: format.to_string(),
        capability_signature: sig.to_string(),
    }
}

#[test]
fn trim_and_blank_follow_unicode_whitespace() {
    assert_eq!(trim("  a b \t\n"), "a b");
    assert_eq!(trim("\u{3000}x\u{a0}"), "x");
    assert!(is_blank(" \t\r\n"));
    assert!(!is_blank(" . "));
}

#[test]
fn decimal_rendering_and_parsing() {
    assert_eq!(u64_to_string(0), "0");
    assert_eq!(u64_to_string(18446744073709551615), "18446744073709551615");
    assert_eq!(parse_u32("42"), Some(42));
    assert_eq!(parse_u32("+42"), Some(42));
    assert_eq!(parse_u32("4294967295"), Some(4294967295));
    assert_eq!(parse_u32("4294967296"), None);
    assert_eq!(parse_u32(""), None);
    assert_eq!(parse_u32("-1"), None);
    assert_eq!(parse_u32("1 "), None);
    assert_eq!(parse_u16("65535"), Some(65535));
    assert_eq!(parse_u16("65536"), None);
}

#[test]
fn strings_sort_like_str_ord() {
    let sorted = sort_strings(vec!["b".to_string(), "a".to_string(), "ab".to_string(), "a".to_string(), "B".to_string()]);
    assert_eq!(sorted, vec!["B", "a", "a", "ab", "b"]);
    assert!(str_le("abc", "abd"));
    assert!(str_le("ab", "abc"));
    assert!(!str_le("b", "abc"));
    assert!(str_le("", ""));
}

#[test]
fn split_once_takes_the_first_separator() {
    assert_eq!(split_once_char("a:b:c", ':'), Some(("a", "b:c")));
    assert_eq!(split_once_char("abc", ':'), None);
    assert_eq!(split_once_char(":x", ':'), Some(("", "x")));
}

#[test]
fn namespaces_of_backends() {
    assert_eq!(backend_namespace(AudioBackendKind::Cpal), "cpal");
    assert_eq!(backend_namespace(AudioBackendKind::WindowsSystem), "windows-system");
    assert_eq!(backend_namespace(AudioBackendKind::MacosSystem), "macos-system");
    assert_eq!(backend_namespace(AudioBackendKind::LinuxSystem), "linux-system");
}

#[test]
fn labels_are_normalized() {
    assert_eq!(normalize_label("  USB   Mic\tPRO  "), "usb mic pro");
    assert_eq!(normalize_label("Ärger MIC"), "Ärger mic");
    assert_eq!(normalize_label("   "), "");
}

#[test]
fn namespaced_ids_split_back() {
    assert_eq!(namespaced_id("cpal", "Mic"), "cpal:Mic");
    assert_eq!(split_namespaced_id("cpal:Mic:1"), Some(("cpal", "Mic:1")));
    assert_eq!(split_namespaced_id(":Mic"), None);
    assert_eq!(split_namespaced_id("cpal:"), None);
    assert_eq!(split_namespaced_id("cpal"), None);
    assert_eq!(versioned_id("cpal", "v2", "x|1"), "cpal:v2:x|1");
    assert_eq!(split_versioned_payload("v2:a:b"), Some(("v2", "a:b")));
    assert_eq!(parse_v2_fingerprint_payload("v2:abc"), Some("abc"));
    assert_eq!(parse_v2_fingerprint_payload("v3:abc"), None);
}

#[test]
fn fingerprint_payload_round_trips() {
    let f = fp("usb mic", 48000, 2, "F32", "1:8000-48000:F32,2:8000-48000:I16");
    let payload = fingerprint_payload(&f);
    assert_eq!(payload, "usb mic|48000|2|F32|1:8000-48000:F32,2:8000-48000:I16");
    let id = versioned_id("v2", "", "");
    assert_eq!(id, "v2::");
    let parsed = parse_v2_fingerprint(&format!("v2:{payload}")).unwrap();
    assert_eq!(parsed.normalized_label, "usb mic");
    assert_eq!(parsed.default_sample_rate, 48000);
    assert_eq!(parsed.default_channels, 2);
    assert_eq!(parsed.default_sample_format, "F32");
    assert_eq!(parsed.capability_signature, "1:8000-48000:F32,2:8000-48000:I16");
}

#[test]
fn fingerprint_parsing_rejects_bad_payloads() {
    assert!(parse_v2_fingerprint("v2:mic|x|2|F32|sig").is_none());
    assert!(parse_v2_fingerprint("v2:mic|48000|70000|F32|sig").is_none());
    assert!(parse_v2_fingerprint("v2:   |48000|2|F32|sig").is_none());
    assert!(parse_v2_fingerprint("v2:mic|48000|2|F32").is_none());
    let extra = parse_v2_fingerprint("v2:  My  MIC |44100|1|I16|a|b").unwrap();
    assert_eq!(extra.normalized_label, "my mic");
    assert_eq!(extra.capability_signature, "a|b");
}

#[test]
fn rematch_score_weights() {
    let saved = fp("usb mic", 48000, 2, "F32", "sig");
    assert_eq!(microphone_rematch_score(&saved, &saved), 100);
    assert_eq!(microphone_rematch_score(&saved, &fp("usb mic", 44100, 2, "F32", "sig")), 85);
    assert_eq!(microphone_rematch_score(&saved, &fp("other", 48000, 2, "F32", "sig")), 40);
    assert_eq!(microphone_rematch_score(&saved, &fp("usb mic", 48000, 1, "I16", "x")), 75);
    assert_eq!(microphone_rematch_score(&saved, &fp("x", 1, 1, "y", "z")), 0);
}

#[test]
fn normalized_label_has_single_inner_spaces_only() {
    let n = normalize_label("\u{a0} Line\u{2003}\u{2003}In \n");
    assert_eq!(n, "line in");
    assert!(!n.starts_with(' ') && !n.ends_with(' ') && !n.contains("  "));
    assert_eq!(normalize_label("\u{3000}\t"), "");
}

#[test]
fn instants_convert_to_milliseconds_like_chrono() {
    assert_eq!(carry_talk::clock::millis_from_nanos(1_999_999), 1);
    assert_eq!(carry_talk::clock::millis_from_nanos(-1), -1);
    assert_eq!(carry_talk::clock::millis_from_nanos(-1_000_000), -1);
    assert_eq!(carry_talk::clock::millis_from_nanos(-1_000_001), -2);
    assert_eq!(carry_talk::clock::elapsed_millis(3_000_999_999, 0), 3000);
    assert_eq!(carry_talk::clock::elapsed_millis(0, 3_000_999_999), -3000);
    assert_eq!(carry_talk::clock::elapsed_millis(-500_000, 600_000), -1);
    assert_eq!(carry_talk::clock::elapsed_millis(i128::MAX, i128::MIN), 340_282_366_920_938_463_463_374_607_431_768);
    assert_eq!(carry_talk::clock::elapsed_millis(i128::MIN, i128::MAX), -340_282_366_920_938_463_463_374_607_431_768);
}
