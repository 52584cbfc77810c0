use carry_talk::capabilities::{
    api_key_rollback, ApiKeyRollback,
    api_key_secret_id_for_provider, api_key_to_store, backend_label, build_input_capability_signature,
    current_platform_system_backend, default_system_backend_reason, dynamic_system_backend_reason,
    format_audio_reason, input_config_signature, input_fingerprint, microphone_device, reason,
    runtime_capabilities, selected_target_lang, system_output_capability, validate_audio_mode, TargetOs,
};
use carry_talk::capture_plan::{
    next_capture_step, next_preflight_step, CaptureStep, PreflightOutcome, PreflightStep, SourceStreamFormat, StartOutcome,
    describe_system_device_for_warning, fallback_warning_message, has_monitor_candidate, linux_system_candidates,
    listed_device, monitor_failure_text, monitor_switch_warning, resolve_input_device, InputCandidate, InputChoice,
};
use carry_talk::device_identity::{fingerprint_payload, InputFingerprint};
use carry_talk::device_settings::{
    best_host_index, canonicalize_linux_system_device_id, canonicalize_microphone_device_id,
    canonicalize_namespaced_device_id, canonicalize_system_device_id, linux_host_bias, normalize_device_selection,
    score_generic_input_host, split_backend_device_id, HostInputs, bridge_legacy_audio_settings, LegacyAudioFields,
};
use carry_talk::system_devices::{
    decode_display_id, display_label_parts, encode_display_id, linux_monitor_device_id, loopback_device,
    monitor_device, monitor_source_from_info, normalize_linux_system_selection, normalize_macos_system_device_id,
    normalize_windows_system_device_id, parse_linux_monitor_device_id, record_buffer_len, render_device_request,
    resolve_display, resolve_monitor_source, sort_monitor_sources, validate_loopback_format, DisplayInfo,
    MonitorSource,
};
use carry_talk::types::{
    AudioBackendKind, AudioCapabilityReason, AudioCaptureMode, AudioSourceDevice, PhysicalAudioSource, ProviderSettings,
};

fn dev(id: &str, label: &str, backend: AudioBackendKind, usable: bool) -> AudioSourceDevice {
    AudioSourceDevice {
        id: id.to_string(),
        label: label.to_string(),
        source: PhysicalAudioSource::SystemOutput,
        backend,
        is_default: false,
        usable,
    }
}

fn fingerprint(label: &str, rate: u32) -> InputFingerprint {
    InputFingerprint {
        normalized_label: label.to_string(),
        default_sample_rate: rate,
        default_channels: 1,
        default_sample_format: "F32".to_string(),
        capability_signature: "1:8000-48000:F32".to_string(),
    }
}

fn cand(name: &str, fp: Option<InputFingerprint>) -> InputCandidate {
    InputCandidate { name: Some(name.to_string()), fingerprint: fp }
}

fn monitor(name: &str, description: &str, is_default: bool) -> MonitorSource {
    MonitorSource { name: name.to_string(), description: description.to_string(), rate: 48000, channels: 2, is_default }
}

#[test]
fn platform_backends_and_labels() {
    assert_eq!(current_platform_system_backend(TargetOs::Linux), AudioBackendKind::LinuxSystem);
    assert_eq!(current_platform_system_backend(TargetOs::Macos), AudioBackendKind::MacosSystem);
    assert_eq!(current_platform_system_backend(TargetOs::Windows), AudioBackendKind::WindowsSystem);
    assert_eq!(backend_label(AudioBackendKind::LinuxSystem), "linux_system");
    assert_eq!(backend_label(AudioBackendKind::Cpal), "cpal");
}

#[test]
fn reasons_for_unusable_system_audio() {
    let r = default_system_backend_reason(AudioBackendKind::LinuxSystem, true);
    assert_eq!(r.code, "audio.system.no_monitor_source");
    let r = default_system_backend_reason(AudioBackendKind::MacosSystem, true);
    assert_eq!(r.code, "audio.system.no_display_available");
    let r = default_system_backend_reason(AudioBackendKind::MacosSystem, false);
    assert_eq!(r.code, "audio.system.runtime_verification_pending");
    let r = default_system_backend_reason(AudioBackendKind::WindowsSystem, false);
    assert_eq!(r.code, "audio.system.runtime_not_wired");
    assert_eq!(r.detail.unwrap(), "System audio backend `windows_system` is not wired on this runtime yet");
    let d = dynamic_system_backend_reason(AudioBackendKind::Cpal, "boom".to_string());
    assert_eq!((d.code.as_str(), d.detail.as_deref()), ("audio.system.runtime_error", Some("boom")));
    let d = dynamic_system_backend_reason(AudioBackendKind::LinuxSystem, "x".to_string());
    assert_eq!(d.code, "audio.system.enumeration_failed");
}

#[test]
fn capabilities_combine_both_sources() {
    let sys = system_output_capability(AudioBackendKind::LinuxSystem, Ok(vec![dev("a", "A", AudioBackendKind::LinuxSystem, false)]));
    assert!(!sys.usable);
    assert_eq!(sys.reason.as_ref().unwrap().code, "audio.system.no_monitor_source");
    let failed = system_output_capability(AudioBackendKind::MacosSystem, Err("no access".to_string()));
    assert!(!failed.usable && failed.devices.is_empty());
    assert_eq!(failed.reason.as_ref().unwrap().detail.as_deref(), Some("no access"));
    let mics = vec![dev("cpal:m", "M", AudioBackendKind::Cpal, true)];
    let caps = runtime_capabilities(mics, failed);
    assert!(caps.microphone.usable);
    assert!(!caps.mixed_supported);
    let mr = caps.mixed_reason.as_ref().unwrap();
    assert_eq!(mr.code, "audio.mixed.requires_system_audio");
    assert_eq!(mr.detail.as_deref(), Some("no access"));
    let good = system_output_capability(AudioBackendKind::LinuxSystem, Ok(vec![dev("b", "B", AudioBackendKind::LinuxSystem, true)]));
    let none = runtime_capabilities(Vec::new(), good);
    assert!(!none.microphone.usable);
    assert_eq!(none.microphone.reason.as_ref().unwrap().code, "audio.microphone.no_usable_device");
    assert_eq!(none.mixed_reason.as_ref().unwrap().code, "audio.mixed.requires_microphone");
}

#[test]
fn capture_modes_are_checked_against_capabilities() {
    let sys = system_output_capability(AudioBackendKind::LinuxSystem, Ok(Vec::new()));
    let caps = runtime_capabilities(vec![dev("cpal:m", "M", AudioBackendKind::Cpal, true)], sys);
    assert!(validate_audio_mode(AudioCaptureMode::Mic, &caps, TargetOs::Linux).is_ok());
    let e = validate_audio_mode(AudioCaptureMode::System, &caps, TargetOs::Linux).unwrap_err();
    assert!(e.starts_with("No usable Linux monitor-source input found."));
    assert!(validate_audio_mode(AudioCaptureMode::System, &caps, TargetOs::Windows).is_ok());
    assert!(validate_audio_mode(AudioCaptureMode::Mixed, &caps, TargetOs::Macos).is_ok());
    let e = validate_audio_mode(AudioCaptureMode::Mixed, &caps, TargetOs::Linux).unwrap_err();
    assert!(e.starts_with("No usable Linux monitor-source input found."));
    let no_mic = runtime_capabilities(Vec::new(), system_output_capability(AudioBackendKind::LinuxSystem, Ok(Vec::new())));
    assert_eq!(validate_audio_mode(AudioCaptureMode::Mic, &no_mic, TargetOs::Windows).unwrap_err(), "Microphone capture is unavailable on this runtime");
}

#[test]
fn reason_text_falls_back_when_blank() {
    let blank = AudioCapabilityReason { code: "c".to_string(), detail: Some("   ".to_string()) };
    assert_eq!(format_audio_reason(Some(&blank), "fallback"), "fallback");
    assert_eq!(format_audio_reason(None, "fallback"), "fallback");
    let r = reason("c", Some("detail".to_string()));
    assert_eq!(format_audio_reason(Some(&r), "fallback"), "detail");
}

#[test]
fn provider_settings_pick_the_target_language() {
    let mut p = ProviderSettings {
        name: "soniox".to_string(),
        source_language: "en".to_string(),
        translation_enabled: true,
        translation_target_language: "de".to_string(),
    };
    assert_eq!(selected_target_lang(&p, None), "de");
    assert_eq!(selected_target_lang(&p, Some("fr".to_string())), "fr");
    p.translation_enabled = false;
    assert_eq!(selected_target_lang(&p, Some("fr".to_string())), "");
    assert_eq!(api_key_secret_id_for_provider("soniox").unwrap(), "provider.soniox.api_key");
    assert_eq!(api_key_secret_id_for_provider("openai").unwrap_err(), "API key mapping not configured for provider `openai`");
    assert_eq!(api_key_to_store(Some("  k  ")), Some("k".to_string()));
    assert_eq!(api_key_to_store(Some("   ")), None);
    assert_eq!(api_key_to_store(None), None);
}

#[test]
fn microphones_are_listed_with_fingerprint_ids() {
    let sig = build_input_capability_signature(Some(vec![
        input_config_signature(2, 8000, 48000, "F32"),
        input_config_signature(1, 8000, 48000, "I16"),
    ]));
    assert_eq!(sig, "1:8000-48000:I16,2:8000-48000:F32");
    assert_eq!(build_input_capability_signature(None), "unknown");
    assert_eq!(build_input_capability_signature(Some(Vec::new())), "");
    let fp = input_fingerprint("  USB  Mic ", Some((48000, 1, "F32".to_string())), sig.clone());
    assert_eq!(fp.normalized_label, "usb mic");
    let none = input_fingerprint("X", None, "unknown".to_string());
    assert_eq!((none.default_sample_rate, none.default_channels, none.default_sample_format.as_str()), (0, 0, "unknown"));
    let d = microphone_device("USB Mic".to_string(), Some(fp.clone()), "USB Mic");
    assert_eq!(d.id, format!("cpal:v2:{}", fingerprint_payload(&fp)));
    assert!(d.is_default && d.usable);
    let plain = microphone_device("Other".to_string(), None, "USB Mic");
    assert_eq!(plain.id, "cpal:Other");
    assert!(!plain.is_default);
    let listed = listed_device("Mic", "Mic");
    assert_eq!(listed.name, "cpal:Mic");
    assert!(listed.is_default);
}

#[test]
fn saved_microphones_resolve_by_id_rematch_or_name() {
    let a = fingerprint("usb mic", 48000);
    let b = fingerprint("usb mic", 44100);
    let cands = vec![cand("Built-in", None), cand("USB Mic", Some(b.clone()))];
    assert_eq!(resolve_input_device(None, &cands).unwrap(), InputChoice::Default);
    assert_eq!(resolve_input_device(Some("default"), &cands).unwrap(), InputChoice::Default);
    let exact_b = format!("cpal:v2:{}", fingerprint_payload(&b));
    assert_eq!(resolve_input_device(Some(&exact_b), &cands).unwrap(), InputChoice::Candidate(1));
    let saved_a = format!("cpal:v2:{}", fingerprint_payload(&a));
    assert_eq!(resolve_input_device(Some(&saved_a), &cands).unwrap(), InputChoice::Candidate(1));
    let far = format!("cpal:v2:{}", fingerprint_payload(&fingerprint("other", 1)));
    assert_eq!(resolve_input_device(Some(&far), &cands).unwrap(), InputChoice::Default);
    assert_eq!(resolve_input_device(Some("cpal:v2:broken"), &cands).unwrap_err(), "Invalid CPAL microphone fingerprint: cpal:v2:broken");
    assert_eq!(resolve_input_device(Some("cpal:Built-in"), &cands).unwrap(), InputChoice::Candidate(0));
    assert_eq!(resolve_input_device(Some("USB Mic"), &cands).unwrap(), InputChoice::Candidate(1));
    assert_eq!(resolve_input_device(Some("nope"), &cands).unwrap_err(), "Device not found: nope");
}

#[test]
fn rematch_prefers_the_first_best_score() {
    let saved = fingerprint("usb mic", 48000);
    let c1 = fingerprint("usb mic", 44100);
    let c2 = fingerprint("usb mic", 48000);
    let c3 = fingerprint("usb mic", 48000);
    let mut c2b = c2.clone();
    c2b.capability_signature = "other".to_string();
    let cands = vec![cand("a", Some(c1)), cand("b", Some(c2b)), cand("c", Some(c3.clone())), cand("d", Some(c3))];
    let id = format!("cpal:v2:{}|x", fingerprint_payload(&saved));
    // the saved payload differs from every candidate id; scores 85, 90, 90, 90
    let mut saved_with_sig = saved.clone();
    saved_with_sig.capability_signature = "other".to_string();
    let id2 = format!("cpal:v2:{}", fingerprint_payload(&saved_with_sig));
    assert_eq!(resolve_input_device(Some(&id2), &cands).unwrap(), InputChoice::Candidate(1));
    assert!(resolve_input_device(Some(&id), &cands).is_ok());
}

#[test]
fn linux_monitor_candidates_and_warnings() {
    let devices = vec![
        dev("linux-system:v3:a.monitor", "A", AudioBackendKind::LinuxSystem, true),
        dev("cpal:x", "X", AudioBackendKind::Cpal, true),
        dev("linux-system:v3:b.monitor", "B", AudioBackendKind::LinuxSystem, true),
    ];
    assert_eq!(
        linux_system_candidates(Some("linux-system:v3:b.monitor"), &devices),
        vec!["linux-system:v3:b.monitor", "linux-system:v3:a.monitor"]
    );
    assert_eq!(linux_system_candidates(Some("default"), &devices), vec!["linux-system:v3:a.monitor", "linux-system:v3:b.monitor"]);
    assert_eq!(linux_system_candidates(None, &[]), vec!["default"]);
    assert!(has_monitor_candidate(&devices));
    assert!(!has_monitor_candidate(&devices[1..2]));
    assert_eq!(describe_system_device_for_warning(None, TargetOs::Linux), "the default system monitor");
    assert_eq!(describe_system_device_for_warning(Some(""), TargetOs::Windows), "the default system audio source");
    assert_eq!(describe_system_device_for_warning(Some("linux-system:v3:a"), TargetOs::Linux), "the selected system monitor");
    assert_eq!(describe_system_device_for_warning(Some("windows-system:x"), TargetOs::Windows), "the selected system device");
    assert_eq!(
        fallback_warning_message(Some("linux-system:v3:a"), "microphone capture", "busy", TargetOs::Linux),
        "Failed to start system audio from the selected system monitor: busy. Switched to microphone capture."
    );
    assert!(monitor_switch_warning(0, Some("e"), None, false, TargetOs::Linux).is_none());
    assert_eq!(
        monitor_switch_warning(1, None, None, true, TargetOs::Linux).unwrap(),
        "Switched system audio capture to another available system monitor while keeping microphone capture active."
    );
    assert_eq!(
        monitor_switch_warning(2, Some("e"), None, false, TargetOs::Linux).unwrap(),
        "Failed to start system audio from the default system monitor: e. Switched to another available system monitor."
    );
    assert_eq!(monitor_failure_text(None), "No Linux system monitor source candidates were available");
    assert_eq!(monitor_failure_text(Some("x".to_string())), "x");
}

#[test]
fn settings_device_ids_are_canonical() {
    assert_eq!(normalize_device_selection(Some("  x ".to_string())), Some("x".to_string()));
    assert_eq!(normalize_device_selection(Some("   ".to_string())), None);
    assert_eq!(split_backend_device_id("cpal:Mic"), Some(("cpal", "Mic")));
    assert_eq!(split_backend_device_id("other:Mic"), None);
    let c = |v: Option<&str>| canonicalize_namespaced_device_id(v.map(str::to_string), AudioBackendKind::Cpal, "default");
    assert_eq!(c(None), "default");
    assert_eq!(c(Some(" default ")), "default");
    assert_eq!(c(Some("Mic")), "cpal:Mic");
    assert_eq!(c(Some("cpal:Mic")), "cpal:Mic");
    assert_eq!(c(Some("linux-system:Mic")), "cpal:Mic");
    assert_eq!(c(Some("foo:Mic")), "cpal:foo:Mic");
    let fp = fingerprint("usb mic", 48000);
    let cands = vec![cand("USB Mic", Some(fp.clone()))];
    assert_eq!(
        canonicalize_microphone_device_id(Some("USB Mic".to_string()), "default", Some(&cands)),
        format!("cpal:v2:{}", fingerprint_payload(&fp))
    );
    assert_eq!(canonicalize_microphone_device_id(Some("USB Mic".to_string()), "default", None), "cpal:USB Mic");
    assert_eq!(canonicalize_microphone_device_id(Some("Gone".to_string()), "default", Some(&cands)), "cpal:Gone");
    assert_eq!(canonicalize_microphone_device_id(Some("cpal:v2:zzz".to_string()), "default", Some(&cands)), "cpal:v2:zzz");
}

#[test]
fn system_device_ids_are_canonical_per_platform() {
    let mac = |v: &str| canonicalize_system_device_id(Some(v.to_string()), "default", TargetOs::Macos, None);
    assert_eq!(mac("display:1"), "macos-system:display:1");
    assert_eq!(mac("cpal:display:2"), "macos-system:display:2");
    assert_eq!(mac("macos-system:anything"), "macos-system:anything");
    assert_eq!(mac("speakers"), "default");
    let win = |v: &str| canonicalize_system_device_id(Some(v.to_string()), "default", TargetOs::Windows, None);
    assert_eq!(win("{0.0.0}"), "windows-system:{0.0.0}");
    assert_eq!(win("windows-system:{1}"), "windows-system:{1}");
    assert_eq!(win("cpal:x"), "default");
    let devices = vec![dev("linux-system:v3:alsa.monitor", "Built-in Audio", AudioBackendKind::LinuxSystem, true)];
    let lin = |v: &str, d: Option<&[AudioSourceDevice]>| canonicalize_linux_system_device_id(Some(v.to_string()), "default", d);
    assert_eq!(lin("linux-system:v3:any", Some(&devices)), "linux-system:v3:any");
    assert_eq!(lin("Built-in Audio", Some(&devices)), "linux-system:v3:alsa.monitor");
    assert_eq!(lin("old.monitor", None), "linux-system:old.monitor");
    assert_eq!(lin("old.monitor", Some(&devices)), "linux-system:old.monitor");
    assert_eq!(lin("cpal:x", Some(&devices)), "default");
    assert_eq!(lin("linux-system:v2:built-in   AUDIO|48000|2|F32|sig", Some(&devices)), "linux-system:v3:alsa.monitor");
    assert_eq!(lin("linux-system:nothing", Some(&devices)), "default");
    assert_eq!(canonicalize_system_device_id(Some("  ".to_string()), "dflt", TargetOs::Linux, None), "dflt");
}

#[test]
fn audio_hosts_are_scored() {
    assert_eq!(linux_host_bias("Jack", TargetOs::Linux), -1000);
    assert_eq!(linux_host_bias("ALSA", TargetOs::Linux), 25);
    assert_eq!(linux_host_bias("PipeWire", TargetOs::Linux), 40);
    assert_eq!(linux_host_bias("Alsa", TargetOs::Windows), 0);
    let h = HostInputs { device_count: 3, usable_count: 10, has_default: true, default_usable: true };
    assert_eq!(score_generic_input_host("Alsa", Some(h), TargetOs::Linux), 25 + 100 + 3 + 160 + 40);
    assert_eq!(score_generic_input_host("Jack", None, TargetOs::Linux), -11000);
    assert_eq!(best_host_index(&[None, Some(5), Some(9), Some(9)]), Some(2));
    assert_eq!(best_host_index(&[None, None]), None);
}

#[test]
fn linux_monitor_ids_and_selection() {
    assert_eq!(linux_monitor_device_id("alsa.monitor"), "linux-system:v3:alsa.monitor");
    assert_eq!(parse_linux_monitor_device_id("linux-system:v3:alsa.monitor"), Some("alsa.monitor"));
    assert_eq!(parse_linux_monitor_device_id("linux-system:v2:x"), None);
    assert_eq!(normalize_linux_system_selection("linux-system:v3:a"), "a");
    assert_eq!(normalize_linux_system_selection("linux-system:legacy"), "legacy");
    assert_eq!(normalize_linux_system_selection("Speakers"), "Speakers");
    let d = monitor_device(monitor("a.monitor", "Speakers", true));
    assert_eq!(d.id, "linux-system:v3:a.monitor");
    assert_eq!(d.label, "Speakers");
    assert!(d.is_default);
    let src = monitor_source_from_info(Some("m".to_string()), true, true, None, 44100, 2, Some("m")).unwrap();
    assert_eq!(src.description, "m");
    assert!(src.is_default);
    assert!(monitor_source_from_info(Some("m".to_string()), false, true, None, 44100, 2, None).is_none());
    let sorted = sort_monitor_sources(vec![monitor("1", "b", false), monitor("2", "a", false), monitor("3", "b", false)]);
    let names: Vec<&str> = sorted.iter().map(|m| m.name.as_str()).collect();
    assert_eq!(names, vec!["2", "1", "3"]);
    let sources = vec![monitor("a.monitor", "A", false), monitor("b.monitor", "B", true)];
    assert_eq!(resolve_monitor_source(None, &sources).unwrap(), 1);
    assert_eq!(resolve_monitor_source(Some("linux-system:v3:a.monitor"), &sources).unwrap(), 0);
    assert_eq!(resolve_monitor_source(Some("B"), &sources).unwrap(), 1);
    assert_eq!(
        resolve_monitor_source(Some("zz"), &sources).unwrap_err(),
        "Linux system audio device not found or not a monitor source: zz"
    );
    assert!(resolve_monitor_source(None, &[]).unwrap_err().starts_with("No Linux system monitor source found."));
    assert_eq!(resolve_monitor_source(None, &[monitor("x", "X", false)]).unwrap(), 0);
    assert_eq!(record_buffer_len(48000, 2), 3840);
    assert_eq!(record_buffer_len(10, 1), 2);
}

#[test]
fn macos_display_ids() {
    assert_eq!(encode_display_id(69733382), "macos-system:display:69733382");
    assert_eq!(decode_display_id("macos-system:display:42").unwrap(), 42);
    assert_eq!(
        decode_display_id("display:7").unwrap_err(),
        "Invalid macOS system audio device id `display:7`; device id namespace does not match macOS system audio"
    );
    assert_eq!(
        decode_display_id("cpal:display:7").unwrap_err(),
        "Invalid macOS system audio device id `cpal:display:7`; device id namespace does not match macOS system audio"
    );
    assert_eq!(
        decode_display_id("macos-system:screen:1").unwrap_err(),
        "Invalid macOS system audio device id `macos-system:screen:1`; expected `macos-system:display:<cg_display_id>`"
    );
    assert_eq!(
        decode_display_id("macos-system:display:x").unwrap_err(),
        "Invalid macOS system audio display id `macos-system:display:x`; numeric CGDisplayID expected"
    );
    assert_eq!(normalize_macos_system_device_id("windows-system:x"), None);
    assert_eq!(display_label_parts(0, 5, true), "Main Display (macos-system:display:5)");
    assert_eq!(display_label_parts(1, 6, false), "Display 2 (macos-system:display:6)");
    let displays = [DisplayInfo { id: 5, is_main: false }, DisplayInfo { id: 6, is_main: true }];
    assert_eq!(resolve_display(None, &displays).unwrap().id, 6);
    assert_eq!(resolve_display(Some("macos-system:display:5"), &displays).unwrap().id, 5);
    assert_eq!(resolve_display(Some("macos-system:display:9"), &displays).unwrap_err(), "Requested macOS system audio display not found: macos-system:display:9");
    assert_eq!(resolve_display(None, &[DisplayInfo { id: 3, is_main: false }]).unwrap().id, 3);
    assert!(resolve_display(None, &[]).is_err());
}

#[test]
fn windows_render_devices() {
    assert_eq!(normalize_windows_system_device_id("windows-system:{abc}"), Some("{abc}".to_string()));
    assert_eq!(normalize_windows_system_device_id("{abc}"), Some("{abc}".to_string()));
    assert_eq!(normalize_windows_system_device_id("cpal:x"), None);
    assert_eq!(render_device_request(None).unwrap(), None);
    assert_eq!(render_device_request(Some("default")).unwrap(), None);
    assert_eq!(render_device_request(Some("windows-system:{1}")).unwrap(), Some("{1}".to_string()));
    assert_eq!(
        render_device_request(Some("cpal:x")).unwrap_err(),
        "Windows system output device id is invalid for this backend: cpal:x"
    );
    let d = loopback_device("{1}".to_string(), "Speakers".to_string(), Some("{1}"));
    assert_eq!(d.id, "windows-system:{1}");
    assert!(d.is_default);
    assert_eq!(
        validate_loopback_format(16, true, 2, 48000, 8).unwrap_err(),
        "Windows loopback currently expects 32-bit float mix format, got 16 bits"
    );
    assert_eq!(validate_loopback_format(32, false, 2, 48000, 8).unwrap_err(), "Windows loopback currently supports only float mix formats");
    assert_eq!(validate_loopback_format(32, true, 0, 48000, 8).unwrap_err(), "Windows loopback reported invalid stream format metadata");
    assert!(validate_loopback_format(32, true, 2, 48000, 8).is_ok());
}

fn empty_legacy() -> LegacyAudioFields {
    LegacyAudioFields {
        capture_mode: None,
        mic_input_device: None,
        system_input_device: None,
        mic_device_id: None,
        system_device_id: None,
        sample_rate: None,
        chunk_duration_ms: None,
        mic_silence_threshold: None,
        system_silence_threshold: None,
    }
}

#[test]
fn legacy_audio_section_takes_defaults() {
    let b = bridge_legacy_audio_settings(empty_legacy(), TargetOs::Linux, None, None);
    assert_eq!(b.capture_mode, AudioCaptureMode::Mixed);
    assert_eq!(b.mic_device_id, "default");
    assert_eq!(b.system_device_id, "default");
    assert_eq!(b.sample_rate, 16000);
    assert_eq!(b.chunk_duration_ms, 100);
    assert_eq!(b.mic_silence_threshold, 800);
    assert_eq!(b.system_silence_threshold, 800);
}

#[test]
fn legacy_audio_section_maps_old_names() {
    let mut legacy = empty_legacy();
    legacy.capture_mode = Some(AudioCaptureMode::Mic);
    legacy.mic_input_device = Some(" USB Mic ".to_string());
    legacy.system_input_device = Some("display:3".to_string());
    legacy.sample_rate = Some(48000);
    legacy.mic_silence_threshold = Some(-5);
    let fp = fingerprint("usb mic", 48000);
    let cands = [cand("USB Mic", Some(fp.clone()))];
    let b = bridge_legacy_audio_settings(legacy.clone(), TargetOs::Macos, Some(&cands), None);
    assert_eq!(b.capture_mode, AudioCaptureMode::Mic);
    assert_eq!(b.mic_device_id, format!("cpal:v2:{}", fingerprint_payload(&fp)));
    assert_eq!(b.system_device_id, "macos-system:display:3");
    assert_eq!(b.sample_rate, 48000);
    assert_eq!(b.chunk_duration_ms, 100);
    assert_eq!(b.mic_silence_threshold, -5);
    legacy.mic_device_id = Some("cpal:Other".to_string());
    let b = bridge_legacy_audio_settings(legacy, TargetOs::Windows, None, None);
    assert_eq!(b.mic_device_id, "cpal:Other");
    assert_eq!(b.system_device_id, "windows-system:display:3");
}

#[test]
fn api_key_rollback_restores_or_clears() {
    assert_eq!(api_key_rollback(false, Some("k".to_string())), ApiKeyRollback::Keep);
    assert_eq!(api_key_rollback(false, None), ApiKeyRollback::Keep);
    assert_eq!(api_key_rollback(true, Some("old".to_string())), ApiKeyRollback::Restore("old".to_string()));
    assert_eq!(api_key_rollback(true, None), ApiKeyRollback::Clear);
}

fn fmt(source: PhysicalAudioSource, rate: u32) -> SourceStreamFormat {
    SourceStreamFormat { source, sample_rate: rate, channels: 2 }
}

fn started(f: SourceStreamFormat) -> StartOutcome {
    StartOutcome::Started(f)
}

fn failed(e: &str) -> StartOutcome {
    StartOutcome::Failed(e.to_string())
}

fn finished(step: CaptureStep) -> (Vec<SourceStreamFormat>, bool, Vec<String>) {
    match step {
        CaptureStep::Finished(rt) => (rt.formats, rt.mixed, rt.warnings),
        other => panic!("expected finished, got {other:?}"),
    }
}

#[test]
fn microphone_capture_opens_once() {
    let mic = fmt(PhysicalAudioSource::Microphone, 48000);
    assert!(matches!(next_capture_step(AudioCaptureMode::Mic, TargetOs::Linux, None, None, &[]), CaptureStep::StartMicrophone));
    let (f, mixed, w) = finished(next_capture_step(AudioCaptureMode::Mic, TargetOs::Linux, None, None, &[started(mic)]));
    assert_eq!(f.len(), 1);
    assert!(!mixed);
    assert!(w.is_empty());
    assert!(matches!(next_capture_step(AudioCaptureMode::Mic, TargetOs::Linux, None, None, &[failed("x")]), CaptureStep::GiveUp));
}

#[test]
fn linux_system_capture_walks_the_monitors() {
    let cands = vec!["linux-system:v3:a".to_string(), "linux-system:v3:b".to_string()];
    let sel = Some("linux-system:v3:a");
    let sys = fmt(PhysicalAudioSource::SystemOutput, 44100);
    let mic = fmt(PhysicalAudioSource::Microphone, 48000);
    match next_capture_step(AudioCaptureMode::System, TargetOs::Linux, sel, Some(&cands), &[]) {
        CaptureStep::StartSystem(Some(id)) => assert_eq!(id, "linux-system:v3:a"),
        other => panic!("{other:?}"),
    }
    match next_capture_step(AudioCaptureMode::System, TargetOs::Linux, sel, Some(&cands), &[failed("Audio capture: e1")]) {
        CaptureStep::StartSystem(Some(id)) => assert_eq!(id, "linux-system:v3:b"),
        other => panic!("{other:?}"),
    }
    let (f, mixed, w) = finished(next_capture_step(
        AudioCaptureMode::System,
        TargetOs::Linux,
        sel,
        Some(&cands),
        &[failed("Audio capture: e1"), started(sys)],
    ));
    assert_eq!(f[0].sample_rate, 44100);
    assert!(!mixed);
    assert_eq!(
        w,
        vec!["Failed to start system audio from the selected system monitor: Audio capture: e1. Switched to another available system monitor.".to_string()]
    );
    assert!(matches!(
        next_capture_step(AudioCaptureMode::System, TargetOs::Linux, sel, Some(&cands), &[failed("e1"), failed("e2")]),
        CaptureStep::StartMicrophone
    ));
    let (f, _, w) = finished(next_capture_step(
        AudioCaptureMode::System,
        TargetOs::Linux,
        sel,
        Some(&cands),
        &[failed("e1"), failed("e2"), started(mic)],
    ));
    assert_eq!(f[0].source, PhysicalAudioSource::Microphone);
    assert_eq!(w, vec!["Failed to start system audio from the selected system monitor: e2. Switched to microphone capture.".to_string()]);
    assert!(matches!(
        next_capture_step(AudioCaptureMode::System, TargetOs::Linux, sel, Some(&cands), &[failed("e1"), failed("e2"), failed("m")]),
        CaptureStep::GiveUp
    ));
    assert!(matches!(next_capture_step(AudioCaptureMode::System, TargetOs::Linux, sel, None, &[]), CaptureStep::GiveUpListing));
}

#[test]
fn mixed_capture_keeps_the_microphone() {
    let sys = fmt(PhysicalAudioSource::SystemOutput, 44100);
    let mic = fmt(PhysicalAudioSource::Microphone, 48000);
    assert!(matches!(next_capture_step(AudioCaptureMode::Mixed, TargetOs::Windows, None, None, &[]), CaptureStep::StartMicrophone));
    assert!(matches!(next_capture_step(AudioCaptureMode::Mixed, TargetOs::Windows, None, None, &[failed("m")]), CaptureStep::GiveUp));
    assert!(matches!(
        next_capture_step(AudioCaptureMode::Mixed, TargetOs::Windows, None, None, &[started(mic)]),
        CaptureStep::StartSystem(None)
    ));
    let (f, mixed, w) = finished(next_capture_step(AudioCaptureMode::Mixed, TargetOs::Windows, None, None, &[started(mic), started(sys)]));
    assert_eq!(f.len(), 2);
    assert!(mixed);
    assert!(w.is_empty());
    let (f, mixed, w) = finished(next_capture_step(
        AudioCaptureMode::Mixed,
        TargetOs::Windows,
        Some("windows-system:{1}"),
        None,
        &[started(mic), failed("boom")],
    ));
    assert_eq!(f.len(), 1);
    assert!(!mixed);
    assert_eq!(w, vec!["Failed to start system audio from the selected system device: boom. Switched to microphone-only capture.".to_string()]);
    let cands = vec!["default".to_string()];
    let (_, mixed, w) = finished(next_capture_step(
        AudioCaptureMode::Mixed,
        TargetOs::Linux,
        None,
        Some(&cands),
        &[started(mic), failed("nope")],
    ));
    assert!(!mixed);
    assert_eq!(w, vec!["Failed to start system audio from the default system monitor: nope. Switched to microphone-only capture.".to_string()]);
    assert!(matches!(
        next_capture_step(AudioCaptureMode::Mixed, TargetOs::Linux, None, None, &[started(mic)]),
        CaptureStep::GiveUpListing
    ));
}

#[test]
fn system_capture_elsewhere_falls_back_to_the_microphone() {
    let mic = fmt(PhysicalAudioSource::Microphone, 48000);
    assert!(matches!(
        next_capture_step(AudioCaptureMode::System, TargetOs::Macos, Some("default"), None, &[]),
        CaptureStep::StartSystem(Some(_))
    ));
    assert!(matches!(
        next_capture_step(AudioCaptureMode::System, TargetOs::Macos, None, None, &[failed("x")]),
        CaptureStep::StartMicrophone
    ));
    let (_, _, w) = finished(next_capture_step(AudioCaptureMode::System, TargetOs::Macos, None, None, &[failed("x"), started(mic)]));
    assert_eq!(w, vec!["Failed to start system audio from the default system audio source: x. Switched to microphone capture.".to_string()]);
}

#[test]
fn preflight_checks_in_order() {
    assert!(matches!(next_preflight_step(AudioCaptureMode::Mic, TargetOs::Linux, None, &[]), PreflightStep::CheckMicrophone));
    assert!(matches!(next_preflight_step(AudioCaptureMode::Mic, TargetOs::Linux, None, &[PreflightOutcome::Passed]), PreflightStep::Pass));
    assert!(matches!(next_preflight_step(AudioCaptureMode::Mic, TargetOs::Linux, None, &[PreflightOutcome::Failed]), PreflightStep::GiveUp));
    assert!(matches!(next_preflight_step(AudioCaptureMode::System, TargetOs::Linux, None, &[]), PreflightStep::ListSystemDevices));
    assert!(matches!(next_preflight_step(AudioCaptureMode::System, TargetOs::Linux, None, &[PreflightOutcome::Listed(true)]), PreflightStep::Pass));
    assert!(matches!(next_preflight_step(AudioCaptureMode::System, TargetOs::Linux, None, &[PreflightOutcome::Listed(false)]), PreflightStep::CheckSystem(None)));
    assert!(matches!(next_preflight_step(AudioCaptureMode::System, TargetOs::Linux, None, &[PreflightOutcome::Listed(false), PreflightOutcome::Failed]), PreflightStep::GiveUp));
    assert!(matches!(next_preflight_step(AudioCaptureMode::System, TargetOs::Linux, None, &[PreflightOutcome::Failed]), PreflightStep::GiveUp));
    assert!(matches!(next_preflight_step(AudioCaptureMode::System, TargetOs::Windows, Some("x"), &[PreflightOutcome::Failed]), PreflightStep::CheckMicrophone));
    assert!(matches!(next_preflight_step(AudioCaptureMode::System, TargetOs::Windows, Some("x"), &[PreflightOutcome::Failed, PreflightOutcome::Passed]), PreflightStep::Pass));
    assert!(matches!(next_preflight_step(AudioCaptureMode::Mixed, TargetOs::Windows, Some("x"), &[PreflightOutcome::Passed]), PreflightStep::CheckSystem(Some(_))));
    assert!(matches!(next_preflight_step(AudioCaptureMode::Mixed, TargetOs::Windows, Some("x"), &[PreflightOutcome::Passed, PreflightOutcome::Failed]), PreflightStep::Pass));
    assert!(matches!(next_preflight_step(AudioCaptureMode::Mixed, TargetOs::Linux, None, &[PreflightOutcome::Passed, PreflightOutcome::Listed(true)]), PreflightStep::Pass));
    assert!(matches!(next_preflight_step(AudioCaptureMode::Mixed, TargetOs::Linux, None, &[PreflightOutcome::Failed]), PreflightStep::GiveUp));
}
