//! What the runtime can capture: microphone and system-output devices,
//! the reasons a source is unusable, and the checks made before a session
//! starts with a capture mode.
//!
//! Enumerating devices through the audio hosts is left to the caller, which
//! hands the device descriptions and enumeration errors in.
use vstd::prelude::*;
use crate::device_identity::{
    backend_namespace, fingerprint_payload, fingerprint_payload_of, namespace_of, namespaced,
    namespaced_id, normalize_label, versioned_id, InputFingerprint,
};
use crate::numeric::{decimal, push_decimal};
use crate::text::{
    extend_str, is_blank, normalized_label, sort_strings, str_eq, string_from_chars, trim, trim_seq,
};
use crate::types::{
    AudioBackendKind, AudioCapabilityReason, AudioCaptureMode, AudioRuntimeCapabilities,
    AudioSourceCapability, AudioSourceDevice, PhysicalAudioSource, ProviderSettings,
};

verus! {

/// The operating systems with a system-audio backend.
#[derive(Debug, Clone, Copy, PartialEq, Eq, Structural)]
pub enum TargetOs {
    Linux,
    Macos,
    Windows,
}

/// The system-audio backend of an operating system.
pub open spec fn system_backend_of(os: TargetOs) -> AudioBackendKind {
    match os {
        TargetOs::Windows => AudioBackendKind::WindowsSystem,
        TargetOs::Macos => AudioBackendKind::MacosSystem,
        TargetOs::Linux => AudioBackendKind::LinuxSystem,
    }
}

/// The system-audio backend of the platform the program runs on (`os`).
pub fn current_platform_system_backend(os: TargetOs) -> (r: AudioBackendKind)
    ensures
        r == system_backend_of(os),
{
    match os {
        TargetOs::Windows => AudioBackendKind::WindowsSystem,
        TargetOs::Macos => AudioBackendKind::MacosSystem,
        TargetOs::Linux => AudioBackendKind::LinuxSystem,
    }
}

pub fn reason(code: &str, detail: Option<String>) -> (r: AudioCapabilityReason)
    ensures
        r.code@ == code@,
        r.detail == detail,
{
    proof {
        broadcast use vstd::string::group_string_axioms;

    }
    AudioCapabilityReason { code: code.to_string(), detail }
}

pub open spec fn label_of(kind: AudioBackendKind) -> Seq<char> {
    match kind {
        AudioBackendKind::Cpal => "cpal"@,
        AudioBackendKind::WindowsSystem => "windows_system"@,
        AudioBackendKind::MacosSystem => "macos_system"@,
        AudioBackendKind::LinuxSystem => "linux_system"@,
    }
}

/// The backend's name in messages.
pub fn backend_label(kind: AudioBackendKind) -> (r: &'static str)
    ensures
        r@ == label_of(kind),
{
    match kind {
        AudioBackendKind::Cpal => "cpal",
        AudioBackendKind::WindowsSystem => "windows_system",
        AudioBackendKind::MacosSystem => "macos_system",
        AudioBackendKind::LinuxSystem => "linux_system",
    }
}

/// The code and detail of the reason no system device is usable.
pub open spec fn default_reason_of(kind: AudioBackendKind, has_no_devices: bool) -> (Seq<char>, Seq<char>) {
    match kind {
        AudioBackendKind::LinuxSystem => (
            "audio.system.no_monitor_source"@,
            "No usable Linux monitor-source input found. Ensure PipeWire/PulseAudio monitor devices are available."@,
        ),
        AudioBackendKind::MacosSystem => if has_no_devices {
            (
                "audio.system.no_display_available"@,
                "macOS system audio capture expects at least one active display for the ScreenCaptureKit path"@,
            )
        } else {
            (
                "audio.system.runtime_verification_pending"@,
                "macOS system audio capture uses ScreenCaptureKit and still requires runtime verification on a real macOS build with Screen Recording permission"@,
            )
        },
        _ => (
            "audio.system.runtime_not_wired"@,
            "System audio backend `"@ + label_of(kind) + "` is not wired on this runtime yet"@,
        ),
    }
}

pub fn default_system_backend_reason(kind: AudioBackendKind, has_no_devices: bool) -> (r: AudioCapabilityReason)
    ensures
        r.code@ == default_reason_of(kind, has_no_devices).0,
        r.detail matches Some(d) && d@ == default_reason_of(kind, has_no_devices).1,
{
    match kind {
        AudioBackendKind::LinuxSystem => reason(
            "audio.system.no_monitor_source",
            Some(
                String::from_str(
                    "No usable Linux monitor-source input found. Ensure PipeWire/PulseAudio monitor devices are available.",
                ),
            ),
        ),
        AudioBackendKind::MacosSystem => if has_no_devices {
            reason(
                "audio.system.no_display_available",
                Some(
                    String::from_str(
                        "macOS system audio capture expects at least one active display for the ScreenCaptureKit path",
                    ),
                ),
            )
        } else {
            reason(
                "audio.system.runtime_verification_pending",
                Some(
                    String::from_str(
                        "macOS system audio capture uses ScreenCaptureKit and still requires runtime verification on a real macOS build with Screen Recording permission",
                    ),
                ),
            )
        },
        _ => {
            let mut cs: Vec<char> = Vec::new();
            extend_str(&mut cs, "System audio backend `");
            extend_str(&mut cs, backend_label(kind));
            extend_str(&mut cs, "` is not wired on this runtime yet");
            reason("audio.system.runtime_not_wired", Some(string_from_chars(&cs)))
        },
    }
}

pub open spec fn dynamic_code_of(kind: AudioBackendKind) -> Seq<char> {
    match kind {
        AudioBackendKind::LinuxSystem => "audio.system.enumeration_failed"@,
        AudioBackendKind::MacosSystem => "audio.system.enumeration_failed"@,
        _ => "audio.system.runtime_error"@,
    }
}

/// The reason when enumerating system devices failed with `detail`.
pub fn dynamic_system_backend_reason(kind: AudioBackendKind, detail: String) -> (r: AudioCapabilityReason)
    ensures
        r.code@ == dynamic_code_of(kind),
        r.detail == Some(detail),
{
    let code = match kind {
        AudioBackendKind::LinuxSystem => "audio.system.enumeration_failed",
        AudioBackendKind::MacosSystem => "audio.system.enumeration_failed",
        _ => "audio.system.runtime_error",
    };
    reason(code, Some(detail))
}

pub open spec fn any_usable(devices: Seq<AudioSourceDevice>) -> bool {
    exists|i: int| 0 <= i < devices.len() && #[trigger] devices[i].usable
}

fn has_usable(devices: &Vec<AudioSourceDevice>) -> (r: bool)
    ensures
        r == any_usable(devices@),
{
    let mut i: usize = 0;
    while i < devices.len()
        invariant
            i <= devices@.len(),
            forall|j: int| 0 <= j < i ==> !(#[trigger] devices@[j]).usable,
        decreases devices@.len() - i,
    {
        if devices[i].usable {
            return true;
        }
        i += 1;
    }
    false
}

/// The system-output capability from the outcome of enumerating system
/// devices: usable when any device is; otherwise the backend's default
/// reason; on an enumeration error, unusable with the error as detail.
pub fn system_output_capability(
    backend: AudioBackendKind,
    enumeration: Result<Vec<AudioSourceDevice>, String>,
) -> (r: AudioSourceCapability)
    ensures
        r.source == PhysicalAudioSource::SystemOutput,
        r.backend == backend,
        r.supported,
        match enumeration {
            Ok(devices) => {
                &&& r.usable == any_usable(devices@)
                &&& r.devices == devices
                &&& r.usable ==> r.reason is None
                &&& !r.usable ==> r.reason is Some && r.reason->0.code@ == default_reason_of(
                    backend,
                    devices@.len() == 0,
                ).0 && r.reason->0.detail is Some && r.reason->0.detail->0@ == default_reason_of(
                    backend,
                    devices@.len() == 0,
                ).1
            },
            Err(e) => {
                &&& !r.usable
                &&& r.devices@.len() == 0
                &&& r.reason matches Some(rs) && rs.code@ == dynamic_code_of(backend) && rs.detail == Some(e)
            },
        },
{
    match enumeration {
        Ok(devices) => {
            let usable = has_usable(&devices);
            let reason = if usable {
                None
            } else {
                Some(default_system_backend_reason(backend, devices.len() == 0))
            };
            AudioSourceCapability {
                source: PhysicalAudioSource::SystemOutput,
                backend,
                supported: true,
                usable,
                reason,
                devices,
            }
        },
        Err(e) => AudioSourceCapability {
            source: PhysicalAudioSource::SystemOutput,
            backend,
            supported: true,
            usable: false,
            reason: Some(dynamic_system_backend_reason(backend, e)),
            devices: Vec::new(),
        },
    }
}

/// The runtime's capabilities: the microphone is usable when any
/// microphone device is; mixed capture needs both sources usable, and
/// says which one is missing (the system reason's detail, if any, is kept).
pub fn runtime_capabilities(
    microphone_devices: Vec<AudioSourceDevice>,
    system_output: AudioSourceCapability,
) -> (r: AudioRuntimeCapabilities)
    ensures
        r.microphone.source == PhysicalAudioSource::Microphone,
        r.microphone.backend == AudioBackendKind::Cpal,
        r.microphone.supported,
        r.microphone.usable == any_usable(microphone_devices@),
        r.microphone.devices == microphone_devices,
        r.microphone.usable ==> r.microphone.reason is None,
        !r.microphone.usable ==> (r.microphone.reason matches Some(rs) && rs.code@
            == "audio.microphone.no_usable_device"@ && rs.detail is None),
        r.system_output == system_output,
        r.mixed_supported == (r.microphone.usable && system_output.usable),
        r.mixed_supported ==> r.mixed_reason is None,
        !r.microphone.usable ==> (r.mixed_reason matches Some(rs) && rs.code@ == "audio.mixed.requires_microphone"@
            && rs.detail is None),
        r.microphone.usable && !system_output.usable ==> (r.mixed_reason matches Some(rs) && rs.code@
            == "audio.mixed.requires_system_audio"@ && rs.detail == match system_output.reason {
            Some(sr) => sr.detail,
            None => None,
        }),
{
    let microphone_usable = has_usable(&microphone_devices);
    let microphone_reason = if microphone_usable {
        None
    } else {
        Some(reason("audio.microphone.no_usable_device", None))
    };
    let mixed_supported = microphone_usable && system_output.usable;
    let mixed_reason = if mixed_supported {
        None
    } else if !microphone_usable {
        Some(reason("audio.mixed.requires_microphone", None))
    } else {
        let detail = match &system_output.reason {
            Some(sr) => crate::types::clone_opt_string(&sr.detail),
            None => None,
        };
        Some(reason("audio.mixed.requires_system_audio", detail))
    };
    AudioRuntimeCapabilities {
        microphone: AudioSourceCapability {
            source: PhysicalAudioSource::Microphone,
            backend: AudioBackendKind::Cpal,
            supported: true,
            usable: microphone_usable,
            reason: microphone_reason,
            devices: microphone_devices,
        },
        system_output,
        mixed_supported,
        mixed_reason,
    }
}

// ---------------------------------------------------------------------------
// Microphone devices
// ---------------------------------------------------------------------------

/// One supported input configuration, as `channels:min-max:format`.
pub open spec fn config_signature(channels: u16, min_rate: u32, max_rate: u32, format: Seq<char>) -> Seq<char> {
    decimal(channels as nat) + ":"@ + decimal(min_rate as nat) + "-"@ + decimal(max_rate as nat) + ":"@ + format
}

pub fn input_config_signature(channels: u16, min_rate: u32, max_rate: u32, format: &str) -> (r: String)
    ensures
        r@ == config_signature(channels, min_rate, max_rate, format@),
{
    let mut cs: Vec<char> = Vec::new();
    push_decimal(&mut cs, channels as u64);
    extend_str(&mut cs, ":");
    push_decimal(&mut cs, min_rate as u64);
    extend_str(&mut cs, "-");
    push_decimal(&mut cs, max_rate as u64);
    extend_str(&mut cs, ":");
    extend_str(&mut cs, format);
    string_from_chars(&cs)
}

/// The strings joined with commas.
pub open spec fn joined(s: Seq<Seq<char>>) -> Seq<char>
    decreases s.len(),
{
    if s.len() == 0 {
        Seq::empty()
    } else if s.len() == 1 {
        s[0]
    } else {
        joined(s.drop_last()) + ","@ + s.last()
    }
}

pub open spec fn views(s: Seq<String>) -> Seq<Seq<char>> {
    s.map_values(|x: String| x@)
}

/// The capability signature of an input device: its configurations'
/// signatures, sorted, joined with commas; `unknown` when they cannot be
/// listed.
pub fn build_input_capability_signature(configs: Option<Vec<String>>) -> (r: String)
    ensures
        configs is None ==> r@ == "unknown"@,
        configs matches Some(v) ==> exists|sorted: Seq<String>|
            #![trigger joined(views(sorted))]
            crate::text::sorted_strings(sorted) && sorted.to_multiset() == v@.to_multiset() && r@
                == joined(views(sorted)),
{
    let v = match configs {
        Some(v) => v,
        None => {
            return String::from_str("unknown");
        },
    };
    let sorted = sort_strings(v);
    let mut cs: Vec<char> = Vec::new();
    let n = sorted.len();
    let ghost vs = views(sorted@);
    for i in 0..n
        invariant
            n == sorted@.len(),
            vs == views(sorted@),
            cs@ == joined(vs.take(i as int)),
    {
        proof {
            assert(vs.take(i + 1).drop_last() =~= vs.take(i as int));
            assert(vs.take(i + 1).last() == sorted@[i as int]@);
        }
        if i > 0 {
            extend_str(&mut cs, ",");
        } else {
            proof {
                assert(vs.take(0) =~= Seq::<Seq<char>>::empty());
            }
        }
        extend_str(&mut cs, sorted[i].as_str());
    }
    assert(vs.take(n as int) =~= vs);
    string_from_chars(&cs)
}

/// The fingerprint of an input device from its name, its default
/// configuration (rate, channels, sample format), if any, and its
/// capability signature; a missing default gives 0, 0 and `unknown`.
pub fn input_fingerprint(name: &str, default: Option<(u32, u16, String)>, capability_signature: String) -> (r: InputFingerprint)
    ensures
        r.normalized_label@ == normalized_label(name@),
        r.capability_signature == capability_signature,
        match default {
            Some((rate, channels, format)) => r.default_sample_rate == rate && r.default_channels == channels
                && r.default_sample_format == format,
            None => r.default_sample_rate == 0 && r.default_channels == 0 && r.default_sample_format@ == "unknown"@,
        },
{
    let (default_sample_rate, default_channels, default_sample_format) = match default {
        Some((rate, channels, format)) => (rate, channels, format),
        None => (0, 0, String::from_str("unknown")),
    };
    InputFingerprint {
        normalized_label: normalize_label(name),
        default_sample_rate,
        default_channels,
        default_sample_format,
        capability_signature,
    }
}

/// A microphone as listed: its id is `cpal:v2:` and the fingerprint payload
/// when there is a fingerprint, else `cpal:` and its name; it is the
/// default when its name is the default device's.
pub fn microphone_device(name: String, fingerprint: Option<InputFingerprint>, default_name: &str) -> (r: AudioSourceDevice)
    ensures
        r.label == name,
        r.source == PhysicalAudioSource::Microphone,
        r.backend == AudioBackendKind::Cpal,
        r.usable,
        r.is_default == (name@ == default_name@),
        match fingerprint {
            Some(fp) => r.id@ == namespaced("cpal"@, "v2"@ + seq![':'] + fingerprint_payload_of(fp)),
            None => r.id@ == namespaced("cpal"@, name@),
        },
{
    let ns = backend_namespace(AudioBackendKind::Cpal);
    let id = match &fingerprint {
        Some(fp) => {
            let payload = fingerprint_payload(fp);
            versioned_id(ns, "v2", payload.as_str())
        },
        None => namespaced_id(ns, name.as_str()),
    };
    proof {
        reveal_strlit("cpal");
        reveal_strlit("v2");
        assert(namespace_of(AudioBackendKind::Cpal) == "cpal"@);
    }
    let is_default = str_eq(name.as_str(), default_name);
    AudioSourceDevice {
        id,
        label: name,
        source: PhysicalAudioSource::Microphone,
        backend: AudioBackendKind::Cpal,
        is_default,
        usable: true,
    }
}

// ---------------------------------------------------------------------------
// Checks before a session starts
// ---------------------------------------------------------------------------

/// A reason's detail when it is not blank, else the fallback.
pub open spec fn reason_text(reason: Option<AudioCapabilityReason>, fallback: Seq<char>) -> Seq<char> {
    match reason {
        Some(r) => match r.detail {
            Some(d) => if trim_seq(d@).len() != 0 {
                d@
            } else {
                fallback
            },
            None => fallback,
        },
        None => fallback,
    }
}

pub fn format_audio_reason(reason: Option<&AudioCapabilityReason>, fallback: &str) -> (r: String)
    ensures
        r@ == reason_text(
            match reason {
                Some(x) => Some(*x),
                None => None,
            },
            fallback@,
        ),
{
    proof {
        broadcast use vstd::string::group_string_axioms;

    }
    match reason {
        Some(rs) => match &rs.detail {
            Some(d) => if !is_blank(d.as_str()) {
                d.clone()
            } else {
                fallback.to_string()
            },
            None => fallback.to_string(),
        },
        None => fallback.to_string(),
    }
}

/// Whether a capture mode may start: when its source is usable; off Linux
/// the system and mixed modes also start whenever the microphone is
/// usable. The refusal carries the reason's text (see `reason_text`).
pub open spec fn mode_allowed(mode: AudioCaptureMode, c: AudioRuntimeCapabilities, os: TargetOs) -> bool {
    match mode {
        AudioCaptureMode::Mic => c.microphone.usable,
        AudioCaptureMode::System => c.system_output.usable || (os != TargetOs::Linux && c.microphone.usable),
        AudioCaptureMode::Mixed => c.mixed_supported || (os != TargetOs::Linux && c.microphone.usable),
    }
}

pub open spec fn refusal_text(mode: AudioCaptureMode, c: AudioRuntimeCapabilities) -> Seq<char> {
    match mode {
        AudioCaptureMode::Mic => reason_text(c.microphone.reason, "Microphone capture is unavailable on this runtime"@),
        AudioCaptureMode::System => reason_text(c.system_output.reason, "System audio is unavailable on this runtime"@),
        AudioCaptureMode::Mixed => reason_text(c.mixed_reason, "Mixed audio is unavailable on this runtime"@),
    }
}

pub fn validate_audio_mode(mode: AudioCaptureMode, capabilities: &AudioRuntimeCapabilities, os: TargetOs) -> (r: Result<(), String>)
    ensures
        mode_allowed(mode, *capabilities, os) ==> r is Ok,
        !mode_allowed(mode, *capabilities, os) ==> (r matches Err(m) && m@ == refusal_text(mode, *capabilities)),
{
    match mode {
        AudioCaptureMode::Mic => {
            if capabilities.microphone.usable {
                Ok(())
            } else {
                Err(
                    format_audio_reason(
                        capabilities.microphone.reason.as_ref(),
                        "Microphone capture is unavailable on this runtime",
                    ),
                )
            }
        },
        AudioCaptureMode::System => {
            if capabilities.system_output.usable {
                return Ok(());
            }
            if os != TargetOs::Linux && capabilities.microphone.usable {
                return Ok(());
            }
            Err(
                format_audio_reason(
                    capabilities.system_output.reason.as_ref(),
                    "System audio is unavailable on this runtime",
                ),
            )
        },
        AudioCaptureMode::Mixed => {
            if capabilities.mixed_supported {
                return Ok(());
            }
            if os != TargetOs::Linux && capabilities.microphone.usable {
                return Ok(());
            }
            Err(
                format_audio_reason(
                    capabilities.mixed_reason.as_ref(),
                    "Mixed audio is unavailable on this runtime",
                ),
            )
        },
    }
}

/// The translation target of a session: the override, else the configured
/// target, when translation is enabled; empty otherwise.
pub fn selected_target_lang(provider_settings: &ProviderSettings, override_target: Option<String>) -> (r: String)
    ensures
        provider_settings.translation_enabled ==> r == match override_target {
            Some(t) => t,
            None => provider_settings.translation_target_language,
        },
        !provider_settings.translation_enabled ==> r@.len() == 0,
{
    if provider_settings.translation_enabled {
        match override_target {
            Some(t) => t,
            None => provider_settings.translation_target_language.clone(),
        }
    } else {
        String::new()
    }
}

/// The secret holding a provider's API key: only `soniox` has one.
pub fn api_key_secret_id_for_provider(provider: &str) -> (r: Result<String, String>)
    ensures
        provider@ == "soniox"@ ==> (r matches Ok(id) && id@ == crate::secret_store::soniox_api_key_secret_id()),
        provider@ != "soniox"@ ==> (r matches Err(m) && m@ == "API key mapping not configured for provider `"@
            + provider@ + "`"@),
{
    if str_eq(provider, "soniox") {
        Ok(String::from_str("provider.soniox.api_key"))
    } else {
        let mut cs: Vec<char> = Vec::new();
        extend_str(&mut cs, "API key mapping not configured for provider `");
        extend_str(&mut cs, provider);
        extend_str(&mut cs, "`");
        Err(string_from_chars(&cs))
    }
}

/// The API key to store from a form field: trimmed, none when blank.
pub fn api_key_to_store(api_key: Option<&str>) -> (r: Option<String>)
    ensures
        match api_key {
            Some(k) => if trim_seq(k@).len() == 0 {
                r is None
            } else {
                r matches Some(s) && s@ == trim_seq(k@)
            },
            None => r is None,
        },
{
    match api_key {
        Some(k) => {
            let t = trim(k);
            if t.unicode_len() == 0 {
                None
            } else {
                proof {
                    broadcast use vstd::string::group_string_axioms;

                }
                Some(t.to_string())
            }
        },
        None => None,
    }
}


/// What becomes of the stored API key when saving the settings failed.
#[derive(Debug, Clone, PartialEq, Eq)]
pub enum ApiKeyRollback {
    /// No new key was stored: nothing to undo.
    Keep,
    /// Store the key that was there before.
    Restore(String),
    /// There was no key before: clear the new one.
    Clear,
}

/// Undoing a new API key after the settings could not be saved: the
/// previous key comes back, or the key is cleared when there was none; a
/// save without a new key leaves the key alone.
pub fn api_key_rollback(stored_new_key: bool, previous_key: Option<String>) -> (r: ApiKeyRollback)
    ensures
        !stored_new_key ==> r == ApiKeyRollback::Keep,
        stored_new_key ==> match previous_key {
            Some(p) => r == ApiKeyRollback::Restore(p),
            None => r == ApiKeyRollback::Clear,
        },
{
    if !stored_new_key {
        return ApiKeyRollback::Keep;
    }
    match previous_key {
        Some(p) => ApiKeyRollback::Restore(p),
        None => ApiKeyRollback::Clear,
    }
}

} // verus!
