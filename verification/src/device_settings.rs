//! Canonical device ids in the settings: saved selections are trimmed,
//! namespaced by their backend, and legacy names are mapped to the ids of
//! the devices present; and the choice of the audio host to capture from.
//!
//! Enumerating devices and hosts is left to the caller, which hands in what
//! it found (or nothing when enumeration failed).
use vstd::prelude::*;
use crate::capabilities::TargetOs;
use crate::capture_plan::{candidate_id, first_named, InputCandidate};
use crate::device_identity::{
    namespaced, namespaced_id, normalize_label, parse_v2_fingerprint, parse_v2_fingerprint_payload,
    parsed_fingerprint, split_namespaced_id, split_nonempty, split_versioned_payload, v2_payload,
    fingerprint_payload, versioned_id,
};
use crate::text::{
    chars_of, contains_chars, contains_seq, has_prefix, lower_seq, normalized_label, starts_with,
    str_eq, to_ascii_lower, trim, trim_seq,
};
use crate::types::{
    default_capture_mode, default_chunk_duration_ms, default_input_device, default_mic_silence_threshold,
    default_sample_rate, default_system_silence_threshold, AudioBackendKind, AudioCaptureMode, AudioSourceDevice,
};

verus! {

/// A saved selection: trimmed, none when blank.
pub open spec fn selection(value: Option<Seq<char>>) -> Option<Seq<char>> {
    match value {
        Some(v) => if trim_seq(v).len() == 0 {
            None
        } else {
            Some(trim_seq(v))
        },
        None => None,
    }
}

pub open spec fn string_opt(value: Option<String>) -> Option<Seq<char>> {
    match value {
        Some(v) => Some(v@),
        None => None,
    }
}

pub fn normalize_device_selection(value: Option<String>) -> (r: Option<String>)
    ensures
        string_opt(r) == selection(string_opt(value)),
{
    let v = match value {
        Some(v) => v,
        None => {
            return None;
        },
    };
    let t = trim(v.as_str());
    if t.unicode_len() == 0 {
        return None;
    }
    proof {
        broadcast use vstd::string::group_string_axioms;

    }
    Some(t.to_string())
}

/// The namespaces of the audio backends.
pub open spec fn is_backend_namespace(ns: Seq<char>) -> bool {
    ns == "cpal"@ || ns == "windows-system"@ || ns == "macos-system"@ || ns == "linux-system"@
}

/// `namespace:raw` with a backend's namespace.
pub open spec fn backend_split(id: Seq<char>) -> Option<(Seq<char>, Seq<char>)> {
    match split_nonempty(id) {
        Some((ns, raw)) => if is_backend_namespace(ns) {
            Some((ns, raw))
        } else {
            None
        },
        None => None,
    }
}

pub fn split_backend_device_id(id: &str) -> (r: Option<(&str, &str)>)
    ensures
        crate::text::pair_view(r) == backend_split(id@),
{
    match split_namespaced_id(id) {
        Some((namespace, raw_value)) => {
            if str_eq(namespace, "cpal") || str_eq(namespace, "windows-system") || str_eq(namespace, "macos-system")
                || str_eq(namespace, "linux-system") {
                Some((namespace, raw_value))
            } else {
                None
            }
        },
        None => None,
    }
}

fn namespace_str(backend: AudioBackendKind) -> (r: &'static str)
    ensures
        r@ == crate::device_identity::namespace_of(backend),
{
    crate::device_identity::backend_namespace(backend)
}

/// A selection in `backend`'s namespace: kept when already in it, moved
/// into it from another backend's namespace, namespaced when bare; the
/// default value when blank.
pub open spec fn canonical_namespaced(value: Option<Seq<char>>, backend: AudioBackendKind, default_value: Seq<char>) -> Seq<char> {
    let ns = crate::device_identity::namespace_of(backend);
    match selection(value) {
        None => default_value,
        Some(v) => if v == "default"@ {
            v
        } else {
            match backend_split(v) {
                Some((other, raw)) => if other == ns {
                    v
                } else if raw.len() == 0 {
                    default_value
                } else {
                    namespaced(ns, raw)
                },
                None => namespaced(ns, v),
            }
        },
    }
}

pub fn canonicalize_namespaced_device_id(value: Option<String>, backend: AudioBackendKind, default_value: &str) -> (r: String)
    ensures
        r@ == canonical_namespaced(string_opt(value), backend, default_value@),
{
    proof {
        broadcast use vstd::string::group_string_axioms;

    }
    let v = match normalize_device_selection(value) {
        Some(v) => v,
        None => {
            return default_value.to_string();
        },
    };
    if str_eq(v.as_str(), "default") {
        return v;
    }
    let ns = namespace_str(backend);
    match split_backend_device_id(v.as_str()) {
        Some((namespace, raw_value)) => {
            if str_eq(namespace, ns) {
                return v;
            }
            if raw_value.unicode_len() == 0 {
                default_value.to_string()
            } else {
                namespaced_id(ns, raw_value)
            }
        },
        None => namespaced_id(ns, v.as_str()),
    }
}

/// A microphone selection: namespaced under `cpal` (see
/// `canonical_namespaced`); a plain `cpal` name is replaced by the id of
/// the first device of that name when one is present and has one; an id
/// of another backend falls back to the default value.
pub open spec fn canonical_microphone(value: Option<Seq<char>>, default_value: Seq<char>, devices: Option<Seq<InputCandidate>>) -> Seq<char> {
    let canonical = canonical_namespaced(value, AudioBackendKind::Cpal, default_value);
    if canonical == "default"@ {
        canonical
    } else {
        match backend_split(canonical) {
            None => canonical,
            Some((ns, raw)) => if ns != "cpal"@ {
                default_value
            } else if v2_payload(raw) is Some {
                canonical
            } else {
                match devices {
                    None => canonical,
                    Some(cs) => match first_named(cs, raw) {
                        Some(i) => match candidate_id(cs[i]) {
                            Some(id) => id,
                            None => canonical,
                        },
                        None => canonical,
                    },
                }
            },
        }
    }
}

pub fn canonicalize_microphone_device_id(
    value: Option<String>,
    default_value: &str,
    devices: Option<&[InputCandidate]>,
) -> (r: String)
    ensures
        r@ == canonical_microphone(
            string_opt(value),
            default_value@,
            match devices {
                Some(d) => Some(d@),
                None => None,
            },
        ),
{
    proof {
        broadcast use vstd::string::group_string_axioms;

    }
    let canonical = canonicalize_namespaced_device_id(value, AudioBackendKind::Cpal, default_value);
    if str_eq(canonical.as_str(), "default") {
        return canonical;
    }
    let (namespace, raw_value) = match split_backend_device_id(canonical.as_str()) {
        Some(x) => x,
        None => {
            return canonical;
        },
    };
    if !str_eq(namespace, "cpal") {
        return default_value.to_string();
    }
    if parse_v2_fingerprint_payload(raw_value).is_some() {
        return canonical;
    }
    let cs = match devices {
        Some(cs) => cs,
        None => {
            return canonical;
        },
    };
    match find_named(cs, raw_value) {
        Some(i) => match &cs[i].fingerprint {
            Some(fp) => {
                let payload = fingerprint_payload(fp);
                versioned_id("cpal", "v2", payload.as_str())
            },
            None => canonical,
        },
        None => canonical,
    }
}

fn find_named(candidates: &[InputCandidate], name: &str) -> (r: Option<usize>)
    ensures
        match r {
            Some(i) => first_named(candidates@, name@) == Some(i as int) && i < candidates@.len(),
            None => first_named(candidates@, name@) is None,
        },
{
    let ghost cs = candidates@;
    let n = candidates.len();
    let mut i: usize = 0;
    while i < n
        invariant
            n == cs.len(),
            cs == candidates@,
            i <= n,
            forall|j: int| 0 <= j < i ==> !crate::capture_plan::has_name(#[trigger] cs[j], name@),
        decreases n - i,
    {
        let same = match &candidates[i].name {
            Some(nm) => str_eq(nm.as_str(), name),
            None => false,
        };
        if same {
            proof {
                let w = choose|k: int| 0 <= k < cs.len() && crate::capture_plan::has_name(cs[k], name@) && forall|j: int| 0 <= j < k ==> !crate::capture_plan::has_name(#[trigger] cs[j], name@);
                assert(crate::capture_plan::has_name(cs[i as int], name@));
                assert(0 <= w < cs.len() && crate::capture_plan::has_name(cs[w], name@) && forall|j: int| 0 <= j < w ==> !crate::capture_plan::has_name(#[trigger] cs[j], name@));
                if w < i {
                    assert(!crate::capture_plan::has_name(cs[w], name@));
                }
                if i < w {
                    assert(!crate::capture_plan::has_name(cs[i as int], name@));
                }
            }
            return Some(i);
        }
        i += 1;
    }
    None
}

/// The first device matching by `pred`.
pub open spec fn first_device(devices: Seq<AudioSourceDevice>, pred: spec_fn(AudioSourceDevice) -> bool) -> Option<int> {
    if exists|i: int| 0 <= i < devices.len() && pred(#[trigger] devices[i]) {
        Some(choose|i: int| 0 <= i < devices.len() && pred(devices[i]) && forall|j: int| 0 <= j < i ==> !pred(#[trigger] devices[j]))
    } else {
        None
    }
}

proof fn lemma_first_device(devices: Seq<AudioSourceDevice>, pred: spec_fn(AudioSourceDevice) -> bool, i: int)
    requires
        0 <= i < devices.len(),
        pred(devices[i]),
        forall|j: int| 0 <= j < i ==> !pred(#[trigger] devices[j]),
    ensures
        first_device(devices, pred) == Some(i),
{
    let w = choose|k: int| 0 <= k < devices.len() && pred(devices[k]) && forall|j: int| 0 <= j < k ==> !pred(#[trigger] devices[j]);
    assert(0 <= w < devices.len() && pred(devices[w]) && forall|j: int| 0 <= j < w ==> !pred(#[trigger] devices[j]));
    if w < i {
        assert(!pred(devices[w]));
    }
    if i < w {
        assert(!pred(devices[i]));
    }
}

/// A device matching a saved value by id, by legacy id, or by label.
pub open spec fn matches_saved(value: Seq<char>, legacy: Seq<char>) -> spec_fn(AudioSourceDevice) -> bool {
    |d: AudioSourceDevice| d.id@ == value || d.id@ == legacy || d.label@ == legacy
}

/// A device whose normalised label is the given one.
pub open spec fn labelled(label: Seq<char>) -> spec_fn(AudioSourceDevice) -> bool {
    |d: AudioSourceDevice| normalized_label(d.label@) == label
}

/// A Linux monitor selection: blank gives the default value; `default`
/// stays; a `linux-system:v3:` id stays; an id of another backend gives the
/// default value. Otherwise the first present device matching the value,
/// its legacy part or its label is taken; without the device list the
/// legacy part is namespaced; a `linux-system:v2:` fingerprint is matched
/// by normalised label; else the default value.
pub open spec fn canonical_linux_system(value: Option<Seq<char>>, default_value: Seq<char>, devices: Option<Seq<AudioSourceDevice>>) -> Seq<char> {
    match selection(value) {
        None => default_value,
        Some(v) => if v == "default"@ {
            v
        } else {
            let split = backend_split(v);
            if split matches Some((ns, raw)) && ns == "linux-system"@ && (split_nonempty(raw) matches Some((ver, _)) && ver == "v3"@) {
                v
            } else if split matches Some((ns, _)) && ns != "linux-system"@ {
                default_value
            } else {
                let legacy = match split {
                    Some((_, raw)) => raw,
                    None => v,
                };
                match devices {
                    None => namespaced("linux-system"@, legacy),
                    Some(ds) => match first_device(ds, matches_saved(v, legacy)) {
                        Some(i) => ds[i].id@,
                        None => match split {
                            None => namespaced("linux-system"@, legacy),
                            Some((_, raw)) => match parsed_fingerprint(raw) {
                                Some(fp) => match first_device(ds, labelled(fp.0)) {
                                    Some(i) => ds[i].id@,
                                    None => default_value,
                                },
                                None => default_value,
                            },
                        },
                    },
                }
            }
        },
    }
}

fn find_matching(devices: &[AudioSourceDevice], value: &str, legacy: &str) -> (r: Option<usize>)
    ensures
        match r {
            Some(i) => first_device(devices@, matches_saved(value@, legacy@)) == Some(i as int) && i < devices@.len(),
            None => first_device(devices@, matches_saved(value@, legacy@)) is None,
        },
{
    let ghost ds = devices@;
    let ghost pred = matches_saved(value@, legacy@);
    let n = devices.len();
    let mut i: usize = 0;
    while i < n
        invariant
            n == ds.len(),
            ds == devices@,
            pred == matches_saved(value@, legacy@),
            i <= n,
            forall|j: int| 0 <= j < i ==> !pred(#[trigger] ds[j]),
        decreases n - i,
    {
        let d = &devices[i];
        if str_eq(d.id.as_str(), value) || str_eq(d.id.as_str(), legacy) || str_eq(d.label.as_str(), legacy) {
            proof {
                lemma_first_device(ds, pred, i as int);
            }
            return Some(i);
        }
        i += 1;
    }
    None
}

fn find_labelled(devices: &[AudioSourceDevice], label: &str) -> (r: Option<usize>)
    ensures
        match r {
            Some(i) => first_device(devices@, labelled(label@)) == Some(i as int) && i < devices@.len(),
            None => first_device(devices@, labelled(label@)) is None,
        },
{
    let ghost ds = devices@;
    let ghost pred = labelled(label@);
    let n = devices.len();
    let mut i: usize = 0;
    while i < n
        invariant
            n == ds.len(),
            ds == devices@,
            pred == labelled(label@),
            i <= n,
            forall|j: int| 0 <= j < i ==> !pred(#[trigger] ds[j]),
        decreases n - i,
    {
        let normalized = normalize_label(devices[i].label.as_str());
        if str_eq(normalized.as_str(), label) {
            proof {
                lemma_first_device(ds, pred, i as int);
            }
            return Some(i);
        }
        i += 1;
    }
    None
}

#[verifier::rlimit(60)]
pub fn canonicalize_linux_system_device_id(
    value: Option<String>,
    default_value: &str,
    devices: Option<&[AudioSourceDevice]>,
) -> (r: String)
    ensures
        r@ == canonical_linux_system(
            string_opt(value),
            default_value@,
            match devices {
                Some(d) => Some(d@),
                None => None,
            },
        ),
{
    proof {
        broadcast use vstd::string::group_string_axioms;

        reveal_strlit("linux-system");
        reveal_strlit("v3");
    }
    let v = match normalize_device_selection(value) {
        Some(v) => v,
        None => {
            return default_value.to_string();
        },
    };
    if str_eq(v.as_str(), "default") {
        return v;
    }
    let split = split_backend_device_id(v.as_str());
    let legacy = match split {
        Some((namespace, raw_value)) => {
            if str_eq(namespace, "linux-system") {
                let is_v3 = match split_versioned_payload(raw_value) {
                    Some((version, payload)) => str_eq(version, "v3") && payload.unicode_len() != 0,
                    None => false,
                };
                if is_v3 {
                    return v;
                }
                raw_value.to_string()
            } else {
                return default_value.to_string();
            }
        },
        None => v.clone(),
    };
    let ds = match devices {
        Some(ds) => ds,
        None => {
            return namespaced_id("linux-system", legacy.as_str());
        },
    };
    match find_matching(ds, v.as_str(), legacy.as_str()) {
        Some(i) => {
            return ds[i].id.clone();
        },
        None => {},
    }
    let raw = match split_backend_device_id(v.as_str()) {
        Some((namespace, raw_value)) => {
            if str_eq(namespace, "linux-system") {
                raw_value
            } else {
                return namespaced_id("linux-system", legacy.as_str());
            }
        },
        None => {
            return namespaced_id("linux-system", legacy.as_str());
        },
    };
    match parse_v2_fingerprint(raw) {
        Some(fp) => match find_labelled(ds, fp.normalized_label.as_str()) {
            Some(i) => ds[i].id.clone(),
            None => default_value.to_string(),
        },
        None => default_value.to_string(),
    }
}

/// A system selection on `os`: blank gives the default value, `default`
/// stays. On macOS a `macos-system` id stays and a `display:` selection
/// (bare or under another backend) is namespaced, anything else gives the
/// default value; on Windows a `windows-system` id stays, another
/// backend's id gives the default value and a bare one is namespaced; on
/// Linux see `canonical_linux_system`.
pub open spec fn canonical_system(value: Option<Seq<char>>, default_value: Seq<char>, os: TargetOs, devices: Option<Seq<AudioSourceDevice>>) -> Seq<char> {
    match selection(value) {
        None => default_value,
        Some(v) => if v == "default"@ {
            v
        } else {
            match os {
                TargetOs::Macos => match backend_split(v) {
                    Some((ns, raw)) => if ns == "macos-system"@ {
                        v
                    } else if crate::text::has_prefix(raw, "display:"@) {
                        namespaced("macos-system"@, raw)
                    } else {
                        default_value
                    },
                    None => if crate::text::has_prefix(v, "display:"@) {
                        namespaced("macos-system"@, v)
                    } else {
                        default_value
                    },
                },
                TargetOs::Windows => match backend_split(v) {
                    Some((ns, _)) => if ns == "windows-system"@ {
                        v
                    } else {
                        default_value
                    },
                    None => canonical_namespaced(Some(v), AudioBackendKind::WindowsSystem, default_value),
                },
                TargetOs::Linux => canonical_linux_system(Some(v), default_value, devices),
            }
        },
    }
}

proof fn lemma_selection_idempotent(v: Seq<char>)
    requires
        trim_seq(v).len() != 0,
    ensures
        selection(Some(trim_seq(v))) == Some(trim_seq(v)),
{
    crate::text::lemma_trim_idempotent(v);
}

pub fn canonicalize_system_device_id(
    value: Option<String>,
    default_value: &str,
    os: TargetOs,
    linux_devices: Option<&[AudioSourceDevice]>,
) -> (r: String)
    ensures
        r@ == canonical_system(
            string_opt(value),
            default_value@,
            os,
            match linux_devices {
                Some(d) => Some(d@),
                None => None,
            },
        ),
{
    proof {
        broadcast use vstd::string::group_string_axioms;

        reveal_strlit("macos-system");
        reveal_strlit("windows-system");
        reveal_strlit("display:");
    }
    let ghost orig = string_opt(value);
    let v = match normalize_device_selection(value) {
        Some(v) => v,
        None => {
            return default_value.to_string();
        },
    };
    if str_eq(v.as_str(), "default") {
        return v;
    }
    proof {
        lemma_selection_idempotent(orig->0);
    }
    match os {
        TargetOs::Macos => {
            let display = chars_of("display:");
            match split_backend_device_id(v.as_str()) {
                Some((namespace, raw_value)) => {
                    if str_eq(namespace, "macos-system") {
                        return v;
                    }
                    if starts_with(&chars_of(raw_value), &display) {
                        namespaced_id("macos-system", raw_value)
                    } else {
                        default_value.to_string()
                    }
                },
                None => {
                    if starts_with(&chars_of(v.as_str()), &display) {
                        namespaced_id("macos-system", v.as_str())
                    } else {
                        default_value.to_string()
                    }
                },
            }
        },
        TargetOs::Windows => {
            match split_backend_device_id(v.as_str()) {
                Some((namespace, _)) => {
                    if str_eq(namespace, "windows-system") {
                        v
                    } else {
                        default_value.to_string()
                    }
                },
                None => canonicalize_namespaced_device_id(Some(v), AudioBackendKind::WindowsSystem, default_value),
            }
        },
        TargetOs::Linux => canonicalize_linux_system_device_id(Some(v), default_value, linux_devices),
    }
}

// ---------------------------------------------------------------------------
// Audio host choice
// ---------------------------------------------------------------------------

/// What was found on an audio host: its input devices, how many of them
/// have a default configuration, and its default input device.
pub struct HostInputs {
    pub device_count: u32,
    pub usable_count: u32,
    pub has_default: bool,
    pub default_usable: bool,
}

/// The preference for a host by its name on Linux: JACK is avoided, ALSA
/// preferred, PulseAudio and PipeWire more so (the name compared in ASCII
/// lower case); no preference elsewhere.
pub open spec fn host_bias(label: Seq<char>, os: TargetOs) -> int {
    if os != TargetOs::Linux {
        0
    } else {
        let l = lower_seq(label);
        if contains_seq(l, "jack"@) {
            -1000
        } else if contains_seq(l, "alsa"@) {
            25
        } else if contains_seq(l, "pulse"@) || contains_seq(l, "pipewire"@) {
            40
        } else {
            0
        }
    }
}

pub fn linux_host_bias(host_label: &str, os: TargetOs) -> (r: i32)
    ensures
        r == host_bias(host_label@, os),
{
    if os != TargetOs::Linux {
        return 0;
    }
    let cs = chars_of(host_label);
    let mut lowered: Vec<char> = Vec::new();
    for i in 0..cs.len()
        invariant
            lowered@ == lower_seq(cs@).take(i as int),
            cs@ == host_label@,
    {
        lowered.push(to_ascii_lower(cs[i]));
        assert(lower_seq(cs@).take(i + 1) =~= lower_seq(cs@).take(i as int).push(lower_seq(cs@)[i as int]));
    }
    assert(lower_seq(cs@).take(cs@.len() as int) =~= lower_seq(cs@));
    proof {
        reveal_strlit("jack");
        reveal_strlit("alsa");
        reveal_strlit("pulse");
        reveal_strlit("pipewire");
    }
    if contains_chars(&lowered, &chars_of("jack")) {
        return -1000;
    }
    if contains_chars(&lowered, &chars_of("alsa")) {
        return 25;
    }
    if contains_chars(&lowered, &chars_of("pulse")) || contains_chars(&lowered, &chars_of("pipewire")) {
        return 40;
    }
    0
}

/// A host's score: its bias, then with its input devices listed, 100, one
/// per device and twenty per usable device (each counted up to eight), ten
/// for a default device and thirty more when it is usable; without them,
/// 10 000 less.
pub open spec fn host_score_of(label: Seq<char>, inputs: Option<HostInputs>, os: TargetOs) -> int {
    let bias = host_bias(label, os);
    match inputs {
        None => bias - 10000,
        Some(h) => bias + 100 + (if h.device_count < 8 {
            h.device_count as int
        } else {
            8
        }) + 20 * (if h.usable_count < 8 {
            h.usable_count as int
        } else {
            8
        }) + (if h.has_default {
            10 + if h.default_usable {
                30int
            } else {
                0int
            }
        } else {
            0
        }),
    }
}

pub fn score_generic_input_host(host_label: &str, inputs: Option<HostInputs>, os: TargetOs) -> (r: i32)
    ensures
        r == host_score_of(host_label@, inputs, os),
{
    let bias = linux_host_bias(host_label, os);
    match inputs {
        None => bias - 10000,
        Some(h) => {
            let devices: i32 = if h.device_count < 8 {
                h.device_count as i32
            } else {
                8
            };
            let usable: i32 = if h.usable_count < 8 {
                h.usable_count as i32
            } else {
                8
            };
            let mut score = bias + 100 + devices + usable * 20;
            if h.has_default {
                score = score + 10;
                if h.default_usable {
                    score = score + 30;
                }
            }
            score
        },
    }
}

/// The host to use among those that could be opened (`None` for one that
/// could not): the first with the highest score; none when no host could
/// be opened (the default host is then used).
pub fn best_host_index(scores: &[Option<i32>]) -> (r: Option<usize>)
    ensures
        r is None <==> forall|j: int| 0 <= j < scores@.len() ==> #[trigger] scores@[j] is None,
        r matches Some(i) ==> i < scores@.len() && scores@[i as int] is Some && (forall|j: int|
            0 <= j < scores@.len() && #[trigger] scores@[j] is Some ==> scores@[j]->0 <= scores@[i as int]->0) && (
        forall|j: int| 0 <= j < i && #[trigger] scores@[j] is Some ==> scores@[j]->0 < scores@[i as int]->0),
{
    let mut best: Option<(i32, usize)> = None;
    let n = scores.len();
    for k in 0..n
        invariant
            n == scores@.len(),
            match best {
                Some((bs, bi)) => bi < k && scores@[bi as int] == Some(bs) && (forall|j: int|
                    0 <= j < k && #[trigger] scores@[j] is Some ==> scores@[j]->0 <= bs) && (forall|j: int|
                    0 <= j < bi && #[trigger] scores@[j] is Some ==> scores@[j]->0 < bs),
                None => forall|j: int| 0 <= j < k ==> #[trigger] scores@[j] is None,
            },
    {
        match scores[k] {
            Some(score) => {
                let replace = match best {
                    Some((bs, _)) => bs < score,
                    None => true,
                };
                if replace {
                    best = Some((score, k));
                }
            },
            None => {},
        }
    }
    match best {
        Some((_, bi)) => Some(bi),
        None => None,
    }
}


// ---------------------------------------------------------------------------
// Settings written by earlier versions
// ---------------------------------------------------------------------------

/// The audio section of a config file as earlier versions wrote it: every
/// field may be missing, and device ids may still be under their old names.
/// The gains, which are read the same way, are carried by the caller.
#[derive(Debug, Clone)]
pub struct LegacyAudioFields {
    pub capture_mode: Option<AudioCaptureMode>,
    pub mic_input_device: Option<String>,
    pub system_input_device: Option<String>,
    pub mic_device_id: Option<String>,
    pub system_device_id: Option<String>,
    pub sample_rate: Option<u32>,
    pub chunk_duration_ms: Option<u32>,
    pub mic_silence_threshold: Option<i16>,
    pub system_silence_threshold: Option<i16>,
}

/// The audio settings read from a legacy section (gains aside).
#[derive(Debug, Clone)]
pub struct BridgedAudioFields {
    pub capture_mode: AudioCaptureMode,
    pub mic_device_id: String,
    pub system_device_id: String,
    pub sample_rate: u32,
    pub chunk_duration_ms: u32,
    pub mic_silence_threshold: i16,
    pub system_silence_threshold: i16,
}

pub open spec fn or_else<T>(first: Option<T>, second: Option<T>) -> Option<T> {
    match first {
        Some(v) => Some(v),
        None => second,
    }
}

pub open spec fn or_default<T>(value: Option<T>, default: T) -> T {
    match value {
        Some(v) => v,
        None => default,
    }
}

pub open spec fn opt_view(devices: Option<&[AudioSourceDevice]>) -> Option<Seq<AudioSourceDevice>> {
    match devices {
        Some(d) => Some(d@),
        None => None,
    }
}

pub open spec fn candidates_view(devices: Option<&[InputCandidate]>) -> Option<Seq<InputCandidate>> {
    match devices {
        Some(d) => Some(d@),
        None => None,
    }
}

fn take_first(first: Option<String>, second: Option<String>) -> (r: Option<String>)
    ensures
        string_opt(r) == or_else(string_opt(first), string_opt(second)),
{
    match first {
        Some(v) => Some(v),
        None => second,
    }
}

/// Reads a legacy audio section: each missing field takes its default
/// (capture mode mixed, 16000 Hz, 100 ms chunks, silence thresholds 800),
/// the new device id fields win over the old device name fields, and both
/// device ids are canonicalised (`mic_devices` and `linux_devices` are the
/// devices enumerated for that, `None` when enumeration failed).
pub fn bridge_legacy_audio_settings(
    legacy: LegacyAudioFields,
    os: TargetOs,
    mic_devices: Option<&[InputCandidate]>,
    linux_devices: Option<&[AudioSourceDevice]>,
) -> (r: BridgedAudioFields)
    ensures
        r.capture_mode == or_default(legacy.capture_mode, AudioCaptureMode::Mixed),
        r.mic_device_id@ == canonical_microphone(
            or_else(string_opt(legacy.mic_device_id), string_opt(legacy.mic_input_device)),
            "default"@,
            candidates_view(mic_devices),
        ),
        r.system_device_id@ == canonical_system(
            or_else(string_opt(legacy.system_device_id), string_opt(legacy.system_input_device)),
            "default"@,
            os,
            opt_view(linux_devices),
        ),
        r.sample_rate == or_default(legacy.sample_rate, 16000u32),
        r.chunk_duration_ms == or_default(legacy.chunk_duration_ms, 100u32),
        r.mic_silence_threshold == or_default(legacy.mic_silence_threshold, 800i16),
        r.system_silence_threshold == or_default(legacy.system_silence_threshold, 800i16),
{
    let default_device = default_input_device();
    proof {
        reveal_strlit("default");
        assert(default_device@ == "default"@);
    }
    let mic = take_first(legacy.mic_device_id, legacy.mic_input_device);
    let system = take_first(legacy.system_device_id, legacy.system_input_device);
    BridgedAudioFields {
        capture_mode: match legacy.capture_mode {
            Some(m) => m,
            None => default_capture_mode(),
        },
        mic_device_id: canonicalize_microphone_device_id(mic, default_device.as_str(), mic_devices),
        system_device_id: canonicalize_system_device_id(system, default_device.as_str(), os, linux_devices),
        sample_rate: match legacy.sample_rate {
            Some(v) => v,
            None => default_sample_rate(),
        },
        chunk_duration_ms: match legacy.chunk_duration_ms {
            Some(v) => v,
            None => default_chunk_duration_ms(),
        },
        mic_silence_threshold: match legacy.mic_silence_threshold {
            Some(v) => v,
            None => default_mic_silence_threshold(),
        },
        system_silence_threshold: match legacy.system_silence_threshold {
            Some(v) => v,
            None => default_system_silence_threshold(),
        },
    }
}

} // verus!
