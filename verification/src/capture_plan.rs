//! Choosing what to capture from: resolving a saved microphone id among
//! the input devices (with fingerprint re-matching), the order in which
//! Linux system monitors are tried, and the warnings shown when capture
//! falls back to another source.
//!
//! Opening streams and enumerating devices is left to the caller, which
//! hands in the devices it found.
use vstd::prelude::*;
use crate::capabilities::TargetOs;
use crate::device_identity::{
    fields_of, fingerprint_payload, fingerprint_payload_of, namespaced, parse_v2_fingerprint,
    parse_v2_fingerprint_payload, parsed_fingerprint, rematch_score, split_namespaced_id,
    split_nonempty, v2_payload, versioned_id, FingerprintFields, InputFingerprint,
};
use crate::text::{extend_str, str_eq, string_from_chars};
use crate::types::{AudioBackendKind, AudioCaptureMode, AudioDevice, AudioSourceDevice, PhysicalAudioSource};

verus! {

/// What a capture session is asked to capture.
#[derive(Debug, Clone)]
pub struct CaptureConfig {
    pub mode: AudioCaptureMode,
    pub mic_device_id: Option<String>,
    pub system_device_id: Option<String>,
}

/// The stream format of one opened source.
#[derive(Debug, Clone, Copy)]
pub struct SourceStreamFormat {
    pub source: PhysicalAudioSource,
    pub sample_rate: u32,
    pub channels: u16,
}

/// The sources a capture session opened.
#[derive(Debug, Clone)]
pub struct CaptureRuntime {
    pub formats: Vec<SourceStreamFormat>,
    pub mixed: bool,
    pub warnings: Vec<String>,
}

/// An input device as enumerated: its name when it could be described, and
/// its fingerprint when it could be taken.
pub struct InputCandidate {
    pub name: Option<String>,
    pub fingerprint: Option<InputFingerprint>,
}

/// The device a microphone id resolves to.
#[derive(Debug, Clone, Copy, PartialEq, Eq, Structural)]
pub enum InputChoice {
    /// The candidate at this position.
    Candidate(usize),
    /// The host's default input device.
    Default,
}

/// A candidate's id: `cpal:v2:` and its fingerprint payload.
pub open spec fn candidate_id(c: InputCandidate) -> Option<Seq<char>> {
    match c.fingerprint {
        Some(fp) => Some(namespaced("cpal"@, "v2"@ + seq![':'] + fingerprint_payload_of(fp))),
        None => None,
    }
}

/// The first candidate with the given id.
pub open spec fn first_with_id(cs: Seq<InputCandidate>, id: Seq<char>) -> Option<int> {
    if exists|i: int| 0 <= i < cs.len() && candidate_id(#[trigger] cs[i]) == Some(id) {
        Some(choose|i: int| 0 <= i < cs.len() && candidate_id(cs[i]) == Some(id) && forall|j: int| 0 <= j < i ==> candidate_id(#[trigger] cs[j]) != Some(id))
    } else {
        None
    }
}

/// A candidate described with the given name.
pub open spec fn has_name(c: InputCandidate, name: Seq<char>) -> bool {
    c.name matches Some(n) && n@ == name
}

/// The first candidate with the given name.
pub open spec fn first_named(cs: Seq<InputCandidate>, name: Seq<char>) -> Option<int> {
    if exists|i: int| 0 <= i < cs.len() && has_name(#[trigger] cs[i], name) {
        Some(choose|i: int| 0 <= i < cs.len() && has_name(cs[i], name) && forall|j: int| 0 <= j < i ==> !has_name(#[trigger] cs[j], name))
    } else {
        None
    }
}

proof fn lemma_first_with_id(cs: Seq<InputCandidate>, id: Seq<char>, i: int)
    requires
        0 <= i < cs.len(),
        candidate_id(cs[i]) == Some(id),
        forall|j: int| 0 <= j < i ==> candidate_id(#[trigger] cs[j]) != Some(id),
    ensures
        first_with_id(cs, id) == Some(i),
{
    let w = choose|k: int| 0 <= k < cs.len() && candidate_id(cs[k]) == Some(id) && forall|j: int| 0 <= j < k ==> candidate_id(#[trigger] cs[j]) != Some(id);
    assert(0 <= w < cs.len() && candidate_id(cs[w]) == Some(id) && forall|j: int| 0 <= j < w ==> candidate_id(#[trigger] cs[j]) != Some(id));
    if w < i {
        assert(candidate_id(cs[w]) != Some(id));
    }
    if i < w {
        assert(candidate_id(cs[i]) != Some(id));
    }
}

proof fn lemma_first_named(cs: Seq<InputCandidate>, name: Seq<char>, i: int)
    requires
        0 <= i < cs.len(),
        has_name(cs[i], name),
        forall|j: int| 0 <= j < i ==> !has_name(#[trigger] cs[j], name),
    ensures
        first_named(cs, name) == Some(i),
{
    let w = choose|k: int| 0 <= k < cs.len() && has_name(cs[k], name) && forall|j: int| 0 <= j < k ==> !has_name(#[trigger] cs[j], name);
    assert(0 <= w < cs.len() && has_name(cs[w], name) && forall|j: int| 0 <= j < w ==> !has_name(#[trigger] cs[j], name));
    if w < i {
        assert(!has_name(cs[w], name));
    }
    if i < w {
        assert(!has_name(cs[i], name));
    }
}

/// How well a candidate matches a saved fingerprint (see `rematch_score`).
pub open spec fn score_fields(saved: FingerprintFields, c: FingerprintFields) -> nat {
    (if saved.0 == c.0 {
        60nat
    } else {
        0nat
    }) + (if saved.1 == c.1 {
        15nat
    } else {
        0nat
    }) + (if saved.2 == c.2 {
        10nat
    } else {
        0nat
    }) + (if saved.3 == c.3 {
        5nat
    } else {
        0nat
    }) + (if saved.4 == c.4 {
        10nat
    } else {
        0nat
    })
}

/// A candidate's score against a saved fingerprint; none without a
/// fingerprint.
pub open spec fn score_of(c: InputCandidate, saved: FingerprintFields) -> Option<nat> {
    match c.fingerprint {
        Some(fp) => Some(score_fields(saved, fields_of(fp))),
        None => None,
    }
}

/// A candidate close enough to re-match: a score of at least 75.
pub open spec fn qualifies(c: InputCandidate, saved: FingerprintFields) -> bool {
    score_of(c, saved) matches Some(s) && s >= 75
}

/// `i` is the first of the best re-matching candidates: it qualifies, no
/// qualifying candidate scores higher, and those before it score lower.
pub open spec fn is_best_match(cs: Seq<InputCandidate>, saved: FingerprintFields, i: int) -> bool {
    &&& 0 <= i < cs.len()
    &&& qualifies(cs[i], saved)
    &&& forall|j: int| 0 <= j < cs.len() && qualifies(#[trigger] cs[j], saved) ==> score_of(cs[j], saved)->0 <= score_of(cs[i], saved)->0
    &&& forall|j: int| 0 <= j < i && qualifies(#[trigger] cs[j], saved) ==> score_of(cs[j], saved)->0 < score_of(cs[i], saved)->0
}

/// A saved id that names a fingerprinted CPAL device: `cpal:` and a `v2:`
/// payload.
pub open spec fn fingerprinted_id(id: Seq<char>) -> Option<Seq<char>> {
    match split_nonempty(id) {
        Some((ns, payload)) => if ns == "cpal"@ && v2_payload(payload) is Some {
            Some(payload)
        } else {
            None
        },
        None => None,
    }
}

/// The name a saved plain id refers to: without its `cpal:` namespace.
pub open spec fn raw_device_name(id: Seq<char>) -> Seq<char> {
    match split_nonempty(id) {
        Some((ns, rest)) => if ns == "cpal"@ {
            rest
        } else {
            id
        },
        None => id,
    }
}

pub open spec fn opt_view(s: Option<&str>) -> Option<Seq<char>> {
    match s {
        Some(x) => Some(x@),
        None => None,
    }
}

/// The saved id that selects a device: none when absent or `default`.
pub open spec fn selected_id(device_id: Option<Seq<char>>) -> Option<Seq<char>> {
    match device_id {
        Some(id) => if id == "default"@ {
            None
        } else {
            Some(id)
        },
        None => None,
    }
}

fn candidate_id_exec(c: &InputCandidate) -> (r: Option<String>)
    ensures
        match candidate_id(*c) {
            Some(id) => r matches Some(s) && s@ == id,
            None => r is None,
        },
{
    match &c.fingerprint {
        Some(fp) => {
            let payload = fingerprint_payload(fp);
            proof {
                reveal_strlit("cpal");
                reveal_strlit("v2");
            }
            Some(versioned_id("cpal", "v2", payload.as_str()))
        },
        None => None,
    }
}

fn score_exec(c: &InputCandidate, saved: &InputFingerprint) -> (r: Option<u32>)
    ensures
        match score_of(*c, fields_of(*saved)) {
            Some(s) => r == Some(s as u32),
            None => r is None,
        },
{
    match &c.fingerprint {
        Some(fp) => {
            let s = crate::device_identity::microphone_rematch_score(saved, fp);
            proof {
                assert(rematch_score(*saved, *fp) == score_fields(fields_of(*saved), fields_of(*fp)));
            }
            Some(s)
        },
        None => None,
    }
}

fn find_by_id(candidates: &[InputCandidate], id: &str) -> (r: Option<usize>)
    ensures
        match first_with_id(candidates@, id@) {
            Some(i) => r == Some(i as usize),
            None => r is None,
        },
{
    let ghost cs = candidates@;
    let n = candidates.len();
    let mut i: usize = 0;
    while i < n
        invariant
            n == cs.len(),
            cs == candidates@,
            i <= n,
            forall|j: int| 0 <= j < i ==> candidate_id(#[trigger] cs[j]) != Some(id@),
        decreases n - i,
    {
        let cid = candidate_id_exec(&candidates[i]);
        let same = match &cid {
            Some(s) => str_eq(s.as_str(), id),
            None => false,
        };
        if same {
            proof {
                lemma_first_with_id(cs, id@, i as int);
            }
            return Some(i);
        }
        i += 1;
    }
    None
}

fn find_by_name(candidates: &[InputCandidate], name: &str) -> (r: Option<usize>)
    ensures
        match first_named(candidates@, name@) {
            Some(i) => r == Some(i as usize),
            None => r is None,
        },
{
    let ghost cs = candidates@;
    let n = candidates.len();
    let mut i: usize = 0;
    while i < n
        invariant
            n == cs.len(),
            cs == candidates@,
            i <= n,
            forall|j: int| 0 <= j < i ==> !has_name(#[trigger] cs[j], name@),
        decreases n - i,
    {
        let same = match &candidates[i].name {
            Some(nm) => str_eq(nm.as_str(), name),
            None => false,
        };
        if same {
            proof {
                lemma_first_named(cs, name@, i as int);
            }
            return Some(i);
        }
        i += 1;
    }
    None
}

/// Resolves a saved microphone id among the enumerated candidates.
///
/// No id, or `default`, selects the default device. A fingerprinted CPAL
/// id (see `fingerprinted_id`) selects the first candidate with that exact
/// id, else the first best re-match (see `is_best_match`), else the
/// default device; its payload must parse as a fingerprint once no exact
/// match is found. Any other id selects the first candidate named as it
/// (see `raw_device_name`), or fails.
pub fn resolve_input_device(device_id: Option<&str>, candidates: &[InputCandidate]) -> (r: Result<InputChoice, String>)
    ensures
        ({
            let cs = candidates@;
            match selected_id(opt_view(device_id)) {
                None => r == Ok::<InputChoice, String>(InputChoice::Default),
                Some(id) => match fingerprinted_id(id) {
                    Some(payload) => match first_with_id(cs, id) {
                        Some(i) => r == Ok::<InputChoice, String>(InputChoice::Candidate(i as usize)),
                        None => match parsed_fingerprint(payload) {
                            None => r matches Err(m) && m@ == "Invalid CPAL microphone fingerprint: "@ + id,
                            Some(saved) => (r matches Ok(InputChoice::Candidate(i)) && is_best_match(cs, saved, i as int))
                                || (r == Ok::<InputChoice, String>(InputChoice::Default) && forall|j: int|
                                0 <= j < cs.len() ==> !qualifies(#[trigger] cs[j], saved)),
                        },
                    },
                    None => match first_named(cs, raw_device_name(id)) {
                        Some(i) => r == Ok::<InputChoice, String>(InputChoice::Candidate(i as usize)),
                        None => r matches Err(m) && m@ == "Device not found: "@ + id,
                    },
                },
            }
        }),
{
    proof {
        reveal_strlit("default");
        reveal_strlit("cpal");
    }
    let id = match device_id {
        Some(id) => {
            if str_eq(id, "default") {
                return Ok(InputChoice::Default);
            }
            id
        },
        None => {
            return Ok(InputChoice::Default);
        },
    };
    let ghost cs = candidates@;
    let fingerprinted = match split_namespaced_id(id) {
        Some((namespace, payload)) => {
            if str_eq(namespace, "cpal") {
                match parse_v2_fingerprint_payload(payload) {
                    Some(_) => Some(payload),
                    None => None,
                }
            } else {
                None
            }
        },
        None => None,
    };
    match fingerprinted {
        Some(payload) => {
            let n = candidates.len();
            match find_by_id(candidates, id) {
                Some(i) => {
                    return Ok(InputChoice::Candidate(i));
                },
                None => {},
            }
            assert(first_with_id(cs, id@) is None);
            let saved = match parse_v2_fingerprint(payload) {
                Some(fp) => fp,
                None => {
                    let mut m: Vec<char> = Vec::new();
                    extend_str(&mut m, "Invalid CPAL microphone fingerprint: ");
                    extend_str(&mut m, id);
                    return Err(string_from_chars(&m));
                },
            };
            let ghost sf = fields_of(saved);
            let mut best: Option<(u32, usize)> = None;
            let mut k: usize = 0;
            while k < n
                invariant
                    n == cs.len(),
                    cs == candidates@,
                    sf == fields_of(saved),
                    k <= n,
                    match best {
                        Some((bs, bi)) => {
                            &&& bi < k
                            &&& qualifies(cs[bi as int], sf)
                            &&& score_of(cs[bi as int], sf)->0 == bs
                            &&& forall|j: int| 0 <= j < k && qualifies(#[trigger] cs[j], sf) ==> score_of(cs[j], sf)->0 <= bs
                            &&& forall|j: int| 0 <= j < bi && qualifies(#[trigger] cs[j], sf) ==> score_of(cs[j], sf)->0 < bs
                        },
                        None => forall|j: int| 0 <= j < k ==> !qualifies(#[trigger] cs[j], sf),
                    },
                decreases n - k,
            {
                match score_exec(&candidates[k], &saved) {
                    Some(score) => {
                        if score >= 75 {
                            let replace = match best {
                                Some((bs, _)) => bs < score,
                                None => true,
                            };
                            if replace {
                                best = Some((score, k));
                            }
                        }
                    },
                    None => {},
                }
                k += 1;
            }
            match best {
                Some((_, bi)) => Ok(InputChoice::Candidate(bi)),
                None => Ok(InputChoice::Default),
            }
        },
        None => {
            let raw = match split_namespaced_id(id) {
                Some((namespace, rest)) => {
                    if str_eq(namespace, "cpal") {
                        rest
                    } else {
                        id
                    }
                },
                None => id,
            };
            match find_by_name(candidates, raw) {
                Some(i) => {
                    return Ok(InputChoice::Candidate(i));
                },
                None => {},
            }
            let mut m: Vec<char> = Vec::new();
            extend_str(&mut m, "Device not found: ");
            extend_str(&mut m, id);
            Err(string_from_chars(&m))
        },
    }
}

// ---------------------------------------------------------------------------
// System capture fallbacks
// ---------------------------------------------------------------------------

/// A saved system device id that selects a device: not empty, not `default`.
pub open spec fn chosen_system_id(device_id: Option<Seq<char>>) -> Option<Seq<char>> {
    match device_id {
        Some(id) => if id.len() == 0 || id == "default"@ {
            None
        } else {
            Some(id)
        },
        None => None,
    }
}

/// How a warning names the system device that failed.
pub open spec fn device_description(device_id: Option<Seq<char>>, os: TargetOs) -> Seq<char> {
    match chosen_system_id(device_id) {
        None => if os == TargetOs::Linux {
            "the default system monitor"@
        } else {
            "the default system audio source"@
        },
        Some(id) => match split_nonempty(id) {
            Some((ns, _)) => if ns == "linux-system"@ {
                "the selected system monitor"@
            } else {
                "the selected system device"@
            },
            None => "the selected system device"@,
        },
    }
}

pub fn describe_system_device_for_warning(device_id: Option<&str>, os: TargetOs) -> (r: String)
    ensures
        r@ == device_description(opt_view(device_id), os),
{
    proof {
        reveal_strlit("default");
    }
    let chosen = match device_id {
        Some(id) => {
            if id.unicode_len() == 0 || str_eq(id, "default") {
                None
            } else {
                Some(id)
            }
        },
        None => None,
    };
    match chosen {
        None => {
            if os == TargetOs::Linux {
                String::from_str("the default system monitor")
            } else {
                String::from_str("the default system audio source")
            }
        },
        Some(id) => match split_namespaced_id(id) {
            Some((namespace, _)) => {
                if str_eq(namespace, "linux-system") {
                    String::from_str("the selected system monitor")
                } else {
                    String::from_str("the selected system device")
                }
            },
            None => String::from_str("the selected system device"),
        },
    }
}

pub open spec fn fallback_text(device_id: Option<Seq<char>>, fallback_target: Seq<char>, error: Seq<char>, os: TargetOs) -> Seq<char> {
    "Failed to start system audio from "@ + device_description(device_id, os) + ": "@ + error + ". Switched to "@
        + fallback_target + "."@
}

/// The warning when system capture from the selected device failed with
/// `error` and capture went on with `fallback_target`.
pub fn fallback_warning_message(selected_device_id: Option<&str>, fallback_target: &str, error: &str, os: TargetOs) -> (r: String)
    ensures
        r@ == fallback_text(opt_view(selected_device_id), fallback_target@, error@, os),
{
    let selected = describe_system_device_for_warning(selected_device_id, os);
    let mut cs: Vec<char> = Vec::new();
    extend_str(&mut cs, "Failed to start system audio from ");
    extend_str(&mut cs, selected.as_str());
    extend_str(&mut cs, ": ");
    extend_str(&mut cs, error);
    extend_str(&mut cs, ". Switched to ");
    extend_str(&mut cs, fallback_target);
    extend_str(&mut cs, ".");
    string_from_chars(&cs)
}

/// The Linux monitors to try, in order: the selected one first (when set,
/// not empty and not `default`), then every Linux system device but the
/// selected one, or `default` when that leaves none.
pub open spec fn monitor_candidates(selected: Option<Seq<char>>, devices: Seq<AudioSourceDevice>) -> Seq<Seq<char>> {
    let head: Seq<Seq<char>> = match chosen_system_id(selected) {
        Some(id) => seq![id],
        None => Seq::empty(),
    };
    let all = head + others(chosen_system_id(selected), devices);
    if all.len() == 0 {
        seq!["default"@]
    } else {
        all
    }
}

/// The ids of the Linux system devices other than the selected one, in order.
pub open spec fn others(selected: Option<Seq<char>>, devices: Seq<AudioSourceDevice>) -> Seq<Seq<char>>
    decreases devices.len(),
{
    if devices.len() == 0 {
        Seq::empty()
    } else {
        let rest = others(selected, devices.drop_last());
        let d = devices.last();
        if d.backend == AudioBackendKind::LinuxSystem && selected != Some(d.id@) {
            rest.push(d.id@)
        } else {
            rest
        }
    }
}

pub fn linux_system_candidates(selected_device_id: Option<&str>, devices: &[AudioSourceDevice]) -> (r: Vec<String>)
    ensures
        r@.len() == monitor_candidates(opt_view(selected_device_id), devices@).len(),
        forall|i: int| 0 <= i < r@.len() ==> #[trigger] r@[i]@ == monitor_candidates(opt_view(selected_device_id), devices@)[i],
{
    proof {
        reveal_strlit("default");
    }
    let chosen = match selected_device_id {
        Some(id) => {
            if id.unicode_len() == 0 || str_eq(id, "default") {
                None
            } else {
                Some(id)
            }
        },
        None => None,
    };
    let ghost sel = chosen_system_id(opt_view(selected_device_id));
    let mut out: Vec<String> = Vec::new();
    let ghost head: Seq<Seq<char>> = Seq::empty();
    match chosen {
        Some(id) => {
            proof {
                broadcast use vstd::string::group_string_axioms;

            }
            out.push(id.to_string());
            proof {
                head = seq![id@];
            }
        },
        None => {},
    }
    let n = devices.len();
    for k in 0..n
        invariant
            n == devices@.len(),
            sel == chosen_system_id(opt_view(selected_device_id)),
            sel == match chosen {
                Some(x) => Some(x@),
                None => None::<Seq<char>>,
            },
            head == match sel {
                Some(x) => seq![x],
                None => Seq::<Seq<char>>::empty(),
            },
            out@.len() == (head + others(sel, devices@.take(k as int))).len(),
            forall|i: int| 0 <= i < out@.len() ==> #[trigger] out@[i]@ == (head + others(sel, devices@.take(k as int)))[i],
    {
        proof {
            assert(devices@.take(k + 1).drop_last() =~= devices@.take(k as int));
            assert(devices@.take(k + 1).last() == devices@[k as int]);
        }
        let d = &devices[k];
        let is_linux = d.backend == AudioBackendKind::LinuxSystem;
        let is_selected = match chosen {
            Some(x) => str_eq(x, d.id.as_str()),
            None => false,
        };
        if is_linux && !is_selected {
            let ghost o = out@;
            out.push(d.id.clone());
            proof {
                assert forall|i: int| 0 <= i < out@.len() implies #[trigger] out@[i]@ == (head + others(sel, devices@.take(k + 1)))[i] by {
                    if i < o.len() {
                        assert(out@[i] == o[i]);
                    }
                }
            }
        } else {
            proof {
                assert(head + others(sel, devices@.take(k + 1)) =~= head + others(sel, devices@.take(k as int)));
            }
        }
    }
    proof {
        assert(devices@.take(n as int) =~= devices@);
    }
    if out.len() == 0 {
        out.push(String::from_str("default"));
    }
    out
}

/// The warning after system capture switched to the candidate at `index`
/// (none for the first candidate): the last failure's text when there was
/// one, else a notice; `keeps_microphone` tells whether the microphone
/// stays on alongside.
pub fn monitor_switch_warning(
    index: usize,
    last_error: Option<&str>,
    selected_device_id: Option<&str>,
    keeps_microphone: bool,
    os: TargetOs,
) -> (r: Option<String>)
    ensures
        index == 0 ==> r is None,
        index > 0 ==> (r matches Some(w) && w@ == match last_error {
            Some(e) => fallback_text(opt_view(selected_device_id), "another available system monitor"@, e@, os),
            None => if keeps_microphone {
                "Switched system audio capture to another available system monitor while keeping microphone capture active."@
            } else {
                "Switched system audio capture to another available system monitor."@
            },
        }),
{
    if index == 0 {
        return None;
    }
    match last_error {
        Some(e) => Some(fallback_warning_message(selected_device_id, "another available system monitor", e, os)),
        None => if keeps_microphone {
            Some(
                String::from_str(
                    "Switched system audio capture to another available system monitor while keeping microphone capture active.",
                ),
            )
        } else {
            Some(String::from_str("Switched system audio capture to another available system monitor."))
        },
    }
}

/// The failure reported when no monitor could be opened.
pub fn monitor_failure_text(last_error: Option<String>) -> (r: String)
    ensures
        r@ == match last_error {
            Some(e) => e@,
            None => "No Linux system monitor source candidates were available"@,
        },
{
    match last_error {
        Some(e) => e,
        None => String::from_str("No Linux system monitor source candidates were available"),
    }
}

/// Whether a Linux system preflight can pass on enumeration alone: some
/// device is a Linux system monitor.
pub fn has_monitor_candidate(devices: &[AudioSourceDevice]) -> (r: bool)
    ensures
        r == exists|i: int| 0 <= i < devices@.len() && #[trigger] devices@[i].backend == AudioBackendKind::LinuxSystem,
{
    let mut i: usize = 0;
    while i < devices.len()
        invariant
            i <= devices@.len(),
            forall|j: int| 0 <= j < i ==> #[trigger] devices@[j].backend != AudioBackendKind::LinuxSystem,
        decreases devices@.len() - i,
    {
        if devices[i].backend == AudioBackendKind::LinuxSystem {
            return true;
        }
        i += 1;
    }
    false
}

/// An input device as listed to the user: `cpal:` and its name, marked
/// default when it is the default device.
pub fn listed_device(name: &str, default_name: &str) -> (r: AudioDevice)
    ensures
        r.name@ == namespaced("cpal"@, name@),
        r.is_default == (name@ == default_name@),
{
    proof {
        reveal_strlit("cpal");
    }
    AudioDevice { is_default: str_eq(name, default_name), name: crate::device_identity::namespaced_id("cpal", name) }
}


// ---------------------------------------------------------------------------
// Opening the sources of a capture session
// ---------------------------------------------------------------------------

/// What came of one attempt to open a source: its stream format, or the
/// text of the error.
#[derive(Debug, Clone)]
pub enum StartOutcome {
    Started(SourceStreamFormat),
    Failed(String),
}

/// The next step in opening the sources of a capture session.
#[derive(Debug, Clone)]
pub enum CaptureStep {
    /// Open the microphone (the configured one).
    StartMicrophone,
    /// Open system capture from this device (none: the backend's default).
    StartSystem(Option<String>),
    /// Done: the sources opened.
    Finished(CaptureRuntime),
    /// Fail with the error of the last attempt.
    GiveUp,
    /// Fail with the error of enumerating the system devices.
    GiveUpListing,
}

pub enum OutcomeView {
    Started(SourceStreamFormat),
    Failed(Seq<char>),
}

pub enum StepView {
    StartMicrophone,
    StartSystem(Option<Seq<char>>),
    Finished(Seq<SourceStreamFormat>, bool, Seq<Seq<char>>),
    GiveUp,
    GiveUpListing,
}

pub open spec fn outcome_view(o: StartOutcome) -> OutcomeView {
    match o {
        StartOutcome::Started(f) => OutcomeView::Started(f),
        StartOutcome::Failed(e) => OutcomeView::Failed(e@),
    }
}

pub open spec fn outcomes_view(h: Seq<StartOutcome>) -> Seq<OutcomeView> {
    h.map_values(|o: StartOutcome| outcome_view(o))
}

pub open spec fn strings_view(v: Seq<String>) -> Seq<Seq<char>> {
    v.map_values(|s: String| s@)
}

pub open spec fn step_view(s: CaptureStep) -> StepView {
    match s {
        CaptureStep::StartMicrophone => StepView::StartMicrophone,
        CaptureStep::StartSystem(d) => StepView::StartSystem(
            match d {
                Some(x) => Some(x@),
                None => None,
            },
        ),
        CaptureStep::Finished(rt) => StepView::Finished(rt.formats@, rt.mixed, strings_view(rt.warnings@)),
        CaptureStep::GiveUp => StepView::GiveUp,
        CaptureStep::GiveUpListing => StepView::GiveUpListing,
    }
}

/// The error text of an attempt that failed (none for one that opened).
pub open spec fn failure_of(o: OutcomeView) -> Option<Seq<char>> {
    match o {
        OutcomeView::Failed(e) => Some(e),
        OutcomeView::Started(_) => None,
    }
}

/// The error text of the last of `h`, if it failed.
pub open spec fn last_failure(h: Seq<OutcomeView>) -> Option<Seq<char>> {
    if h.len() == 0 {
        None
    } else {
        failure_of(h.last())
    }
}

/// The text of the error behind a fallback: the last failure, or, when no
/// monitor was even tried, the capture error saying so.
pub open spec fn fallback_error(last: Option<Seq<char>>) -> Seq<char> {
    match last {
        Some(e) => e,
        None => "Audio capture: No Linux system monitor source candidates were available"@,
    }
}

/// The warnings after system capture opened the monitor at `index` (see
/// `monitor_switch_warning`).
pub open spec fn switch_warnings(
    index: int,
    last: Option<Seq<char>>,
    system_id: Option<Seq<char>>,
    keeps_microphone: bool,
    os: TargetOs,
) -> Seq<Seq<char>> {
    if index == 0 {
        Seq::empty()
    } else {
        seq![
            match last {
                Some(e) => fallback_text(system_id, "another available system monitor"@, e, os),
                None => if keeps_microphone {
                    "Switched system audio capture to another available system monitor while keeping microphone capture active."@
                } else {
                    "Switched system audio capture to another available system monitor."@
                },
            },
        ]
    }
}

/// The next step of opening the sources for `mode` on `os`, after the
/// attempts whose outcomes are `h`, in order.
///
/// The microphone alone is opened once. System capture elsewhere than on
/// Linux tries the selected device, then falls back to the microphone;
/// mixed capture opens the microphone and then the selected system device,
/// going on with the microphone alone when that fails. On Linux system
/// capture tries each monitor of `candidates` (none: they could not be
/// listed) until one opens, mixed capture likewise after the microphone,
/// and a switch away from the selected monitor is warned of. A failed
/// microphone ends the attempt, as does the end of the plan.
pub open spec fn capture_step(
    mode: AudioCaptureMode,
    os: TargetOs,
    system_id: Option<Seq<char>>,
    candidates: Option<Seq<Seq<char>>>,
    h: Seq<OutcomeView>,
) -> StepView {
    let k = h.len();
    match mode {
        AudioCaptureMode::Mic => if k == 0 {
            StepView::StartMicrophone
        } else if k == 1 {
            match h[0] {
                OutcomeView::Started(f) => StepView::Finished(seq![f], false, Seq::empty()),
                OutcomeView::Failed(_) => StepView::GiveUp,
            }
        } else {
            StepView::GiveUp
        },
        AudioCaptureMode::System => if os != TargetOs::Linux {
            if k == 0 {
                StepView::StartSystem(system_id)
            } else {
                match h[0] {
                    OutcomeView::Started(f) => if k == 1 {
                        StepView::Finished(seq![f], false, Seq::empty())
                    } else {
                        StepView::GiveUp
                    },
                    OutcomeView::Failed(e) => if k == 1 {
                        StepView::StartMicrophone
                    } else if k == 2 {
                        match h[1] {
                            OutcomeView::Started(m) => StepView::Finished(
                                seq![m],
                                false,
                                seq![fallback_text(system_id, "microphone capture"@, e, os)],
                            ),
                            OutcomeView::Failed(_) => StepView::GiveUp,
                        }
                    } else {
                        StepView::GiveUp
                    },
                }
            }
        } else {
            match candidates {
                None => StepView::GiveUpListing,
                Some(cs) => if k == 0 {
                    if cs.len() > 0 {
                        StepView::StartSystem(Some(cs[0]))
                    } else {
                        StepView::StartMicrophone
                    }
                } else if k <= cs.len() {
                    match h[k - 1] {
                        OutcomeView::Started(f) => StepView::Finished(
                            seq![f],
                            false,
                            switch_warnings(k - 1, last_failure(h.take(k - 1)), system_id, false, os),
                        ),
                        OutcomeView::Failed(_) => if k < cs.len() {
                            StepView::StartSystem(Some(cs[k as int]))
                        } else {
                            StepView::StartMicrophone
                        },
                    }
                } else if k == cs.len() + 1 {
                    match h[k - 1] {
                        OutcomeView::Started(m) => StepView::Finished(
                            seq![m],
                            false,
                            seq![fallback_text(system_id, "microphone capture"@, fallback_error(last_failure(h.take(k - 1))), os)],
                        ),
                        OutcomeView::Failed(_) => StepView::GiveUp,
                    }
                } else {
                    StepView::GiveUp
                },
            }
        },
        AudioCaptureMode::Mixed => if k == 0 {
            StepView::StartMicrophone
        } else {
            match h[0] {
                OutcomeView::Failed(_) => StepView::GiveUp,
                OutcomeView::Started(m) => if os != TargetOs::Linux {
                    if k == 1 {
                        StepView::StartSystem(system_id)
                    } else if k == 2 {
                        match h[1] {
                            OutcomeView::Started(f) => StepView::Finished(seq![m, f], true, Seq::empty()),
                            OutcomeView::Failed(e) => StepView::Finished(
                                seq![m],
                                false,
                                seq![fallback_text(system_id, "microphone-only capture"@, e, os)],
                            ),
                        }
                    } else {
                        StepView::GiveUp
                    }
                } else {
                    match candidates {
                        None => StepView::GiveUpListing,
                        Some(cs) => {
                            let j = k - 1;
                            if j == 0 {
                                if cs.len() > 0 {
                                    StepView::StartSystem(Some(cs[0]))
                                } else {
                                    StepView::Finished(
                                        seq![m],
                                        false,
                                        seq![fallback_text(system_id, "microphone-only capture"@, fallback_error(None), os)],
                                    )
                                }
                            } else if j <= cs.len() {
                                match h[k - 1] {
                                    OutcomeView::Started(f) => StepView::Finished(
                                        seq![m, f],
                                        true,
                                        switch_warnings(j - 1, last_failure(h.take(k - 1)), system_id, true, os),
                                    ),
                                    OutcomeView::Failed(e) => if j < cs.len() {
                                        StepView::StartSystem(Some(cs[j]))
                                    } else {
                                        StepView::Finished(
                                            seq![m],
                                            false,
                                            seq![fallback_text(system_id, "microphone-only capture"@, e, os)],
                                        )
                                    },
                                }
                            } else {
                                StepView::GiveUp
                            }
                        },
                    }
                }
            }
        },
    }
}

fn runtime_of(formats: Vec<SourceStreamFormat>, mixed: bool, warnings: Vec<String>) -> (r: CaptureStep)
    ensures
        step_view(r) == StepView::Finished(formats@, mixed, strings_view(warnings@)),
        formats@.len() == 1 ==> step_view(r) == StepView::Finished(seq![formats@[0]], mixed, strings_view(warnings@)),
        formats@.len() == 2 ==> step_view(r) == StepView::Finished(seq![formats@[0], formats@[1]], mixed, strings_view(warnings@)),
{
    assert(formats@.len() == 1 ==> formats@ =~= seq![formats@[0]]);
    assert(formats@.len() == 2 ==> formats@ =~= seq![formats@[0], formats@[1]]);
    CaptureStep::Finished(CaptureRuntime { formats, mixed, warnings })
}

fn one_warning(w: String) -> (r: Vec<String>)
    ensures
        strings_view(r@) == seq![w@],
{
    let mut v: Vec<String> = Vec::new();
    v.push(w);
    assert(strings_view(v@) =~= seq![w@]);
    v
}

fn no_warnings() -> (r: Vec<String>)
    ensures
        strings_view(r@) == Seq::<Seq<char>>::empty(),
{
    let v: Vec<String> = Vec::new();
    assert(strings_view(v@) =~= Seq::<Seq<char>>::empty());
    v
}

fn switch_warning_list(
    index: usize,
    last: Option<&str>,
    system_id: Option<&str>,
    keeps_microphone: bool,
    os: TargetOs,
) -> (r: Vec<String>)
    ensures
        strings_view(r@) == switch_warnings(index as int, opt_view(last), opt_view(system_id), keeps_microphone, os),
{
    match monitor_switch_warning(index, last, system_id, keeps_microphone, os) {
        Some(w) => one_warning(w),
        None => no_warnings(),
    }
}

fn failure_text_of(o: &StartOutcome) -> (r: Option<&str>)
    ensures
        opt_view(r) == failure_of(outcome_view(*o)),
{
    match o {
        StartOutcome::Failed(e) => Some(e.as_str()),
        StartOutcome::Started(_) => None,
    }
}

fn last_failure_of(h: &[StartOutcome], n: usize) -> (r: Option<&str>)
    requires
        n <= h@.len(),
    ensures
        opt_view(r) == last_failure(outcomes_view(h@).take(n as int)),
{
    if n == 0 {
        None
    } else {
        failure_text_of(&h[n - 1])
    }
}

fn fallback_error_text(last: Option<&str>) -> (r: String)
    ensures
        r@ == fallback_error(opt_view(last)),
{
    match last {
        Some(e) => e.to_string(),
        None => String::from_str("Audio capture: No Linux system monitor source candidates were available"),
    }
}

fn opt_string(s: Option<&str>) -> (r: Option<String>)
    ensures
        match r {
            Some(x) => opt_view(s) == Some(x@),
            None => s is None,
        },
{
    match s {
        Some(x) => Some(x.to_string()),
        None => None,
    }
}

/// The next step in opening the sources of a capture session (see
/// `capture_step`): `history` holds the outcomes of the steps taken so
/// far, `linux_candidates` the monitors to try on Linux (see
/// `linux_system_candidates`; none when they could not be listed).
pub fn next_capture_step(
    mode: AudioCaptureMode,
    os: TargetOs,
    system_device_id: Option<&str>,
    linux_candidates: Option<&[String]>,
    history: &[StartOutcome],
) -> (r: CaptureStep)
    ensures
        step_view(r) == capture_step(
            mode,
            os,
            opt_view(system_device_id),
            match linux_candidates {
                Some(c) => Some(strings_view(c@)),
                None => None,
            },
            outcomes_view(history@),
        ),
{
    proof {
        broadcast use vstd::string::group_string_axioms;

    }
    let ghost h = outcomes_view(history@);
    let k = history.len();
    let ghost cands = match linux_candidates {
        Some(c) => Some(strings_view(c@)),
        None => None::<Seq<Seq<char>>>,
    };
    assert(h.len() == k);
    match mode {
        AudioCaptureMode::Mic => {
            if k == 0 {
                return CaptureStep::StartMicrophone;
            }
            if k > 1 {
                return CaptureStep::GiveUp;
            }
            assert(h[0] == outcome_view(history@[0]));
            match &history[0] {
                StartOutcome::Started(f) => runtime_of(vec![*f], false, no_warnings()),
                StartOutcome::Failed(_) => CaptureStep::GiveUp,
            }
        },
        AudioCaptureMode::System => {
            if os != TargetOs::Linux {
                if k == 0 {
                    return CaptureStep::StartSystem(opt_string(system_device_id));
                }
                assert(h[0] == outcome_view(history@[0]));
                match &history[0] {
                    StartOutcome::Started(f) => {
                        if k == 1 {
                            runtime_of(vec![*f], false, no_warnings())
                        } else {
                            CaptureStep::GiveUp
                        }
                    },
                    StartOutcome::Failed(e) => {
                        if k == 1 {
                            CaptureStep::StartMicrophone
                        } else if k == 2 {
                            assert(h[1] == outcome_view(history@[1]));
                            match &history[1] {
                                StartOutcome::Started(m) => {
                                    let w = fallback_warning_message(system_device_id, "microphone capture", e.as_str(), os);
                                    runtime_of(vec![*m], false, one_warning(w))
                                },
                                StartOutcome::Failed(_) => CaptureStep::GiveUp,
                            }
                        } else {
                            CaptureStep::GiveUp
                        }
                    },
                }
            } else {
                let cs = match linux_candidates {
                    None => {
                        return CaptureStep::GiveUpListing;
                    },
                    Some(c) => c,
                };
                let n = cs.len();
                if k == 0 {
                    if n > 0 {
                        return CaptureStep::StartSystem(Some(cs[0].clone()));
                    } else {
                        return CaptureStep::StartMicrophone;
                    }
                }
                assert(h[k - 1] == outcome_view(history@[k - 1]));
                if k <= n {
                    match &history[k - 1] {
                        StartOutcome::Started(f) => {
                            let last = last_failure_of(history, k - 1);
                            let ws = switch_warning_list(k - 1, last, system_device_id, false, os);
                            proof {
                                assert(outcomes_view(history@).take(k - 1) =~= h.take(k - 1));
                            }
                            runtime_of(vec![*f], false, ws)
                        },
                        StartOutcome::Failed(_) => {
                            if k < n {
                                CaptureStep::StartSystem(Some(cs[k].clone()))
                            } else {
                                CaptureStep::StartMicrophone
                            }
                        },
                    }
                } else if k == n + 1 {
                    match &history[k - 1] {
                        StartOutcome::Started(m) => {
                            let last = last_failure_of(history, k - 1);
                            let err = fallback_error_text(last);
                            let w = fallback_warning_message(system_device_id, "microphone capture", err.as_str(), os);
                            runtime_of(vec![*m], false, one_warning(w))
                        },
                        StartOutcome::Failed(_) => CaptureStep::GiveUp,
                    }
                } else {
                    CaptureStep::GiveUp
                }
            }
        },
        AudioCaptureMode::Mixed => {
            if k == 0 {
                return CaptureStep::StartMicrophone;
            }
            assert(h[0] == outcome_view(history@[0]));
            let m = match &history[0] {
                StartOutcome::Failed(_) => {
                    return CaptureStep::GiveUp;
                },
                StartOutcome::Started(m) => *m,
            };
            if os != TargetOs::Linux {
                if k == 1 {
                    CaptureStep::StartSystem(opt_string(system_device_id))
                } else if k == 2 {
                    assert(h[1] == outcome_view(history@[1]));
                    match &history[1] {
                        StartOutcome::Started(f) => runtime_of(vec![m, *f], true, no_warnings()),
                        StartOutcome::Failed(e) => {
                            let w = fallback_warning_message(system_device_id, "microphone-only capture", e.as_str(), os);
                            runtime_of(vec![m], false, one_warning(w))
                        },
                    }
                } else {
                    CaptureStep::GiveUp
                }
            } else {
                let cs = match linux_candidates {
                    None => {
                        return CaptureStep::GiveUpListing;
                    },
                    Some(c) => c,
                };
                let n = cs.len();
                let j = k - 1;
                if j == 0 {
                    if n > 0 {
                        CaptureStep::StartSystem(Some(cs[0].clone()))
                    } else {
                        let err = fallback_error_text(None);
                        let w = fallback_warning_message(system_device_id, "microphone-only capture", err.as_str(), os);
                        runtime_of(vec![m], false, one_warning(w))
                    }
                } else if j <= n {
                    assert(h[k - 1] == outcome_view(history@[k - 1]));
                    match &history[k - 1] {
                        StartOutcome::Started(f) => {
                            let last = last_failure_of(history, k - 1);
                            let ws = switch_warning_list(j - 1, last, system_device_id, true, os);
                            proof {
                                assert(outcomes_view(history@).take(k - 1) =~= h.take(k - 1));
                            }
                            runtime_of(vec![m, *f], true, ws)
                        },
                        StartOutcome::Failed(e) => {
                            if j < n {
                                CaptureStep::StartSystem(Some(cs[j].clone()))
                            } else {
                                let w = fallback_warning_message(system_device_id, "microphone-only capture", e.as_str(), os);
                                runtime_of(vec![m], false, one_warning(w))
                            }
                        },
                    }
                } else {
                    CaptureStep::GiveUp
                }
            }
        },
    }
}

/// A capture finishes mixed exactly when it opened two sources, the
/// microphone's first; otherwise it opened one.
pub proof fn law_mixed_iff_both_opened(
    mode: AudioCaptureMode,
    os: TargetOs,
    system_id: Option<Seq<char>>,
    candidates: Option<Seq<Seq<char>>>,
    h: Seq<OutcomeView>,
)
    ensures
        capture_step(mode, os, system_id, candidates, h) matches StepView::Finished(fs, mixed, _) ==> {
            &&& mixed <==> fs.len() == 2
            &&& !mixed ==> fs.len() == 1
            &&& mixed ==> mode == AudioCaptureMode::Mixed && h[0] == OutcomeView::Started(fs[0])
        },
{
}


// ---------------------------------------------------------------------------
// Checking before a session starts that its sources can be opened
// ---------------------------------------------------------------------------

/// What came of one preflight check.
#[derive(Debug, Clone, Copy, PartialEq, Eq, Structural)]
pub enum PreflightOutcome {
    /// The source can be opened.
    Passed,
    /// The source cannot be opened (the caller keeps the error).
    Failed,
    /// The system devices were listed; whether some Linux monitor is among
    /// them.
    Listed(bool),
}

/// The next preflight check.
#[derive(Debug, Clone)]
pub enum PreflightStep {
    /// Resolve the configured microphone.
    CheckMicrophone,
    /// List the system devices.
    ListSystemDevices,
    /// Check that system capture can open this device (none: the default).
    CheckSystem(Option<String>),
    /// Capture can start.
    Pass,
    /// Fail with the error of the last check.
    GiveUp,
}

pub enum PreflightView {
    CheckMicrophone,
    ListSystemDevices,
    CheckSystem(Option<Seq<char>>),
    Pass,
    GiveUp,
}

pub open spec fn preflight_view(s: PreflightStep) -> PreflightView {
    match s {
        PreflightStep::CheckMicrophone => PreflightView::CheckMicrophone,
        PreflightStep::ListSystemDevices => PreflightView::ListSystemDevices,
        PreflightStep::CheckSystem(d) => PreflightView::CheckSystem(
            match d {
                Some(x) => Some(x@),
                None => None,
            },
        ),
        PreflightStep::Pass => PreflightView::Pass,
        PreflightStep::GiveUp => PreflightView::GiveUp,
    }
}

/// The Linux system check on its own, after the outcomes `h`: the system
/// devices are listed, a monitor among them is enough, and without one the
/// default source must open.
pub open spec fn linux_system_preflight(h: Seq<PreflightOutcome>) -> PreflightView {
    if h.len() == 0 {
        PreflightView::ListSystemDevices
    } else {
        match h[0] {
            PreflightOutcome::Listed(true) => if h.len() == 1 {
                PreflightView::Pass
            } else {
                PreflightView::GiveUp
            },
            PreflightOutcome::Listed(false) => if h.len() == 1 {
                PreflightView::CheckSystem(None)
            } else if h.len() == 2 && h[1] == PreflightOutcome::Passed {
                PreflightView::Pass
            } else {
                PreflightView::GiveUp
            },
            _ => PreflightView::GiveUp,
        }
    }
}

/// The next preflight check for `mode` on `os` after the outcomes `h`.
///
/// The microphone alone must resolve. System capture on Linux passes the
/// Linux system check; elsewhere the selected system device must open, or
/// failing that the microphone must resolve. Mixed capture needs the
/// microphone, then on Linux the Linux system check; elsewhere the system
/// device is tried but its failure is let pass.
pub open spec fn preflight_step(
    mode: AudioCaptureMode,
    os: TargetOs,
    system_id: Option<Seq<char>>,
    h: Seq<PreflightOutcome>,
) -> PreflightView {
    let k = h.len();
    match mode {
        AudioCaptureMode::Mic => if k == 0 {
            PreflightView::CheckMicrophone
        } else if k == 1 && h[0] == PreflightOutcome::Passed {
            PreflightView::Pass
        } else {
            PreflightView::GiveUp
        },
        AudioCaptureMode::System => if os == TargetOs::Linux {
            linux_system_preflight(h)
        } else if k == 0 {
            PreflightView::CheckSystem(system_id)
        } else if h[0] == PreflightOutcome::Passed {
            if k == 1 {
                PreflightView::Pass
            } else {
                PreflightView::GiveUp
            }
        } else if k == 1 {
            PreflightView::CheckMicrophone
        } else if k == 2 && h[1] == PreflightOutcome::Passed {
            PreflightView::Pass
        } else {
            PreflightView::GiveUp
        },
        AudioCaptureMode::Mixed => if k == 0 {
            PreflightView::CheckMicrophone
        } else if h[0] != PreflightOutcome::Passed {
            PreflightView::GiveUp
        } else if os == TargetOs::Linux {
            linux_system_preflight(h.drop_first())
        } else if k == 1 {
            PreflightView::CheckSystem(system_id)
        } else if k == 2 {
            PreflightView::Pass
        } else {
            PreflightView::GiveUp
        },
    }
}

fn linux_system_preflight_step(history: &[PreflightOutcome], from: usize) -> (r: PreflightStep)
    requires
        from <= history@.len(),
    ensures
        preflight_view(r) == linux_system_preflight(history@.skip(from as int)),
{
    let ghost h = history@.skip(from as int);
    let k = history.len() - from;
    if k == 0 {
        return PreflightStep::ListSystemDevices;
    }
    assert(h[0] == history@[from as int]);
    match history[from] {
        PreflightOutcome::Listed(true) => {
            if k == 1 {
                PreflightStep::Pass
            } else {
                PreflightStep::GiveUp
            }
        },
        PreflightOutcome::Listed(false) => {
            if k == 1 {
                PreflightStep::CheckSystem(None)
            } else {
                assert(h[1] == history@[from + 1]);
                if k == 2 && history[from + 1] == PreflightOutcome::Passed {
                    PreflightStep::Pass
                } else {
                    PreflightStep::GiveUp
                }
            }
        },
        _ => PreflightStep::GiveUp,
    }
}

/// The next preflight check (see `preflight_step`); `history` holds the
/// outcomes of the checks made so far.
pub fn next_preflight_step(
    mode: AudioCaptureMode,
    os: TargetOs,
    system_device_id: Option<&str>,
    history: &[PreflightOutcome],
) -> (r: PreflightStep)
    ensures
        preflight_view(r) == preflight_step(mode, os, opt_view(system_device_id), history@),
{
    let k = history.len();
    match mode {
        AudioCaptureMode::Mic => {
            if k == 0 {
                PreflightStep::CheckMicrophone
            } else if k == 1 && history[0] == PreflightOutcome::Passed {
                PreflightStep::Pass
            } else {
                PreflightStep::GiveUp
            }
        },
        AudioCaptureMode::System => {
            if os == TargetOs::Linux {
                assert(history@.skip(0) =~= history@);
                linux_system_preflight_step(history, 0)
            } else if k == 0 {
                PreflightStep::CheckSystem(opt_string(system_device_id))
            } else if history[0] == PreflightOutcome::Passed {
                if k == 1 {
                    PreflightStep::Pass
                } else {
                    PreflightStep::GiveUp
                }
            } else if k == 1 {
                PreflightStep::CheckMicrophone
            } else if k == 2 && history[1] == PreflightOutcome::Passed {
                PreflightStep::Pass
            } else {
                PreflightStep::GiveUp
            }
        },
        AudioCaptureMode::Mixed => {
            if k == 0 {
                PreflightStep::CheckMicrophone
            } else if history[0] != PreflightOutcome::Passed {
                PreflightStep::GiveUp
            } else if os == TargetOs::Linux {
                assert(history@.skip(1) =~= history@.drop_first());
                linux_system_preflight_step(history, 1)
            } else if k == 1 {
                PreflightStep::CheckSystem(opt_string(system_device_id))
            } else if k == 2 {
                PreflightStep::Pass
            } else {
                PreflightStep::GiveUp
            }
        },
    }
}

} // verus!
