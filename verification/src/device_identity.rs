//! Stable audio device identifiers: `namespace:device` ids, versioned
//! payloads and microphone fingerprints that survive device re-enumeration.
use vstd::prelude::*;
use crate::numeric::{
    decimal, parse_unsigned, push_decimal, parse_u32, parse_u16, lemma_decimal_props,
    lemma_parse_decimal,
};
use crate::text::{
    lemma_split_once_concat, lemma_normalized_label_idempotent, chars_of, normalize_chars, normalized_label, pair_view, split_once, split_once_char,
    string_from_chars, extend_str, str_eq,
};
use crate::types::AudioBackendKind;

verus! {

/// What a capture device reports about itself; two snapshots of one device
/// agree on these fields across restarts.
#[derive(Debug, Clone)]
pub struct InputFingerprint {
    pub normalized_label: String,
    pub default_sample_rate: u32,
    pub default_channels: u16,
    pub default_sample_format: String,
    pub capability_signature: String,
}

/// The namespace of ids minted by a backend.
pub open spec fn namespace_of(backend: AudioBackendKind) -> Seq<char> {
    match backend {
        AudioBackendKind::Cpal => seq!['c', 'p', 'a', 'l'],
        AudioBackendKind::WindowsSystem => seq![
            'w', 'i', 'n', 'd', 'o', 'w', 's', '-', 's', 'y', 's', 't', 'e', 'm',
        ],
        AudioBackendKind::MacosSystem => seq![
            'm', 'a', 'c', 'o', 's', '-', 's', 'y', 's', 't', 'e', 'm',
        ],
        AudioBackendKind::LinuxSystem => seq![
            'l', 'i', 'n', 'u', 'x', '-', 's', 'y', 's', 't', 'e', 'm',
        ],
    }
}

pub fn backend_namespace(backend: AudioBackendKind) -> (r: &'static str)
    ensures
        r@ == namespace_of(backend),
{
    match backend {
        AudioBackendKind::Cpal => {
            let s = "cpal";
            proof {
                reveal_strlit("cpal");
            }
            s
        },
        AudioBackendKind::WindowsSystem => {
            let s = "windows-system";
            proof {
                reveal_strlit("windows-system");
            }
            s
        },
        AudioBackendKind::MacosSystem => {
            let s = "macos-system";
            proof {
                reveal_strlit("macos-system");
            }
            s
        },
        AudioBackendKind::LinuxSystem => {
            let s = "linux-system";
            proof {
                reveal_strlit("linux-system");
            }
            s
        },
    }
}

/// Trims, lower-cases ASCII letters and collapses each run of whitespace
/// into one space.
pub fn normalize_label(value: &str) -> (r: String)
    ensures
        r@ == normalized_label(value@),
{
    let cs = chars_of(value);
    let out = normalize_chars(&cs);
    string_from_chars(&out)
}

/// `label|rate|channels|format|signature`.
pub open spec fn payload_fields(
    label: Seq<char>,
    rate: nat,
    channels: nat,
    format: Seq<char>,
    signature: Seq<char>,
) -> Seq<char> {
    label + seq!['|'] + decimal(rate) + seq!['|'] + decimal(channels) + seq!['|'] + format
        + seq!['|'] + signature
}

pub open spec fn fingerprint_payload_of(fp: InputFingerprint) -> Seq<char> {
    payload_fields(
        fp.normalized_label@,
        fp.default_sample_rate as nat,
        fp.default_channels as nat,
        fp.default_sample_format@,
        fp.capability_signature@,
    )
}

pub fn fingerprint_payload(snapshot: &InputFingerprint) -> (r: String)
    ensures
        r@ == fingerprint_payload_of(*snapshot),
{
    let mut out: Vec<char> = Vec::new();
    extend_str(&mut out, snapshot.normalized_label.as_str());
    out.push('|');
    push_decimal(&mut out, snapshot.default_sample_rate as u64);
    out.push('|');
    push_decimal(&mut out, snapshot.default_channels as u64);
    out.push('|');
    extend_str(&mut out, snapshot.default_sample_format.as_str());
    out.push('|');
    extend_str(&mut out, snapshot.capability_signature.as_str());
    string_from_chars(&out)
}

/// `namespace:device_id`.
pub open spec fn namespaced(namespace: Seq<char>, device_id: Seq<char>) -> Seq<char> {
    namespace + seq![':'] + device_id
}

pub fn namespaced_id(namespace: &str, device_id: &str) -> (r: String)
    ensures
        r@ == namespaced(namespace@, device_id@),
{
    let mut out: Vec<char> = Vec::new();
    extend_str(&mut out, namespace);
    out.push(':');
    extend_str(&mut out, device_id);
    string_from_chars(&out)
}

/// `namespace:version:payload`.
pub fn versioned_id(namespace: &str, version: &str, payload: &str) -> (r: String)
    ensures
        r@ == namespaced(namespace@, version@ + seq![':'] + payload@),
{
    let mut inner: Vec<char> = Vec::new();
    extend_str(&mut inner, version);
    inner.push(':');
    extend_str(&mut inner, payload);
    let inner_s = string_from_chars(&inner);
    namespaced_id(namespace, inner_s.as_str())
}

/// The two sides of the first `:`, when there is one and neither side is
/// empty.
pub open spec fn split_nonempty(value: Seq<char>) -> Option<(Seq<char>, Seq<char>)> {
    match split_once(value, ':') {
        Some((a, b)) => if a.len() > 0 && b.len() > 0 {
            Some((a, b))
        } else {
            None
        },
        None => None,
    }
}

fn split_colon_nonempty(value: &str) -> (r: Option<(&str, &str)>)
    ensures
        pair_view(r) == split_nonempty(value@),
{
    match split_once_char(value, ':') {
        Some((a, b)) => {
            if a.unicode_len() == 0 || b.unicode_len() == 0 {
                None
            } else {
                Some((a, b))
            }
        },
        None => None,
    }
}

/// Splits `version:payload`.
pub fn split_versioned_payload(value: &str) -> (r: Option<(&str, &str)>)
    ensures
        pair_view(r) == split_nonempty(value@),
{
    split_colon_nonempty(value)
}

/// Splits `namespace:device_id`.
pub fn split_namespaced_id(id: &str) -> (r: Option<(&str, &str)>)
    ensures
        pair_view(r) == split_nonempty(id@),
{
    split_colon_nonempty(id)
}

pub open spec fn v2_tag() -> Seq<char> {
    seq!['v', '2']
}

/// The payload of a `v2:payload` value.
pub open spec fn v2_payload(value: Seq<char>) -> Option<Seq<char>> {
    match split_nonempty(value) {
        Some((version, payload)) => if version == v2_tag() {
            Some(payload)
        } else {
            None
        },
        None => None,
    }
}

pub open spec fn str_opt_view(r: Option<&str>) -> Option<Seq<char>> {
    match r {
        Some(s) => Some(s@),
        None => None,
    }
}

pub fn parse_v2_fingerprint_payload(value: &str) -> (r: Option<&str>)
    ensures
        str_opt_view(r) == v2_payload(value@),
{
    match split_versioned_payload(value) {
        Some((version, payload)) => {
            proof {
                reveal_strlit("v2");
                assert("v2"@ =~= v2_tag());
            }
            if str_eq(version, "v2") {
                Some(payload)
            } else {
                None
            }
        },
        None => None,
    }
}

/// The fields of a fingerprint as a tuple of plain values.
pub type FingerprintFields = (Seq<char>, u32, u16, Seq<char>, Seq<char>);

pub open spec fn fields_of(fp: InputFingerprint) -> FingerprintFields {
    (
        fp.normalized_label@,
        fp.default_sample_rate,
        fp.default_channels,
        fp.default_sample_format@,
        fp.capability_signature@,
    )
}

/// A `v2:label|rate|channels|format|signature` value: the label is
/// normalised and must not end up empty, rate and channels must parse, the
/// signature is everything after the fourth `|`.
pub open spec fn parsed_fingerprint(value: Seq<char>) -> Option<FingerprintFields> {
    match v2_payload(value) {
        None => None,
        Some(p) => match split_once(p, '|') {
            None => None,
            Some((f1, r1)) => match split_once(r1, '|') {
                None => None,
                Some((f2, r2)) => match split_once(r2, '|') {
                    None => None,
                    Some((f3, r3)) => match split_once(r3, '|') {
                        None => None,
                        Some((f4, f5)) => {
                            let label = normalized_label(f1);
                            match (
                                parse_unsigned(f2, u32::MAX as nat),
                                parse_unsigned(f3, u16::MAX as nat),
                            ) {
                                (Some(rate), Some(channels)) => if label.len() > 0 {
                                    Some((label, rate as u32, channels as u16, f4, f5))
                                } else {
                                    None
                                },
                                _ => None,
                            }
                        },
                    },
                },
            },
        },
    }
}

pub open spec fn fingerprint_opt_view(r: Option<InputFingerprint>) -> Option<FingerprintFields> {
    match r {
        Some(fp) => Some(fields_of(fp)),
        None => None,
    }
}

pub fn parse_v2_fingerprint(value: &str) -> (r: Option<InputFingerprint>)
    ensures
        fingerprint_opt_view(r) == parsed_fingerprint(value@),
{
    let payload = match parse_v2_fingerprint_payload(value) {
        Some(p) => p,
        None => return None,
    };
    let (f1, r1) = match split_once_char(payload, '|') {
        Some(x) => x,
        None => return None,
    };
    let (f2, r2) = match split_once_char(r1, '|') {
        Some(x) => x,
        None => return None,
    };
    let (f3, r3) = match split_once_char(r2, '|') {
        Some(x) => x,
        None => return None,
    };
    let (f4, f5) = match split_once_char(r3, '|') {
        Some(x) => x,
        None => return None,
    };
    let normalized_label = normalize_label(f1);
    let default_sample_rate = match parse_u32(f2) {
        Some(v) => v,
        None => return None,
    };
    let default_channels = match parse_u16(f3) {
        Some(v) => v,
        None => return None,
    };
    if normalized_label.as_str().unicode_len() == 0 {
        return None;
    }
    Some(
        InputFingerprint {
            normalized_label,
            default_sample_rate,
            default_channels,
            default_sample_format: f4.to_string(),
            capability_signature: f5.to_string(),
        },
    )
}

/// How well a candidate device matches a saved fingerprint, out of 100:
/// label 60, sample rate 15, channels 10, sample format 5, capabilities 10.
pub open spec fn rematch_score(saved: InputFingerprint, candidate: InputFingerprint) -> nat {
    (if saved.normalized_label@ == candidate.normalized_label@ {
        60nat
    } else {
        0nat
    }) + (if saved.default_sample_rate == candidate.default_sample_rate {
        15nat
    } else {
        0nat
    }) + (if saved.default_channels == candidate.default_channels {
        10nat
    } else {
        0nat
    }) + (if saved.default_sample_format@ == candidate.default_sample_format@ {
        5nat
    } else {
        0nat
    }) + (if saved.capability_signature@ == candidate.capability_signature@ {
        10nat
    } else {
        0nat
    })
}

pub fn microphone_rematch_score(saved: &InputFingerprint, candidate: &InputFingerprint) -> (r:
    u32)
    ensures
        r == rematch_score(*saved, *candidate),
{
    let mut score: u32 = 0;
    if saved.normalized_label == candidate.normalized_label {
        score += 60;
    }
    if saved.default_sample_rate == candidate.default_sample_rate {
        score += 15;
    }
    if saved.default_channels == candidate.default_channels {
        score += 10;
    }
    if saved.default_sample_format == candidate.default_sample_format {
        score += 5;
    }
    if saved.capability_signature == candidate.capability_signature {
        score += 10;
    }
    score
}

// ---------------------------------------------------------------------------
// Laws
// ---------------------------------------------------------------------------
/// Splitting `namespace:device_id` gives back both parts, when the namespace
/// is non-empty and holds no `:` and the device id is non-empty.
pub proof fn law_split_namespaced_round_trip(namespace: Seq<char>, device_id: Seq<char>)
    requires
        namespace.len() > 0,
        device_id.len() > 0,
        forall|k: int| 0 <= k < namespace.len() ==> #[trigger] namespace[k] != ':',
    ensures
        split_nonempty(namespaced(namespace, device_id)) == Some((namespace, device_id)),
{
    lemma_split_once_concat(namespace, device_id, ':');
}

/// A `v2:payload` value yields its payload back.
pub proof fn law_v2_payload_round_trip(payload: Seq<char>)
    requires
        payload.len() > 0,
    ensures
        v2_payload(v2_tag() + seq![':'] + payload) == Some(payload),
{
    assert forall|k: int| 0 <= k < v2_tag().len() implies #[trigger] v2_tag()[k] != ':' by {}
    lemma_split_once_concat(v2_tag(), payload, ':');
}

proof fn lemma_decimal_no_bar(n: nat)
    ensures
        forall|k: int| 0 <= k < decimal(n).len() ==> #[trigger] decimal(n)[k] != '|',
{
    lemma_decimal_props(n);
    assert forall|k: int| 0 <= k < decimal(n).len() implies #[trigger] decimal(n)[k] != '|' by {
        assert(crate::numeric::is_digit(decimal(n)[k]));
    }
}

/// A microphone fingerprint written as a `v2` payload parses back to the
/// same fields, when its label is the normalised form of some device name
/// and neither the label nor the sample format holds a `|`.
pub proof fn law_fingerprint_round_trip(fp: InputFingerprint, device_name: Seq<char>)
    requires
        fp.normalized_label@ == normalized_label(device_name),
        fp.normalized_label@.len() > 0,
        forall|k: int|
            0 <= k < fp.normalized_label@.len() ==> #[trigger] fp.normalized_label@[k] != '|',
        forall|k: int|
            0 <= k < fp.default_sample_format@.len() ==> #[trigger] fp.default_sample_format@[k]
                != '|',
    ensures
        parsed_fingerprint(v2_tag() + seq![':'] + fingerprint_payload_of(fp)) == Some(
            fields_of(fp),
        ),
{
    let label = fp.normalized_label@;
    let d1 = decimal(fp.default_sample_rate as nat);
    let d2 = decimal(fp.default_channels as nat);
    let f = fp.default_sample_format@;
    let g = fp.capability_signature@;
    let payload = fingerprint_payload_of(fp);
    let r3 = f + seq!['|'] + g;
    let r2 = d2 + seq!['|'] + r3;
    let r1 = d1 + seq!['|'] + r2;
    assert(payload == label + seq!['|'] + r1) by {
        assert(payload =~= label + seq!['|'] + r1);
    }
    assert(payload.len() > 0);
    law_v2_payload_round_trip(payload);
    lemma_decimal_no_bar(fp.default_sample_rate as nat);
    lemma_decimal_no_bar(fp.default_channels as nat);
    lemma_split_once_concat(label, r1, '|');
    lemma_split_once_concat(d1, r2, '|');
    lemma_split_once_concat(d2, r3, '|');
    lemma_split_once_concat(f, g, '|');
    lemma_parse_decimal(fp.default_sample_rate as nat, u32::MAX as nat);
    lemma_parse_decimal(fp.default_channels as nat, u16::MAX as nat);
    assert(normalized_label(label) == label) by {
        lemma_normalized_label_idempotent(device_name);
    }
    lemma_fingerprint_fields(
        v2_tag() + seq![':'] + payload,
        payload,
        label,
        d1,
        r1,
        d2,
        r2,
        r3,
        f,
        g,
        fp,
    );
}

proof fn lemma_fingerprint_fields(
    value: Seq<char>,
    payload: Seq<char>,
    label: Seq<char>,
    d1: Seq<char>,
    r1: Seq<char>,
    d2: Seq<char>,
    r2: Seq<char>,
    r3: Seq<char>,
    f: Seq<char>,
    g: Seq<char>,
    fp: InputFingerprint,
)
    requires
        v2_payload(value) == Some(payload),
        split_once(payload, '|') == Some((label, r1)),
        split_once(r1, '|') == Some((d1, r2)),
        split_once(r2, '|') == Some((d2, r3)),
        split_once(r3, '|') == Some((f, g)),
        normalized_label(label) == label,
        label.len() > 0,
        label == fp.normalized_label@,
        f == fp.default_sample_format@,
        g == fp.capability_signature@,
        parse_unsigned(d1, u32::MAX as nat) == Some(fp.default_sample_rate as nat),
        parse_unsigned(d2, u16::MAX as nat) == Some(fp.default_channels as nat),
    ensures
        parsed_fingerprint(value) == Some(fields_of(fp)),
{
}

/// A device matches its own fingerprint with the full score of 100, the
/// score never exceeds 100, and it does not depend on which side is saved.
pub proof fn law_rematch_score(a: InputFingerprint, b: InputFingerprint)
    ensures
        rematch_score(a, a) == 100,
        rematch_score(a, b) <= 100,
        rematch_score(a, b) == rematch_score(b, a),
{
}

} // verus!
