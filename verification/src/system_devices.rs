//! System-audio devices of each platform: the ids they are listed under,
//! how a saved id selects one, and the checks on what the platform
//! reports (PulseAudio monitor sources on Linux, displays for
//! ScreenCaptureKit on macOS, WASAPI render devices on Windows).
//!
//! Talking to the platform's audio services is left to the caller.
use vstd::prelude::*;
use crate::device_identity::{
    namespaced, namespaced_id, split_namespaced_id, split_nonempty, split_versioned_payload, versioned_id,
};
use crate::numeric::{decimal, parse_u32, parse_unsigned, push_decimal};
use crate::text::{
    chars_of, extend_str, has_prefix, lemma_lex_total, lemma_lex_trans, lex_le, starts_with, str_eq, str_le,
    string_from_chars,
};
use crate::types::{AudioBackendKind, AudioSourceDevice, PhysicalAudioSource};

verus! {

/// The Linux system-audio backend (PulseAudio monitor sources).
pub struct LinuxSystemBackend;

/// The macOS system-audio backend (ScreenCaptureKit, one source per display).
pub struct MacosSystemBackend;

/// The Windows system-audio backend (WASAPI loopback of render devices).
pub struct WindowsSystemBackend;

pub open spec fn opt_view(s: Option<&str>) -> Option<Seq<char>> {
    match s {
        Some(x) => Some(x@),
        None => None,
    }
}

/// A saved id that asks for a particular device: present and not `default`.
pub open spec fn requested(device_id: Option<Seq<char>>) -> Option<Seq<char>> {
    match device_id {
        Some(id) => if id == "default"@ {
            None
        } else {
            Some(id)
        },
        None => None,
    }
}

// ---------------------------------------------------------------------------
// Linux
// ---------------------------------------------------------------------------

/// A PulseAudio monitor source.
#[derive(Debug, Clone)]
pub struct MonitorSource {
    pub name: String,
    pub description: String,
    pub rate: u32,
    pub channels: u8,
    pub is_default: bool,
}

/// `linux-system:v3:<source name>`.
pub open spec fn monitor_id(name: Seq<char>) -> Seq<char> {
    namespaced("linux-system"@, "v3"@ + seq![':'] + name)
}

pub fn linux_monitor_device_id(source_name: &str) -> (r: String)
    ensures
        r@ == monitor_id(source_name@),
{
    versioned_id("linux-system", "v3", source_name)
}

/// The source name in a `linux-system:v3:<name>` id.
pub open spec fn monitor_name_of(id: Seq<char>) -> Option<Seq<char>> {
    match split_nonempty(id) {
        Some((ns, payload)) => if ns == "linux-system"@ {
            match split_nonempty(payload) {
                Some((version, value)) => if version == "v3"@ && value.len() > 0 {
                    Some(value)
                } else {
                    None
                },
                None => None,
            }
        } else {
            None
        },
        None => None,
    }
}

pub fn parse_linux_monitor_device_id(device_id: &str) -> (r: Option<&str>)
    ensures
        opt_view(r) == monitor_name_of(device_id@),
{
    let (namespace, payload) = match split_namespaced_id(device_id) {
        Some(x) => x,
        None => {
            return None;
        },
    };
    if !str_eq(namespace, "linux-system") {
        return None;
    }
    let (version, value) = match split_versioned_payload(payload) {
        Some(x) => x,
        None => {
            return None;
        },
    };
    if str_eq(version, "v3") && value.unicode_len() != 0 {
        Some(value)
    } else {
        None
    }
}

/// The monitor a saved Linux selection names: the source name of a `v3`
/// id, the rest of another `linux-system:` id, or the selection itself.
pub open spec fn monitor_selection(id: Seq<char>) -> Seq<char> {
    match monitor_name_of(id) {
        Some(name) => name,
        None => match split_nonempty(id) {
            Some((ns, raw)) => if ns == "linux-system"@ {
                raw
            } else {
                id
            },
            None => id,
        },
    }
}

pub fn normalize_linux_system_selection(device_id: &str) -> (r: String)
    ensures
        r@ == monitor_selection(device_id@),
{
    proof {
        broadcast use vstd::string::group_string_axioms;

    }
    match parse_linux_monitor_device_id(device_id) {
        Some(name) => {
            return name.to_string();
        },
        None => {},
    }
    match split_namespaced_id(device_id) {
        Some((namespace, raw_value)) => {
            if str_eq(namespace, "linux-system") {
                raw_value.to_string()
            } else {
                device_id.to_string()
            }
        },
        None => device_id.to_string(),
    }
}

/// A monitor source as a system-output device.
pub fn monitor_device(source: MonitorSource) -> (r: AudioSourceDevice)
    ensures
        r.id@ == monitor_id(source.name@),
        r.label == source.description,
        r.source == PhysicalAudioSource::SystemOutput,
        r.backend == AudioBackendKind::LinuxSystem,
        r.is_default == source.is_default,
        r.usable,
{
    AudioSourceDevice {
        id: linux_monitor_device_id(source.name.as_str()),
        label: source.description,
        source: PhysicalAudioSource::SystemOutput,
        backend: AudioBackendKind::LinuxSystem,
        is_default: source.is_default,
        usable: true,
    }
}

/// A PulseAudio source as listed: only named monitor sources with a valid
/// sample spec are kept; the description defaults to the name; it is the
/// default when named as the default monitor.
pub fn monitor_source_from_info(
    name: Option<String>,
    is_monitor: bool,
    spec_valid: bool,
    description: Option<String>,
    rate: u32,
    channels: u8,
    default_monitor: Option<&str>,
) -> (r: Option<MonitorSource>)
    ensures
        (name is None || !is_monitor || !spec_valid) ==> r is None,
        (name matches Some(n) && is_monitor && spec_valid) ==> (r matches Some(s) && s.name == name->0 && s.rate
            == rate && s.channels == channels && s.description == match description {
            Some(d) => d,
            None => name->0,
        } && s.is_default == (default_monitor matches Some(dm) && dm@ == name->0@)),
{
    let n = match name {
        Some(n) => n,
        None => {
            return None;
        },
    };
    if !is_monitor || !spec_valid {
        return None;
    }
    let description = match description {
        Some(d) => d,
        None => n.clone(),
    };
    let is_default = match default_monitor {
        Some(dm) => str_eq(dm, n.as_str()),
        None => false,
    };
    Some(MonitorSource { name: n, description, rate, channels, is_default })
}

pub open spec fn by_description(s: Seq<MonitorSource>) -> bool {
    forall|i: int, j: int| 0 <= i < j < s.len() ==> lex_le(#[trigger] s[i].description@, #[trigger] s[j].description@)
}

/// Orders monitor sources by description, keeping the order of equal ones.
pub fn sort_monitor_sources(v: Vec<MonitorSource>) -> (r: Vec<MonitorSource>)
    ensures
        by_description(r@),
        r@.to_multiset() == v@.to_multiset(),
{
    let ghost v0 = v@;
    let mut rest = v;
    let mut out: Vec<MonitorSource> = Vec::new();
    let n = rest.len();
    let mut k: usize = 0;
    assert(v0.take(0) =~= out@);
    assert(v0.skip(0) =~= rest@);
    while k < n
        invariant
            n == v0.len(),
            k <= n,
            rest@ == v0.skip(k as int),
            by_description(out@),
            out@.to_multiset() == v0.take(k as int).to_multiset(),
        decreases n - k,
    {
        let x = rest.remove(0);
        proof {
            assert(x == v0[k as int]);
            assert(rest@ =~= v0.skip(k + 1));
        }
        let mut pos: usize = 0;
        while pos < out.len() && str_le(out[pos].description.as_str(), x.description.as_str())
            invariant
                pos <= out@.len(),
                forall|j: int| 0 <= j < pos ==> lex_le(#[trigger] out@[j].description@, x.description@),
            decreases out@.len() - pos,
        {
            pos += 1;
        }
        let ghost before = out@;
        proof {
            if pos < before.len() {
                lemma_lex_total(x.description@, before[pos as int].description@);
                assert forall|j: int| pos <= j < before.len() implies lex_le(x.description@, #[trigger] before[j].description@) by {
                    if j > pos {
                        lemma_lex_trans(x.description@, before[pos as int].description@, before[j].description@);
                    }
                }
            }
        }
        out.insert(pos, x);
        proof {
            vstd::seq_lib::to_multiset_insert(before, pos as int, v0[k as int]);
            assert(v0.take(k + 1) =~= v0.take(k as int).push(v0[k as int]));
            vstd::seq_lib::to_multiset_build(v0.take(k as int), v0[k as int]);
            assert forall|i: int, j: int| 0 <= i < j < out@.len() implies lex_le(#[trigger] out@[i].description@, #[trigger] out@[j].description@) by {
                if j < pos {
                    assert(out@[i] == before[i] && out@[j] == before[j]);
                } else if j == pos {
                    assert(out@[i] == before[i]);
                } else if i < pos {
                    assert(out@[i] == before[i] && out@[j] == before[j - 1]);
                    lemma_lex_trans(before[i].description@, x.description@, before[j - 1].description@);
                } else if i == pos {
                    assert(out@[j] == before[j - 1]);
                } else {
                    assert(out@[i] == before[i - 1] && out@[j] == before[j - 1]);
                }
            }
        }
        k += 1;
    }
    assert(v0.take(n as int) =~= v0);
    out
}

pub open spec fn no_monitor_text() -> Seq<char> {
    "No Linux system monitor source found. Ensure PulseAudio or PipeWire Pulse exposes a monitor source."@
}

/// A source named or described as `want`.
pub open spec fn is_wanted(s: MonitorSource, want: Seq<char>) -> bool {
    s.name@ == want || s.description@ == want
}

/// The first source named or described as `want`.
pub open spec fn first_wanted(sources: Seq<MonitorSource>, want: Seq<char>) -> Option<int> {
    if exists|i: int| 0 <= i < sources.len() && is_wanted(#[trigger] sources[i], want) {
        Some(choose|i: int| 0 <= i < sources.len() && is_wanted(sources[i], want) && forall|j: int| 0 <= j < i ==> !is_wanted(#[trigger] sources[j], want))
    } else {
        None
    }
}

/// The first default source.
pub open spec fn first_default(sources: Seq<MonitorSource>) -> Option<int> {
    if exists|i: int| 0 <= i < sources.len() && #[trigger] sources[i].is_default {
        Some(choose|i: int| 0 <= i < sources.len() && sources[i].is_default && forall|j: int| 0 <= j < i ==> !(#[trigger] sources[j].is_default))
    } else {
        None
    }
}

/// The monitor a saved id selects among the sources: the first named or
/// described as the selection (see `monitor_selection`), or an error; with
/// no id (or `default`), the first default monitor, else the first.
pub open spec fn chosen_monitor(device_id: Option<Seq<char>>, sources: Seq<MonitorSource>) -> Result<int, Seq<char>> {
    if sources.len() == 0 {
        Err(no_monitor_text())
    } else {
        match requested(device_id) {
            Some(id) => match first_wanted(sources, monitor_selection(id)) {
                Some(i) => Ok(i),
                None => Err("Linux system audio device not found or not a monitor source: "@ + id),
            },
            None => match first_default(sources) {
                Some(i) => Ok(i),
                None => Ok(0),
            },
        }
    }
}

pub open spec fn result_view(r: Result<usize, String>) -> Result<int, Seq<char>> {
    match r {
        Ok(i) => Ok(i as int),
        Err(e) => Err(e@),
    }
}

fn find_wanted(sources: &[MonitorSource], want: &str) -> (r: Option<usize>)
    ensures
        match r {
            Some(i) => first_wanted(sources@, want@) == Some(i as int) && i < sources@.len(),
            None => first_wanted(sources@, want@) is None,
        },
{
    let ghost ss = sources@;
    let n = sources.len();
    let mut i: usize = 0;
    while i < n
        invariant
            n == ss.len(),
            ss == sources@,
            i <= n,
            forall|j: int| 0 <= j < i ==> !is_wanted(#[trigger] ss[j], want@),
        decreases n - i,
    {
        if str_eq(sources[i].name.as_str(), want) || str_eq(sources[i].description.as_str(), want) {
            proof {
                let w = choose|k: int| 0 <= k < ss.len() && is_wanted(ss[k], want@) && forall|j: int| 0 <= j < k ==> !is_wanted(#[trigger] ss[j], want@);
                assert(is_wanted(ss[i as int], want@));
                assert(0 <= w < ss.len() && is_wanted(ss[w], want@) && forall|j: int| 0 <= j < w ==> !is_wanted(#[trigger] ss[j], want@));
                if w < i {
                    assert(!is_wanted(ss[w], want@));
                }
                if i < w {
                    assert(!is_wanted(ss[i as int], want@));
                }
            }
            return Some(i);
        }
        i += 1;
    }
    None
}

fn find_default(sources: &[MonitorSource]) -> (r: Option<usize>)
    ensures
        match r {
            Some(i) => first_default(sources@) == Some(i as int) && i < sources@.len(),
            None => first_default(sources@) is None,
        },
{
    let ghost ss = sources@;
    let n = sources.len();
    let mut i: usize = 0;
    while i < n
        invariant
            n == ss.len(),
            ss == sources@,
            i <= n,
            forall|j: int| 0 <= j < i ==> !(#[trigger] ss[j].is_default),
        decreases n - i,
    {
        if sources[i].is_default {
            proof {
                let w = choose|k: int| 0 <= k < ss.len() && ss[k].is_default && forall|j: int| 0 <= j < k ==> !(#[trigger] ss[j].is_default);
                assert(ss[i as int].is_default);
                assert(0 <= w < ss.len() && ss[w].is_default && forall|j: int| 0 <= j < w ==> !(#[trigger] ss[j].is_default));
                if w < i {
                    assert(!ss[w].is_default);
                }
                if i < w {
                    assert(!ss[i as int].is_default);
                }
            }
            return Some(i);
        }
        i += 1;
    }
    None
}

pub fn resolve_monitor_source(device_id: Option<&str>, sources: &[MonitorSource]) -> (r: Result<usize, String>)
    ensures
        result_view(r) == chosen_monitor(opt_view(device_id), sources@),
        r matches Ok(i) ==> i < sources@.len(),
{
    proof {
        reveal_strlit("default");
    }
    if sources.len() == 0 {
        return Err(
            String::from_str(
                "No Linux system monitor source found. Ensure PulseAudio or PipeWire Pulse exposes a monitor source.",
            ),
        );
    }
    let chosen = match device_id {
        Some(id) => if str_eq(id, "default") {
            None
        } else {
            Some(id)
        },
        None => None,
    };
    match chosen {
        Some(id) => {
            let want = normalize_linux_system_selection(id);
            match find_wanted(sources, want.as_str()) {
                Some(i) => Ok(i),
                None => {
                    let mut cs: Vec<char> = Vec::new();
                    extend_str(&mut cs, "Linux system audio device not found or not a monitor source: ");
                    extend_str(&mut cs, id);
                    Err(string_from_chars(&cs))
                },
            }
        },
        None => match find_default(sources) {
            Some(i) => Ok(i),
            None => Ok(0),
        },
    }
}

/// The bytes read per chunk from a monitor: 20 ms of 16-bit frames, at
/// least one frame.
pub open spec fn record_buffer_bytes(rate: u32, channels: u8) -> int {
    let frames = (rate as int * 20) / 1000;
    (channels as int * 2) * if frames < 1 {
        1
    } else {
        frames
    }
}

pub fn record_buffer_len(rate: u32, channels: u8) -> (r: u64)
    ensures
        r == record_buffer_bytes(rate, channels),
{
    let frame_bytes: u64 = channels as u64 * 2;
    let frames: u64 = (rate as u64 * 20) / 1000;
    let frames_per_chunk: u64 = if frames < 1 {
        1
    } else {
        frames
    };
    assert(frames_per_chunk <= 85899346);
    assert(frame_bytes * frames_per_chunk <= 510 * 85899346) by (nonlinear_arith)
        requires
            frame_bytes <= 510,
            frames_per_chunk <= 85899346,
    ;
    frame_bytes * frames_per_chunk
}

// ---------------------------------------------------------------------------
// macOS
// ---------------------------------------------------------------------------

/// An active display.
#[derive(Debug, Clone, Copy)]
pub struct DisplayInfo {
    pub id: u32,
    pub is_main: bool,
}

/// `macos-system:display:<id>`.
pub open spec fn display_id_text(id: u32) -> Seq<char> {
    namespaced("macos-system"@, "display:"@ + decimal(id as nat))
}

pub fn encode_display_id(display_id: u32) -> (r: String)
    ensures
        r@ == display_id_text(display_id),
{
    let mut cs: Vec<char> = Vec::new();
    extend_str(&mut cs, "display:");
    push_decimal(&mut cs, display_id as u64);
    let raw = string_from_chars(&cs);
    namespaced_id("macos-system", raw.as_str())
}

/// A saved macOS id without its `macos-system:` namespace; none in
/// another backend's namespace.
pub open spec fn macos_raw_id(id: Seq<char>) -> Option<Seq<char>> {
    match split_nonempty(id) {
        Some((ns, raw)) => if ns == "macos-system"@ {
            Some(raw)
        } else {
            None
        },
        None => Some(id),
    }
}

pub fn normalize_macos_system_device_id(device_id: &str) -> (r: Option<String>)
    ensures
        match macos_raw_id(device_id@) {
            Some(raw) => r matches Some(s) && s@ == raw,
            None => r is None,
        },
{
    proof {
        broadcast use vstd::string::group_string_axioms;

    }
    match split_namespaced_id(device_id) {
        Some((namespace, raw)) => {
            if str_eq(namespace, "macos-system") {
                Some(raw.to_string())
            } else {
                None
            }
        },
        None => Some(device_id.to_string()),
    }
}

/// The display number in a saved macOS id, or why it is not one.
pub open spec fn display_number(value: Seq<char>) -> Result<u32, Seq<char>> {
    match macos_raw_id(value) {
        None => Err("Invalid macOS system audio device id `"@ + value
            + "`; device id namespace does not match macOS system audio"@),
        Some(raw) => if !has_prefix(raw, "display:"@) {
            Err("Invalid macOS system audio device id `"@ + value + "`; expected `macos-system:display:<cg_display_id>`"@)
        } else {
            match parse_unsigned(raw.skip(8), u32::MAX as nat) {
                Some(n) => Ok(n as u32),
                None => Err("Invalid macOS system audio display id `"@ + value + "`; numeric CGDisplayID expected"@),
            }
        },
    }
}

pub fn decode_display_id(value: &str) -> (r: Result<u32, String>)
    ensures
        match display_number(value@) {
            Ok(n) => r == Ok::<u32, String>(n),
            Err(m) => r matches Err(e) && e@ == m,
        },
{
    proof {
        reveal_strlit("display:");
    }
    let raw = match normalize_macos_system_device_id(value) {
        Some(raw) => raw,
        None => {
            let mut cs: Vec<char> = Vec::new();
            extend_str(&mut cs, "Invalid macOS system audio device id `");
            extend_str(&mut cs, value);
            extend_str(&mut cs, "`; device id namespace does not match macOS system audio");
            return Err(string_from_chars(&cs));
        },
    };
    let rc = chars_of(raw.as_str());
    let prefix = chars_of("display:");
    if !starts_with(&rc, &prefix) {
        let mut cs: Vec<char> = Vec::new();
        extend_str(&mut cs, "Invalid macOS system audio device id `");
        extend_str(&mut cs, value);
        extend_str(&mut cs, "`; expected `macos-system:display:<cg_display_id>`");
        return Err(string_from_chars(&cs));
    }
    let n = raw.as_str().unicode_len();
    let digits = raw.as_str().substring_char(8, n);
    match parse_u32(digits) {
        Some(v) => Ok(v),
        None => {
            let mut cs: Vec<char> = Vec::new();
            extend_str(&mut cs, "Invalid macOS system audio display id `");
            extend_str(&mut cs, value);
            extend_str(&mut cs, "`; numeric CGDisplayID expected");
            Err(string_from_chars(&cs))
        },
    }
}

fn find_display(displays: &[DisplayInfo], id: u32) -> (r: Option<usize>)
    ensures
        match r {
            Some(i) => i < displays@.len() && displays@[i as int].id == id,
            None => forall|j: int| 0 <= j < displays@.len() ==> #[trigger] displays@[j].id != id,
        },
{
    let mut i: usize = 0;
    while i < displays.len()
        invariant
            i <= displays@.len(),
            forall|j: int| 0 <= j < i ==> #[trigger] displays@[j].id != id,
        decreases displays@.len() - i,
    {
        if displays[i].id == id {
            return Some(i);
        }
        i += 1;
    }
    None
}

fn find_main_display(displays: &[DisplayInfo]) -> (r: Option<usize>)
    ensures
        match r {
            Some(i) => i < displays@.len() && displays@[i as int].is_main,
            None => forall|j: int| 0 <= j < displays@.len() ==> !(#[trigger] displays@[j].is_main),
        },
{
    let mut i: usize = 0;
    while i < displays.len()
        invariant
            i <= displays@.len(),
            forall|j: int| 0 <= j < i ==> !(#[trigger] displays@[j].is_main),
        decreases displays@.len() - i,
    {
        if displays[i].is_main {
            return Some(i);
        }
        i += 1;
    }
    None
}

/// The display a saved id selects: one with the requested number, or a
/// main display, else the first.
pub fn resolve_display(device_id: Option<&str>, displays: &[DisplayInfo]) -> (r: Result<DisplayInfo, String>)
    ensures
        displays@.len() == 0 ==> (r matches Err(m) && m@
            == "No active macOS displays available for ScreenCaptureKit system audio capture"@),
        displays@.len() > 0 && requested(opt_view(device_id)) is None ==> (r matches Ok(d) && ((exists|i: int|
            0 <= i < displays@.len() && #[trigger] displays@[i].is_main) ==> d.is_main && exists|i: int| 0 <= i < displays@.len() && displays@[i] == d) && (!(exists|i: int| 0 <= i < displays@.len() && #[trigger] displays@[i].is_main) ==> d == displays@[0])),
        displays@.len() > 0 && requested(opt_view(device_id)) is Some ==> match display_number(
            requested(opt_view(device_id))->0,
        ) {
            Err(m) => r matches Err(e) && e@ == m,
            Ok(n) => if exists|i: int| 0 <= i < displays@.len() && #[trigger] displays@[i].id == n {
                r matches Ok(d) && d.id == n && exists|i: int| 0 <= i < displays@.len() && displays@[i] == d
            } else {
                r matches Err(e) && e@ == "Requested macOS system audio display not found: "@ + requested(
                    opt_view(device_id),
                )->0
            },
        },
{
    proof {
        reveal_strlit("default");
    }
    if displays.len() == 0 {
        return Err(String::from_str("No active macOS displays available for ScreenCaptureKit system audio capture"));
    }
    let chosen = match device_id {
        Some(id) => if str_eq(id, "default") {
            None
        } else {
            Some(id)
        },
        None => None,
    };
    match chosen {
        Some(id) => {
            let requested_id = match decode_display_id(id) {
                Ok(n) => n,
                Err(e) => {
                    return Err(e);
                },
            };
            match find_display(displays, requested_id) {
                Some(i) => Ok(displays[i]),
                None => {
                    let mut cs: Vec<char> = Vec::new();
                    extend_str(&mut cs, "Requested macOS system audio display not found: ");
                    extend_str(&mut cs, id);
                    Err(string_from_chars(&cs))
                },
            }
        },
        None => match find_main_display(displays) {
            Some(i) => Ok(displays[i]),
            None => Ok(displays[0]),
        },
    }
}

/// A display's label: `Main Display (<id>)`, or `Display <n> (<id>)` with
/// its position counted from one.
pub open spec fn display_label_text(index: nat, display_id: u32, is_main: bool) -> Seq<char> {
    if is_main {
        "Main Display ("@ + display_id_text(display_id) + ")"@
    } else {
        "Display "@ + decimal(index + 1) + " ("@ + display_id_text(display_id) + ")"@
    }
}

pub fn display_label_parts(index: usize, display_id: u32, is_main: bool) -> (r: String)
    requires
        index < usize::MAX,
    ensures
        r@ == display_label_text(index as nat, display_id, is_main),
{
    let id = encode_display_id(display_id);
    let mut cs: Vec<char> = Vec::new();
    if is_main {
        extend_str(&mut cs, "Main Display (");
    } else {
        extend_str(&mut cs, "Display ");
        push_decimal(&mut cs, (index + 1) as u64);
        extend_str(&mut cs, " (");
    }
    extend_str(&mut cs, id.as_str());
    extend_str(&mut cs, ")");
    string_from_chars(&cs)
}

/// A display as a system-output device; usable with screen-capture access.
pub fn display_device(index: usize, display: DisplayInfo, screen_access: bool) -> (r: AudioSourceDevice)
    requires
        index < usize::MAX,
    ensures
        r.id@ == display_id_text(display.id),
        r.label@ == display_label_text(index as nat, display.id, display.is_main),
        r.source == PhysicalAudioSource::SystemOutput,
        r.backend == AudioBackendKind::MacosSystem,
        r.is_default == display.is_main,
        r.usable == screen_access,
{
    AudioSourceDevice {
        id: encode_display_id(display.id),
        label: display_label_parts(index, display.id, display.is_main),
        source: PhysicalAudioSource::SystemOutput,
        backend: AudioBackendKind::MacosSystem,
        is_default: display.is_main,
        usable: screen_access,
    }
}

// ---------------------------------------------------------------------------
// Windows
// ---------------------------------------------------------------------------

/// A saved Windows id without its `windows-system:` namespace; none in
/// another backend's namespace.
pub open spec fn windows_raw_id(id: Seq<char>) -> Option<Seq<char>> {
    match split_nonempty(id) {
        Some((ns, raw)) => if ns == "windows-system"@ {
            Some(raw)
        } else {
            None
        },
        None => Some(id),
    }
}

pub fn normalize_windows_system_device_id(device_id: &str) -> (r: Option<String>)
    ensures
        match windows_raw_id(device_id@) {
            Some(raw) => r matches Some(s) && s@ == raw,
            None => r is None,
        },
{
    proof {
        broadcast use vstd::string::group_string_axioms;

    }
    match split_namespaced_id(device_id) {
        Some((namespace, raw)) => {
            if str_eq(namespace, "windows-system") {
                Some(raw.to_string())
            } else {
                None
            }
        },
        None => Some(device_id.to_string()),
    }
}

/// The render device a saved id asks for: none for the default device,
/// the raw endpoint id otherwise, or an error for another backend's id.
pub fn render_device_request(device_id: Option<&str>) -> (r: Result<Option<String>, String>)
    ensures
        match requested(opt_view(device_id)) {
            None => r matches Ok(x) && x is None,
            Some(id) => match windows_raw_id(id) {
                Some(raw) => r matches Ok(x) && x matches Some(s) && s@ == raw,
                None => r matches Err(m) && m@ == "Windows system output device id is invalid for this backend: "@ + id,
            },
        },
{
    proof {
        reveal_strlit("default");
    }
    let id = match device_id {
        Some(id) => if str_eq(id, "default") {
            return Ok(None);
        } else {
            id
        },
        None => {
            return Ok(None);
        },
    };
    match normalize_windows_system_device_id(id) {
        Some(raw) => Ok(Some(raw)),
        None => {
            let mut cs: Vec<char> = Vec::new();
            extend_str(&mut cs, "Windows system output device id is invalid for this backend: ");
            extend_str(&mut cs, id);
            Err(string_from_chars(&cs))
        },
    }
}

/// A render endpoint as a system-output device.
pub fn loopback_device(raw_id: String, label: String, default_id: Option<&str>) -> (r: AudioSourceDevice)
    ensures
        r.id@ == namespaced("windows-system"@, raw_id@),
        r.label == label,
        r.source == PhysicalAudioSource::SystemOutput,
        r.backend == AudioBackendKind::WindowsSystem,
        r.is_default == (default_id matches Some(d) && d@ == raw_id@),
        r.usable,
{
    let is_default = match default_id {
        Some(d) => str_eq(d, raw_id.as_str()),
        None => false,
    };
    AudioSourceDevice {
        id: namespaced_id("windows-system", raw_id.as_str()),
        label,
        source: PhysicalAudioSource::SystemOutput,
        backend: AudioBackendKind::WindowsSystem,
        is_default,
        usable: true,
    }
}

/// The checks on a loopback mix format: 32 bits per sample, a float
/// format, and non-zero channels, rate and block size.
pub fn validate_loopback_format(
    bits_per_sample: u16,
    is_float: bool,
    channels: u16,
    sample_rate: u32,
    block_align: u16,
) -> (r: Result<(), String>)
    ensures
        bits_per_sample != 32 ==> (r matches Err(m) && m@
            == "Windows loopback currently expects 32-bit float mix format, got "@ + decimal(bits_per_sample as nat) + " bits"@),
        bits_per_sample == 32 && !is_float ==> (r matches Err(m) && m@
            == "Windows loopback currently supports only float mix formats"@),
        bits_per_sample == 32 && is_float && (channels == 0 || sample_rate == 0 || block_align == 0) ==> (r matches Err(m)
            && m@ == "Windows loopback reported invalid stream format metadata"@),
        bits_per_sample == 32 && is_float && channels != 0 && sample_rate != 0 && block_align != 0 ==> r is Ok,
{
    if bits_per_sample != 32 {
        let mut cs: Vec<char> = Vec::new();
        extend_str(&mut cs, "Windows loopback currently expects 32-bit float mix format, got ");
        push_decimal(&mut cs, bits_per_sample as u64);
        extend_str(&mut cs, " bits");
        return Err(string_from_chars(&cs));
    }
    if !is_float {
        return Err(String::from_str("Windows loopback currently supports only float mix formats"));
    }
    if channels == 0 || sample_rate == 0 || block_align == 0 {
        return Err(String::from_str("Windows loopback reported invalid stream format metadata"));
    }
    Ok(())
}

} // verus!
