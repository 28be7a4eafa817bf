//! Unified on-disk state: a binary blob holding window geometry + active
//! profile, then one page per profile (device presets plus its section filter).
//!
//! On-disk format (little-endian, no padding):
//! ```text
//!   magic            4 bytes "BNKZ"
//!   version          u8 (currently 3)
//!   --- header (general state) ---
//!   window width     u32
//!   window height    u32
//!   window maximized u8
//!   active           u8 tag (0 = None, 1 = Some) + u16 len + utf-8
//!   --- profile pages ---
//!   profile count    u32
//!   per profile:
//!       name            u16 len + utf-8
//!       default_sink    u8 tag + (u16 len + utf-8) if Some
//!       sink count      u32
//!       per sink:       u16 len + utf-8 key, f32 volume, u8 muted
//!       app count       u32
//!       per app:        u16 len + utf-8 key, f32 volume, u8 muted,
//!                       u8 tag + (u16 len + utf-8) target_sink_name if Some
//!       default_source  u8 tag + (u16 len + utf-8) if Some
//!       source count    u32
//!       per source:     u16 len + utf-8 key, f32 volume, u8 muted
//!       section filter  3 × u8 (outputs, inputs, apps; 0 = hidden)
//! ```
//!
//! All strings are bounded at `u16::MAX` bytes; the writer fails loudly if the
//! bound is exceeded so the round-trip stays lossless.

use crate::domain::{Gain, SectionFilter};
use crate::geometry::Geometry;
use crate::ordered;
use crate::ordered::{OrderedKey, OrderedMap};
use crate::profile;
use crate::profile::{
    AppEntries, AppMap, AppSettings, AppSettingsView, DeviceEntries, DeviceMap, DeviceSettings,
    Profile, ProfileStore, ProfileStoreView, ProfileView,
};
use crate::text;
use crate::text::decimal_text;
use vstd::prelude::*;
use vstd::slice::slice_subrange;
use vstd::string::*;
use vstd::utf8::*;

verus! {

/// The state file's name inside the config directory.
pub const FILENAME: &'static str = "state.bin";

pub const MAGIC: [u8; 4] = [0x42, 0x4e, 0x4b, 0x5a];

pub const VERSION: u8 = 3;

/// Everything that persists across a restart: window geometry plus the profile
/// store, which says which profile is active.
#[derive(Debug, PartialEq, Eq)]
pub struct State {
    pub window: Geometry,
    pub profiles: ProfileStore,
}

#[verifier::ext_equal]
pub struct StateView {
    pub window: Geometry,
    pub profiles: ProfileStoreView,
}

impl View for State {
    type V = StateView;

    open spec fn view(&self) -> StateView {
        StateView { window: self.window, profiles: self.profiles@ }
    }
}

impl Default for State {
    fn default() -> (state: Self)
        ensures
            state@ == (StateView {
                window: Geometry { width: 560, height: 720, maximized: false },
                profiles: ProfileStoreView { profiles: Seq::empty(), active: None },
            }),
            state@.profiles.wf(),
    {
        State::new()
    }
}

impl State {
    /// What there is before anything was saved.
    pub fn new() -> (state: Self)
        ensures
            state@ == (StateView {
                window: Geometry { width: 560, height: 720, maximized: false },
                profiles: ProfileStoreView { profiles: Seq::empty(), active: None },
            }),
            state@.profiles.wf(),
    {
        State { window: Geometry::default(), profiles: ProfileStore::new() }
    }
}

/// Errors from encoding or decoding the state file. They carry offsets, counts,
/// and profile names to pinpoint a malformed file.
#[derive(Debug, PartialEq, Eq)]
pub enum Error {
    InvalidMagic { b0: u8, b1: u8, b2: u8, b3: u8 },
    UnsupportedVersion { got: u8, want: u8 },
    OffsetOverflow,
    UnexpectedEnd { pos: usize, need: usize, have: usize },
    InvalidOptionalTag { tag: u8, offset: usize },
    InvalidUtf8 { offset: usize },
    TrailingBytes(usize),
    TooManyProfiles(usize),
    TooManyEntries { profile: String, count: usize },
    StringTooLong(usize),
}

#[verifier::ext_equal]
pub enum ErrorView {
    InvalidMagic { b0: u8, b1: u8, b2: u8, b3: u8 },
    UnsupportedVersion { got: u8, want: u8 },
    OffsetOverflow,
    UnexpectedEnd { pos: usize, need: usize, have: usize },
    InvalidOptionalTag { tag: u8, offset: usize },
    InvalidUtf8 { offset: usize },
    TrailingBytes(usize),
    TooManyProfiles(usize),
    TooManyEntries { profile: Seq<char>, count: usize },
    StringTooLong(usize),
}

impl View for Error {
    type V = ErrorView;

    open spec fn view(&self) -> ErrorView {
        match *self {
            Error::InvalidMagic { b0, b1, b2, b3 } => ErrorView::InvalidMagic { b0, b1, b2, b3 },
            Error::UnsupportedVersion { got, want } => ErrorView::UnsupportedVersion { got, want },
            Error::OffsetOverflow => ErrorView::OffsetOverflow,
            Error::UnexpectedEnd { pos, need, have } => ErrorView::UnexpectedEnd {
                pos,
                need,
                have,
            },
            Error::InvalidOptionalTag { tag, offset } => ErrorView::InvalidOptionalTag {
                tag,
                offset,
            },
            Error::InvalidUtf8 { offset } => ErrorView::InvalidUtf8 { offset },
            Error::TrailingBytes(n) => ErrorView::TrailingBytes(n),
            Error::TooManyProfiles(n) => ErrorView::TooManyProfiles(n),
            Error::TooManyEntries { profile, count } => ErrorView::TooManyEntries {
                profile: profile@,
                count,
            },
            Error::StringTooLong(n) => ErrorView::StringTooLong(n),
        }
    }
}

impl ErrorView {
    /// The error in words.
    pub open spec fn words(self) -> Seq<char> {
        match self {
            ErrorView::InvalidMagic { b0, b1, b2, b3 } => "invalid state magic: ["@
                + text::decimal(b0 as nat) + ", "@ + text::decimal(b1 as nat) + ", "@
                + text::decimal(b2 as nat) + ", "@ + text::decimal(b3 as nat) + "]"@,
            ErrorView::UnsupportedVersion { got, want } => "unsupported state version "@
                + text::decimal(got as nat) + " (expected "@ + text::decimal(want as nat) + ")"@,
            ErrorView::OffsetOverflow => "state codec offset overflow"@,
            ErrorView::UnexpectedEnd { pos, need, have } =>
                "unexpected end of state data at offset "@ + text::decimal(pos as nat) + " (need "@
                    + text::decimal(need as nat) + " more bytes, have "@ + text::decimal(
                    have as nat,
                ) + ")"@,
            ErrorView::InvalidOptionalTag { tag, offset } => "invalid optional tag "@
                + text::decimal(tag as nat) + " at offset "@ + text::decimal(offset as nat),
            ErrorView::InvalidUtf8 { offset } => "invalid utf-8 in state string at offset "@
                + text::decimal(offset as nat),
            ErrorView::TrailingBytes(n) => "trailing "@ + text::decimal(n as nat)
                + " bytes after state data"@,
            ErrorView::TooManyProfiles(n) => "too many profiles: "@ + text::decimal(n as nat),
            ErrorView::TooManyEntries { profile, count } => "too many entries in profile "@
                + profile + ": "@ + text::decimal(count as nat),
            ErrorView::StringTooLong(n) => "string too long for state codec: "@ + text::decimal(
                n as nat,
            ) + " bytes"@,
        }
    }
}

impl Error {
    /// The error in words, for the status line.
    pub fn message(&self) -> (s: String)
        ensures
            s@ == self@.words(),
    {
        match self {
            Error::InvalidMagic { b0, b1, b2, b3 } => "invalid state magic: [".to_owned().concat(
                decimal_text(*b0 as u64).as_str(),
            ).concat(", ").concat(decimal_text(*b1 as u64).as_str()).concat(", ").concat(
                decimal_text(*b2 as u64).as_str(),
            ).concat(", ").concat(decimal_text(*b3 as u64).as_str()).concat("]"),
            Error::UnsupportedVersion { got, want } => "unsupported state version ".to_owned().concat(
                decimal_text(*got as u64).as_str(),
            ).concat(" (expected ").concat(decimal_text(*want as u64).as_str()).concat(")"),
            Error::OffsetOverflow => "state codec offset overflow".to_owned(),
            Error::UnexpectedEnd { pos, need, have } =>
                "unexpected end of state data at offset ".to_owned().concat(
                decimal_text(*pos as u64).as_str(),
            ).concat(" (need ").concat(decimal_text(*need as u64).as_str()).concat(
                " more bytes, have ",
            ).concat(decimal_text(*have as u64).as_str()).concat(")"),
            Error::InvalidOptionalTag { tag, offset } => "invalid optional tag ".to_owned().concat(
                decimal_text(*tag as u64).as_str(),
            ).concat(" at offset ").concat(decimal_text(*offset as u64).as_str()),
            Error::InvalidUtf8 { offset } => "invalid utf-8 in state string at offset ".to_owned().concat(
                decimal_text(*offset as u64).as_str(),
            ),
            Error::TrailingBytes(n) => "trailing ".to_owned().concat(
                decimal_text(*n as u64).as_str(),
            ).concat(" bytes after state data"),
            Error::TooManyProfiles(n) => "too many profiles: ".to_owned().concat(
                decimal_text(*n as u64).as_str(),
            ),
            Error::TooManyEntries { profile, count } => "too many entries in profile ".to_owned().concat(
                profile.as_str(),
            ).concat(": ").concat(decimal_text(*count as u64).as_str()),
            Error::StringTooLong(n) => "string too long for state codec: ".to_owned().concat(
                decimal_text(*n as u64).as_str(),
            ).concat(" bytes"),
        }
    }
}

/// Path to the state file inside a config directory, `None` when none resolves.
pub fn state_path(config_dir: Option<&str>) -> (path: Option<String>)
    ensures
        match config_dir {
            Some(dir) => path matches Some(p) && p@ == dir@ + "/"@ + FILENAME@,
            None => path is None,
        },
{
    match config_dir {
        Some(dir) => Some(dir.to_owned().concat("/").concat(FILENAME)),
        None => None,
    }
}

// --- Encoding ----------------------------------------------------------------------

/// Bytes, or why there are none.
pub type Encoded = Result<Seq<u8>, ErrorView>;

/// Two runs of bytes one after the other; the first failure stands.
pub open spec fn joined(a: Encoded, b: Encoded) -> Encoded {
    match a {
        Err(e) => Err(e),
        Ok(x) => match b {
            Err(e) => Err(e),
            Ok(y) => Ok(x + y),
        },
    }
}

pub open spec fn le16(v: u16) -> Seq<u8> {
    seq![v as u8, (v >> 8) as u8]
}

pub open spec fn le32(v: u32) -> Seq<u8> {
    seq![v as u8, (v >> 8) as u8, (v >> 16) as u8, (v >> 24) as u8]
}

pub open spec fn flag_byte(b: bool) -> u8 {
    if b {
        1
    } else {
        0
    }
}

/// A length-prefixed text.
pub open spec fn text_bytes(s: Seq<char>) -> Encoded {
    let bytes = encode_utf8(s);
    if bytes.len() > 65535 {
        Err(ErrorView::StringTooLong(bytes.len() as usize))
    } else {
        Ok(le16(bytes.len() as u16) + bytes)
    }
}

/// A tagged text that may be absent.
pub open spec fn opt_bytes(s: Option<Seq<char>>) -> Encoded {
    match s {
        None => Ok(seq![0u8]),
        Some(t) => joined(Ok(seq![1u8]), text_bytes(t)),
    }
}

/// One device preset.
pub open spec fn device_bytes(e: (Seq<char>, DeviceSettings)) -> Encoded {
    joined(text_bytes(e.0), Ok(le32(e.1.volume.bits) + seq![flag_byte(e.1.muted)]))
}

/// The first `n` device presets.
pub open spec fn device_list_bytes(entries: DeviceEntries, n: int) -> Encoded
    decreases n,
{
    if n <= 0 {
        Ok(Seq::empty())
    } else {
        joined(device_list_bytes(entries, n - 1), device_bytes(entries[n - 1]))
    }
}

/// A counted list of device presets.
pub open spec fn devices_bytes(profile: Seq<char>, entries: DeviceEntries) -> Encoded {
    if entries.len() > u32::MAX {
        Err(ErrorView::TooManyEntries { profile, count: entries.len() as usize })
    } else {
        joined(
            Ok(le32(entries.len() as u32)),
            device_list_bytes(entries, entries.len() as int),
        )
    }
}

/// One application preset.
pub open spec fn app_bytes(e: (Seq<char>, AppSettingsView)) -> Encoded {
    joined(
        joined(text_bytes(e.0), Ok(le32(e.1.volume.bits) + seq![flag_byte(e.1.muted)])),
        opt_bytes(e.1.target_sink_name),
    )
}

/// The first `n` application presets.
pub open spec fn app_list_bytes(entries: AppEntries, n: int) -> Encoded
    decreases n,
{
    if n <= 0 {
        Ok(Seq::empty())
    } else {
        joined(app_list_bytes(entries, n - 1), app_bytes(entries[n - 1]))
    }
}

/// A counted list of application presets.
pub open spec fn apps_bytes(profile: Seq<char>, entries: AppEntries) -> Encoded {
    if entries.len() > u32::MAX {
        Err(ErrorView::TooManyEntries { profile, count: entries.len() as usize })
    } else {
        joined(Ok(le32(entries.len() as u32)), app_list_bytes(entries, entries.len() as int))
    }
}

pub open spec fn filter_bytes(f: SectionFilter) -> Seq<u8> {
    seq![flag_byte(f.outputs), flag_byte(f.inputs), flag_byte(f.apps)]
}

/// One profile's page.
#[verifier::opaque]
pub open spec fn profile_bytes(p: ProfileView) -> Encoded {
    joined(
        joined(
            joined(
                joined(
                    joined(
                        joined(text_bytes(p.name), opt_bytes(p.default_sink)),
                        devices_bytes(p.name, p.sinks),
                    ),
                    apps_bytes(p.name, p.apps),
                ),
                opt_bytes(p.default_source),
            ),
            devices_bytes(p.name, p.sources),
        ),
        Ok(filter_bytes(p.section_filter)),
    )
}

/// The first `n` profiles' pages.
pub open spec fn profile_list_bytes(profiles: Seq<ProfileView>, n: int) -> Encoded
    decreases n,
{
    if n <= 0 {
        Ok(Seq::empty())
    } else {
        joined(profile_list_bytes(profiles, n - 1), profile_bytes(profiles[n - 1]))
    }
}

/// Magic, version and window geometry.
pub open spec fn window_bytes(g: Geometry) -> Seq<u8> {
    MAGIC@ + seq![VERSION] + le32(g.width) + le32(g.height) + seq![flag_byte(g.maximized)]
}

/// The whole file.
pub open spec fn state_bytes(s: StateView) -> Encoded {
    let header = joined(Ok(window_bytes(s.window)), opt_bytes(s.profiles.active));
    let n = s.profiles.profiles.len();
    let pages = if n > u32::MAX {
        Err(ErrorView::TooManyProfiles(n as usize))
    } else {
        joined(Ok(le32(n as u32)), profile_list_bytes(s.profiles.profiles, n as int))
    };
    joined(header, pages)
}

/// What was written behind `before` is `enc`, or the failure was reported.
pub open spec fn wrote(
    before: Seq<u8>,
    after: Seq<u8>,
    res: Result<(), Error>,
    enc: Encoded,
) -> bool {
    match res {
        Ok(_) => enc matches Ok(bytes) && after == before + bytes,
        Err(e) => enc == Err::<Seq<u8>, ErrorView>(e@),
    }
}

/// Two writes one after the other write both.
proof fn wrote_both(a: Seq<u8>, b: Seq<u8>, c: Seq<u8>, r: Result<(), Error>, x: Encoded, y: Encoded)
    requires
        wrote(a, b, Ok(()), x),
        wrote(b, c, r, y),
    ensures
        wrote(a, c, r, joined(x, y)),
{
    if r is Ok {
        assert(c =~= a + (x->Ok_0 + y->Ok_0));
    }
}

fn push_le16(out: &mut Vec<u8>, v: u16)
    ensures
        final(out)@ == old(out)@ + le16(v),
{
    out.push(v as u8);
    out.push((v >> 8) as u8);
    assert(out@ =~= old(out)@ + le16(v));
}

fn push_le32(out: &mut Vec<u8>, v: u32)
    ensures
        final(out)@ == old(out)@ + le32(v),
{
    out.push(v as u8);
    out.push((v >> 8) as u8);
    out.push((v >> 16) as u8);
    out.push((v >> 24) as u8);
    assert(out@ =~= old(out)@ + le32(v));
}

fn push_flag(out: &mut Vec<u8>, b: bool)
    ensures
        final(out)@ == old(out)@ + seq![flag_byte(b)],
{
    out.push(
        if b {
            1
        } else {
            0
        },
    );
    assert(out@ =~= old(out)@ + seq![flag_byte(b)]);
}

fn push_all(out: &mut Vec<u8>, bytes: &[u8])
    ensures
        final(out)@ == old(out)@ + bytes@,
{
    let ghost before = out@;
    let mut i: usize = 0;
    assert(before + bytes@.take(0) =~= before);
    while i < bytes.len()
        invariant
            i <= bytes@.len(),
            out@ == before + bytes@.take(i as int),
        decreases bytes@.len() - i,
    {
        out.push(bytes[i]);
        i = i + 1;
        assert(out@ =~= before + bytes@.take(i as int));
    }
    assert(bytes@.take(i as int) =~= bytes@);
}

fn write_string(out: &mut Vec<u8>, s: &str) -> (res: Result<(), Error>)
    ensures
        wrote(old(out)@, final(out)@, res, text_bytes(s@)),
{
    let ghost before = out@;
    let bytes = s.as_bytes();
    if bytes.len() > 65535 {
        return Err(Error::StringTooLong(bytes.len()));
    }
    push_le16(out, bytes.len() as u16);
    push_all(out, bytes);
    assert(out@ =~= before + (le16(bytes@.len() as u16) + bytes@));
    Ok(())
}

fn write_opt_string(out: &mut Vec<u8>, s: &Option<String>) -> (res: Result<(), Error>)
    ensures
        wrote(old(out)@, final(out)@, res, opt_bytes(text::opt(*s))),
{
    let ghost before = out@;
    match s {
        None => {
            out.push(0);
            assert(out@ =~= before + seq![0u8]);
            Ok(())
        },
        Some(t) => {
            out.push(1);
            let ghost tagged = out@;
            assert(tagged =~= before + seq![1u8]);
            let res = write_string(out, t.as_str());
            proof {
                wrote_both(before, tagged, out@, res, Ok(seq![1u8]), text_bytes(t@));
            }
            res
        },
    }
}

fn write_device(out: &mut Vec<u8>, key: &str, settings: &DeviceSettings) -> (res: Result<(), Error>)
    ensures
        wrote(old(out)@, final(out)@, res, device_bytes((key@, *settings))),
{
    let ghost before = out@;
    match write_string(out, key) {
        Ok(()) => {},
        Err(e) => {
            return Err(e);
        },
    }
    let ghost named = out@;
    push_le32(out, settings.volume.bits);
    push_flag(out, settings.muted);
    proof {
        let rest = le32(settings.volume.bits) + seq![flag_byte(settings.muted)];
        assert(out@ =~= named + rest);
        wrote_both(before, named, out@, Ok(()), text_bytes(key@), Ok(rest));
    }
    Ok(())
}

fn write_device_map(out: &mut Vec<u8>, profile: &str, map: &DeviceMap) -> (res: Result<(), Error>)
    ensures
        wrote(old(out)@, final(out)@, res, devices_bytes(profile@, map@)),
{
    let ghost before = out@;
    if map.entries.len() as u64 > u32::MAX as u64 {
        return Err(
            Error::TooManyEntries { profile: profile.to_owned(), count: map.entries.len() },
        );
    }
    push_le32(out, map.entries.len() as u32);
    let ghost counted = out@;
    let ghost count = Ok::<Seq<u8>, ErrorView>(le32(map@.len() as u32));
    let mut i: usize = 0;
    assert(counted + Seq::<u8>::empty() =~= counted);
    while i < map.entries.len()
        invariant
            i <= map.entries@.len(),
            map.entries@.len() <= u32::MAX,
            before == old(out)@,
            wrote(before, counted, Ok(()), count),
            count == Ok::<Seq<u8>, ErrorView>(le32(map@.len() as u32)),
            wrote(counted, out@, Ok(()), device_list_bytes(map@, i as int)),
        decreases map.entries@.len() - i,
    {
        let ghost listed = out@;
        assert(map@[i as int] == (map.entries@[i as int].0@, map.entries@[i as int].1));
        let res = write_device(out, map.entries[i].0.as_str(), &map.entries[i].1);
        proof {
            wrote_both(
                counted,
                listed,
                out@,
                res,
                device_list_bytes(map@, i as int),
                device_bytes(map@[i as int]),
            );
        }
        match res {
            Ok(()) => {},
            Err(e) => {
                proof {
                    device_list_fails(map@, i + 1, map@.len() as int);
                }
                return Err(e);
            },
        }
        i = i + 1;
    }
    proof {
        wrote_both(
            before,
            counted,
            out@,
            Ok(()),
            count,
            device_list_bytes(map@, map@.len() as int),
        );
    }
    Ok(())
}

/// A list that fails early fails all the same.
proof fn device_list_fails(entries: DeviceEntries, m: int, n: int)
    requires
        0 <= m <= n,
        device_list_bytes(entries, m) is Err,
    ensures
        device_list_bytes(entries, n) == device_list_bytes(entries, m),
    decreases n - m,
{
    if m < n {
        device_list_fails(entries, m, n - 1);
    }
}

proof fn app_list_fails(entries: AppEntries, m: int, n: int)
    requires
        0 <= m <= n,
        app_list_bytes(entries, m) is Err,
    ensures
        app_list_bytes(entries, n) == app_list_bytes(entries, m),
    decreases n - m,
{
    if m < n {
        app_list_fails(entries, m, n - 1);
    }
}

proof fn profile_list_fails(profiles: Seq<ProfileView>, m: int, n: int)
    requires
        0 <= m <= n,
        profile_list_bytes(profiles, m) is Err,
    ensures
        profile_list_bytes(profiles, n) == profile_list_bytes(profiles, m),
    decreases n - m,
{
    if m < n {
        profile_list_fails(profiles, m, n - 1);
    }
}

fn write_app(out: &mut Vec<u8>, key: &str, settings: &AppSettings) -> (res: Result<(), Error>)
    ensures
        wrote(old(out)@, final(out)@, res, app_bytes((key@, settings@))),
{
    let ghost before = out@;
    match write_string(out, key) {
        Ok(()) => {},
        Err(e) => {
            return Err(e);
        },
    }
    let ghost named = out@;
    push_le32(out, settings.volume.bits);
    push_flag(out, settings.muted);
    let ghost leveled = out@;
    let ghost rest = le32(settings.volume.bits) + seq![flag_byte(settings.muted)];
    proof {
        assert(leveled =~= named + rest);
        wrote_both(before, named, leveled, Ok(()), text_bytes(key@), Ok(rest));
    }
    let res = write_opt_string(out, &settings.target_sink_name);
    proof {
        wrote_both(
            before,
            leveled,
            out@,
            res,
            joined(text_bytes(key@), Ok(rest)),
            opt_bytes(settings@.target_sink_name),
        );
    }
    res
}

fn write_app_map(out: &mut Vec<u8>, profile: &str, map: &AppMap) -> (res: Result<(), Error>)
    ensures
        wrote(old(out)@, final(out)@, res, apps_bytes(profile@, map@)),
{
    let ghost before = out@;
    if map.entries.len() as u64 > u32::MAX as u64 {
        return Err(
            Error::TooManyEntries { profile: profile.to_owned(), count: map.entries.len() },
        );
    }
    push_le32(out, map.entries.len() as u32);
    let ghost counted = out@;
    let ghost count = Ok::<Seq<u8>, ErrorView>(le32(map@.len() as u32));
    let mut i: usize = 0;
    assert(counted + Seq::<u8>::empty() =~= counted);
    while i < map.entries.len()
        invariant
            i <= map.entries@.len(),
            map.entries@.len() <= u32::MAX,
            before == old(out)@,
            wrote(before, counted, Ok(()), count),
            count == Ok::<Seq<u8>, ErrorView>(le32(map@.len() as u32)),
            wrote(counted, out@, Ok(()), app_list_bytes(map@, i as int)),
        decreases map.entries@.len() - i,
    {
        let ghost listed = out@;
        assert(map@[i as int] == (map.entries@[i as int].0@, map.entries@[i as int].1@));
        let res = write_app(out, map.entries[i].0.as_str(), &map.entries[i].1);
        proof {
            wrote_both(
                counted,
                listed,
                out@,
                res,
                app_list_bytes(map@, i as int),
                app_bytes(map@[i as int]),
            );
        }
        match res {
            Ok(()) => {},
            Err(e) => {
                proof {
                    app_list_fails(map@, i + 1, map@.len() as int);
                }
                return Err(e);
            },
        }
        i = i + 1;
    }
    proof {
        wrote_both(before, counted, out@, Ok(()), count, app_list_bytes(map@, map@.len() as int));
    }
    Ok(())
}

fn write_profile(out: &mut Vec<u8>, p: &Profile) -> (res: Result<(), Error>)
    ensures
        wrote(old(out)@, final(out)@, res, profile_bytes(p@)),
{
    proof {
        reveal(profile_bytes);
    }
    let ghost o0 = out@;
    match write_string(out, p.name.as_str()) {
        Ok(()) => {},
        Err(e) => {
            return Err(e);
        },
    }
    let ghost o1 = out@;
    let ghost e1 = text_bytes(p@.name);
    let r2 = write_opt_string(out, &p.default_sink);
    let ghost o2 = out@;
    let ghost e2 = joined(e1, opt_bytes(p@.default_sink));
    proof {
        wrote_both(o0, o1, o2, r2, e1, opt_bytes(p@.default_sink));
    }
    if r2.is_err() {
        return r2;
    }
    let r3 = write_device_map(out, p.name.as_str(), &p.sinks);
    let ghost o3 = out@;
    let ghost e3 = joined(e2, devices_bytes(p@.name, p@.sinks));
    proof {
        wrote_both(o0, o2, o3, r3, e2, devices_bytes(p@.name, p@.sinks));
    }
    if r3.is_err() {
        return r3;
    }
    let r4 = write_app_map(out, p.name.as_str(), &p.apps);
    let ghost o4 = out@;
    let ghost e4 = joined(e3, apps_bytes(p@.name, p@.apps));
    proof {
        wrote_both(o0, o3, o4, r4, e3, apps_bytes(p@.name, p@.apps));
    }
    if r4.is_err() {
        return r4;
    }
    let r5 = write_opt_string(out, &p.default_source);
    let ghost o5 = out@;
    let ghost e5 = joined(e4, opt_bytes(p@.default_source));
    proof {
        wrote_both(o0, o4, o5, r5, e4, opt_bytes(p@.default_source));
    }
    if r5.is_err() {
        return r5;
    }
    let r6 = write_device_map(out, p.name.as_str(), &p.sources);
    let ghost o6 = out@;
    let ghost e6 = joined(e5, devices_bytes(p@.name, p@.sources));
    proof {
        wrote_both(o0, o5, o6, r6, e5, devices_bytes(p@.name, p@.sources));
    }
    if r6.is_err() {
        return r6;
    }
    push_flag(out, p.section_filter.outputs);
    push_flag(out, p.section_filter.inputs);
    push_flag(out, p.section_filter.apps);
    proof {
        let tail = filter_bytes(p@.section_filter);
        assert(out@ =~= o6 + tail);
        wrote_both(o0, o6, out@, Ok(()), e6, Ok(tail));
    }
    Ok(())
}

/// The state as the bytes of the state file.
pub fn encode(state: &State) -> (res: Result<Vec<u8>, Error>)
    ensures
        match res {
            Ok(out) => state_bytes(state@) == Ok::<Seq<u8>, ErrorView>(out@),
            Err(e) => state_bytes(state@) == Err::<Seq<u8>, ErrorView>(e@),
        },
{
    let mut out: Vec<u8> = Vec::new();
    push_all(&mut out, &MAGIC);
    out.push(VERSION);

    // Header: window geometry, then the active-profile pointer.
    push_le32(&mut out, state.window.width);
    push_le32(&mut out, state.window.height);
    push_flag(&mut out, state.window.maximized);
    let ghost o1 = out@;
    let ghost e1 = Ok::<Seq<u8>, ErrorView>(window_bytes(state@.window));
    let ghost o0 = Seq::<u8>::empty();
    assert(o1 =~= o0 + window_bytes(state@.window));
    let r2 = write_opt_string(&mut out, &state.profiles.active);
    let ghost o2 = out@;
    let ghost e2 = joined(e1, opt_bytes(state@.profiles.active));
    proof {
        wrote_both(o0, o1, o2, r2, e1, opt_bytes(state@.profiles.active));
    }
    match r2 {
        Ok(()) => {},
        Err(e) => {
            return Err(e);
        },
    }
    if state.profiles.profiles.len() as u64 > u32::MAX as u64 {
        return Err(Error::TooManyProfiles(state.profiles.profiles.len()));
    }
    let ghost profiles = state@.profiles.profiles;
    push_le32(&mut out, state.profiles.profiles.len() as u32);
    let ghost o3 = out@;
    let ghost count = Ok::<Seq<u8>, ErrorView>(le32(profiles.len() as u32));
    let mut i: usize = 0;
    assert(o3 + Seq::<u8>::empty() =~= o3);
    while i < state.profiles.profiles.len()
        invariant
            i <= state.profiles.profiles@.len(),
            state.profiles.profiles@.len() <= u32::MAX,
            profiles == state@.profiles.profiles,
            wrote(o0, o2, Ok(()), e2),
            e2 == joined(
                Ok(window_bytes(state@.window)),
                opt_bytes(state@.profiles.active),
            ),
            wrote(o2, o3, Ok(()), count),
            count == Ok::<Seq<u8>, ErrorView>(le32(profiles.len() as u32)),
            wrote(o3, out@, Ok(()), profile_list_bytes(profiles, i as int)),
        decreases state.profiles.profiles@.len() - i,
    {
        let ghost listed = out@;
        let res = write_profile(&mut out, &state.profiles.profiles[i]);
        proof {
            assert(profiles[i as int] == state.profiles.profiles@[i as int]@);
            wrote_both(
                o3,
                listed,
                out@,
                res,
                profile_list_bytes(profiles, i as int),
                profile_bytes(profiles[i as int]),
            );
        }
        match res {
            Ok(()) => {},
            Err(e) => {
                proof {
                    profile_list_fails(profiles, i + 1, profiles.len() as int);
                }
                return Err(e);
            },
        }
        i = i + 1;
    }
    proof {
        let pages = profile_list_bytes(profiles, profiles.len() as int);
        wrote_both(o2, o3, out@, Ok(()), count, pages);
        wrote_both(o0, o2, out@, Ok(()), e2, joined(count, pages));
        assert(o0 + state_bytes(state@)->Ok_0 =~= state_bytes(state@)->Ok_0);
    }
    Ok(out)
}

// --- Decoding ----------------------------------------------------------------------

/// What was read and the offset behind it, or why nothing was.
pub type Got<T> = Result<(T, int), ErrorView>;

/// Whether `n` more bytes are there at `pos`, or why not.
pub open spec fn room_at(data: Seq<u8>, pos: int, n: int) -> Result<(), ErrorView> {
    if pos + n > usize::MAX {
        Err(ErrorView::OffsetOverflow)
    } else if pos + n > data.len() {
        Err(
            ErrorView::UnexpectedEnd {
                pos: pos as usize,
                need: n as usize,
                have: (data.len() - pos) as usize,
            },
        )
    } else {
        Ok(())
    }
}

pub open spec fn u8_at(data: Seq<u8>, pos: int) -> Got<u8> {
    match room_at(data, pos, 1) {
        Err(e) => Err(e),
        Ok(_) => Ok((data[pos], pos + 1)),
    }
}

pub open spec fn word16_le(b0: u8, b1: u8) -> u16 {
    (b0 as u16) | ((b1 as u16) << 8)
}

pub open spec fn word32_le(b0: u8, b1: u8, b2: u8, b3: u8) -> u32 {
    (b0 as u32) | ((b1 as u32) << 8) | ((b2 as u32) << 16) | ((b3 as u32) << 24)
}

pub open spec fn u16_at(data: Seq<u8>, pos: int) -> Got<u16> {
    match room_at(data, pos, 2) {
        Err(e) => Err(e),
        Ok(_) => Ok((word16_le(data[pos], data[pos + 1]), pos + 2)),
    }
}

pub open spec fn u32_at(data: Seq<u8>, pos: int) -> Got<u32> {
    match room_at(data, pos, 4) {
        Err(e) => Err(e),
        Ok(_) => Ok(
            (word32_le(data[pos], data[pos + 1], data[pos + 2], data[pos + 3]), pos + 4),
        ),
    }
}

pub open spec fn text_at(data: Seq<u8>, pos: int) -> Got<Seq<char>> {
    match u16_at(data, pos) {
        Err(e) => Err(e),
        Ok((len, start)) => match room_at(data, start, len as int) {
            Err(e) => Err(e),
            Ok(_) => {
                let bytes = data.subrange(start, start + len);
                if valid_utf8(bytes) {
                    Ok((decode_utf8(bytes), start + len))
                } else {
                    Err(ErrorView::InvalidUtf8 { offset: start as usize })
                }
            },
        },
    }
}

pub open spec fn opt_at(data: Seq<u8>, pos: int) -> Got<Option<Seq<char>>> {
    match u8_at(data, pos) {
        Err(e) => Err(e),
        Ok((tag, start)) => if tag == 0 {
            Ok((None, start))
        } else if tag == 1 {
            match text_at(data, start) {
                Err(e) => Err(e),
                Ok((s, end)) => Ok((Some(s), end)),
            }
        } else {
            Err(ErrorView::InvalidOptionalTag { tag, offset: pos as usize })
        },
    }
}

/// A key, a gain and a mute.
pub open spec fn level_at(data: Seq<u8>, pos: int) -> Got<(Seq<char>, DeviceSettings)> {
    match text_at(data, pos) {
        Err(e) => Err(e),
        Ok((key, p1)) => match u32_at(data, p1) {
            Err(e) => Err(e),
            Ok((bits, p2)) => match u8_at(data, p2) {
                Err(e) => Err(e),
                Ok((muted, p3)) => Ok(
                    ((key, DeviceSettings { volume: Gain { bits }, muted: muted != 0 }), p3),
                ),
            },
        },
    }
}

/// `n` device presets from `pos` on; where two share a key, the later one.
pub open spec fn device_list_at(data: Seq<u8>, pos: int, n: int) -> Got<DeviceEntries>
    decreases n,
{
    if n <= 0 {
        Ok((Seq::empty(), pos))
    } else {
        match device_list_at(data, pos, n - 1) {
            Err(e) => Err(e),
            Ok((entries, p)) => match level_at(data, p) {
                Err(e) => Err(e),
                Ok(((key, settings), q)) => Ok(
                    (ordered::put::<String, DeviceSettings>(entries, key, settings), q),
                ),
            },
        }
    }
}

pub open spec fn devices_at(data: Seq<u8>, pos: int) -> Got<DeviceEntries> {
    match u32_at(data, pos) {
        Err(e) => Err(e),
        Ok((count, p)) => device_list_at(data, p, count as int),
    }
}

/// One application preset: a level and the sink it is pinned to.
pub open spec fn app_at(data: Seq<u8>, pos: int) -> Got<(Seq<char>, AppSettingsView)> {
    match level_at(data, pos) {
        Err(e) => Err(e),
        Ok(((key, level), p)) => match opt_at(data, p) {
            Err(e) => Err(e),
            Ok((target, q)) => Ok(
                (
                    (
                        key,
                        AppSettingsView {
                            volume: level.volume,
                            muted: level.muted,
                            target_sink_name: target,
                        },
                    ),
                    q,
                ),
            ),
        },
    }
}

/// `n` application presets from `pos` on; where two share a key, the later one.
pub open spec fn app_list_at(data: Seq<u8>, pos: int, n: int) -> Got<AppEntries>
    decreases n,
{
    if n <= 0 {
        Ok((Seq::empty(), pos))
    } else {
        match app_list_at(data, pos, n - 1) {
            Err(e) => Err(e),
            Ok((entries, p)) => match app_at(data, p) {
                Err(e) => Err(e),
                Ok(((key, settings), q)) => Ok(
                    (ordered::put::<String, AppSettingsView>(entries, key, settings), q),
                ),
            },
        }
    }
}

pub open spec fn apps_at(data: Seq<u8>, pos: int) -> Got<AppEntries> {
    match u32_at(data, pos) {
        Err(e) => Err(e),
        Ok((count, p)) => app_list_at(data, p, count as int),
    }
}

pub open spec fn filter_at(data: Seq<u8>, pos: int) -> Got<SectionFilter> {
    match u8_at(data, pos) {
        Err(e) => Err(e),
        Ok((outputs, p1)) => match u8_at(data, p1) {
            Err(e) => Err(e),
            Ok((inputs, p2)) => match u8_at(data, p2) {
                Err(e) => Err(e),
                Ok((apps, p3)) => Ok(
                    (
                        SectionFilter {
                            outputs: outputs != 0,
                            inputs: inputs != 0,
                            apps: apps != 0,
                        },
                        p3,
                    ),
                ),
            },
        },
    }
}

/// A profile's page, field by field.
#[verifier::opaque]
pub open spec fn profile_at(data: Seq<u8>, pos: int) -> Got<ProfileView> {
    match text_at(data, pos) {
        Err(e) => Err(e),
        Ok((name, p1)) => match opt_at(data, p1) {
            Err(e) => Err(e),
            Ok((default_sink, p2)) => match devices_at(data, p2) {
                Err(e) => Err(e),
                Ok((sinks, p3)) => match apps_at(data, p3) {
                    Err(e) => Err(e),
                    Ok((apps, p4)) => match opt_at(data, p4) {
                        Err(e) => Err(e),
                        Ok((default_source, p5)) => match devices_at(data, p5) {
                            Err(e) => Err(e),
                            Ok((sources, p6)) => match filter_at(data, p6) {
                                Err(e) => Err(e),
                                Ok((section_filter, p7)) => Ok(
                                    (
                                        ProfileView {
                                            name,
                                            sinks,
                                            apps,
                                            sources,
                                            default_sink,
                                            default_source,
                                            section_filter,
                                        },
                                        p7,
                                    ),
                                ),
                            },
                        },
                    },
                },
            },
        },
    }
}

/// `n` profiles' pages from `pos` on.
pub open spec fn profile_list_at(data: Seq<u8>, pos: int, n: int) -> Got<Seq<ProfileView>>
    decreases n,
{
    if n <= 0 {
        Ok((Seq::empty(), pos))
    } else {
        match profile_list_at(data, pos, n - 1) {
            Err(e) => Err(e),
            Ok((profiles, p)) => match profile_at(data, p) {
                Err(e) => Err(e),
                Ok((profile, q)) => Ok((profiles.push(profile), q)),
            },
        }
    }
}

/// Magic and version, checked, then the window geometry.
pub open spec fn window_at(data: Seq<u8>) -> Got<Geometry> {
    match room_at(data, 0, 4) {
        Err(e) => Err(e),
        Ok(_) => if data.subrange(0, 4) != MAGIC@ {
            Err(ErrorView::InvalidMagic { b0: data[0], b1: data[1], b2: data[2], b3: data[3] })
        } else {
            match u8_at(data, 4) {
                Err(e) => Err(e),
                // No back-compat: only the current format is accepted.
                Ok((version, p0)) => if version != VERSION {
                    Err(ErrorView::UnsupportedVersion { got: version, want: VERSION })
                } else {
                    match u32_at(data, p0) {
                        Err(e) => Err(e),
                        Ok((width, p1)) => match u32_at(data, p1) {
                            Err(e) => Err(e),
                            Ok((height, p2)) => match u8_at(data, p2) {
                                Err(e) => Err(e),
                                Ok((maximized, p3)) => Ok(
                                    (
                                        (Geometry {
                                            width,
                                            height,
                                            maximized: maximized != 0,
                                        }).sane(),
                                        p3,
                                    ),
                                ),
                            },
                        },
                    }
                },
            }
        },
    }
}

/// The state a file holds, or what is wrong with it.
pub open spec fn state_at(data: Seq<u8>) -> Result<StateView, ErrorView> {
    match window_at(data) {
        Err(e) => Err(e),
        Ok((window, p1)) => match opt_at(data, p1) {
            Err(e) => Err(e),
            Ok((active, p2)) => match u32_at(data, p2) {
                Err(e) => Err(e),
                Ok((count, p3)) => match profile_list_at(data, p3, count as int) {
                    Err(e) => Err(e),
                    Ok((profiles, p4)) => if p4 != data.len() {
                        Err(ErrorView::TrailingBytes((data.len() - p4) as usize))
                    } else {
                        Ok(
                            StateView {
                                window,
                                profiles: ProfileStoreView { profiles, active },
                            },
                        )
                    },
                },
            },
        },
    }
}

/// `std::str::from_utf8`, copied into a text of its own: the bytes' characters
/// when they are valid UTF-8, nothing otherwise.
#[verifier::external_body]
fn utf8_text(bytes: &[u8]) -> (s: Option<String>)
    ensures
        s is Some <==> valid_utf8(bytes@),
        s matches Some(t) ==> t@ == decode_utf8(bytes@),
{
    std::str::from_utf8(bytes).ok().map(str::to_string)
}

/// Reads the state file from front to back.
struct Reader<'a> {
    data: &'a [u8],
    pos: usize,
}

impl<'a> Reader<'a> {
    spec fn wf(&self) -> bool {
        self.pos <= self.data@.len()
    }

    /// Whether `n` more bytes are there.
    fn room(&self, n: usize) -> (res: Result<(), Error>)
        requires
            self.wf(),
        ensures
            match res {
                Ok(_) => room_at(self.data@, self.pos as int, n as int) is Ok,
                Err(e) => room_at(self.data@, self.pos as int, n as int) == Err::<(), ErrorView>(e@),
            },
    {
        assert(self.data.len() == self.data@.len());
        let end: usize = match self.pos.checked_add(n) {
            Some(end) => end,
            None => {
                return Err(Error::OffsetOverflow);
            },
        };
        if end > self.data.len() {
            return Err(
                Error::UnexpectedEnd {
                    pos: self.pos,
                    need: n,
                    have: self.data.len() - self.pos,
                },
            );
        }
        Ok(())
    }

    fn u8(&mut self) -> (res: Result<u8, Error>)
        requires
            old(self).wf(),
        ensures
            final(self).wf(),
            final(self).data == old(self).data,
            match res {
                Ok(v) => u8_at(old(self).data@, old(self).pos as int) == Ok::<(u8, int), ErrorView>(
                    (v, final(self).pos as int),
                ),
                Err(e) => u8_at(old(self).data@, old(self).pos as int) == Err::<
                    (u8, int),
                    ErrorView,
                >(e@),
            },
    {
        match self.room(1) {
            Ok(()) => {},
            Err(e) => {
                return Err(e);
            },
        }
        let v: u8 = self.data[self.pos];
        self.pos = self.pos + 1;
        Ok(v)
    }

    fn u16(&mut self) -> (res: Result<u16, Error>)
        requires
            old(self).wf(),
        ensures
            final(self).wf(),
            final(self).data == old(self).data,
            match res {
                Ok(v) => u16_at(old(self).data@, old(self).pos as int) == Ok::<
                    (u16, int),
                    ErrorView,
                >((v, final(self).pos as int)),
                Err(e) => u16_at(old(self).data@, old(self).pos as int) == Err::<
                    (u16, int),
                    ErrorView,
                >(e@),
            },
    {
        match self.room(2) {
            Ok(()) => {},
            Err(e) => {
                return Err(e);
            },
        }
        let v: u16 = (self.data[self.pos] as u16) | ((self.data[self.pos + 1] as u16) << 8);
        self.pos = self.pos + 2;
        Ok(v)
    }

    fn u32(&mut self) -> (res: Result<u32, Error>)
        requires
            old(self).wf(),
        ensures
            final(self).wf(),
            final(self).data == old(self).data,
            match res {
                Ok(v) => u32_at(old(self).data@, old(self).pos as int) == Ok::<
                    (u32, int),
                    ErrorView,
                >((v, final(self).pos as int)),
                Err(e) => u32_at(old(self).data@, old(self).pos as int) == Err::<
                    (u32, int),
                    ErrorView,
                >(e@),
            },
    {
        match self.room(4) {
            Ok(()) => {},
            Err(e) => {
                return Err(e);
            },
        }
        let v: u32 = (self.data[self.pos] as u32) | ((self.data[self.pos + 1] as u32) << 8) | ((
        self.data[self.pos + 2] as u32) << 16) | ((self.data[self.pos + 3] as u32) << 24);
        self.pos = self.pos + 4;
        Ok(v)
    }

    fn string(&mut self) -> (res: Result<String, Error>)
        requires
            old(self).wf(),
        ensures
            final(self).wf(),
            final(self).data == old(self).data,
            match res {
                Ok(v) => text_at(old(self).data@, old(self).pos as int) == Ok::<
                    (Seq<char>, int),
                    ErrorView,
                >((v@, final(self).pos as int)),
                Err(e) => text_at(old(self).data@, old(self).pos as int) == Err::<
                    (Seq<char>, int),
                    ErrorView,
                >(e@),
            },
    {
        let len: usize = match self.u16() {
            Ok(v) => v as usize,
            Err(e) => {
                return Err(e);
            },
        };
        let start: usize = self.pos;
        match self.room(len) {
            Ok(()) => {},
            Err(e) => {
                return Err(e);
            },
        }
        let bytes = slice_subrange(self.data, start, start + len);
        self.pos = start + len;
        match utf8_text(bytes) {
            Some(s) => Ok(s),
            None => Err(Error::InvalidUtf8 { offset: start }),
        }
    }

    fn opt_string(&mut self) -> (res: Result<Option<String>, Error>)
        requires
            old(self).wf(),
        ensures
            final(self).wf(),
            final(self).data == old(self).data,
            match res {
                Ok(v) => opt_at(old(self).data@, old(self).pos as int) == Ok::<
                    (Option<Seq<char>>, int),
                    ErrorView,
                >((text::opt(v), final(self).pos as int)),
                Err(e) => opt_at(old(self).data@, old(self).pos as int) == Err::<
                    (Option<Seq<char>>, int),
                    ErrorView,
                >(e@),
            },
    {
        let tag_pos: usize = self.pos;
        let tag: u8 = match self.u8() {
            Ok(v) => v,
            Err(e) => {
                return Err(e);
            },
        };
        if tag == 0 {
            Ok(None)
        } else if tag == 1 {
            match self.string() {
                Ok(s) => Ok(Some(s)),
                Err(e) => Err(e),
            }
        } else {
            Err(Error::InvalidOptionalTag { tag, offset: tag_pos })
        }
    }

    /// A key, a gain and a mute.
    fn level(&mut self) -> (res: Result<(String, DeviceSettings), Error>)
        requires
            old(self).wf(),
        ensures
            final(self).wf(),
            final(self).data == old(self).data,
            match res {
                Ok(v) => level_at(old(self).data@, old(self).pos as int) == Ok::<
                    ((Seq<char>, DeviceSettings), int),
                    ErrorView,
                >(((v.0@, v.1), final(self).pos as int)),
                Err(e) => level_at(old(self).data@, old(self).pos as int) == Err::<
                    ((Seq<char>, DeviceSettings), int),
                    ErrorView,
                >(e@),
            },
    {
        let key: String = match self.string() {
            Ok(v) => v,
            Err(e) => {
                return Err(e);
            },
        };
        let bits: u32 = match self.u32() {
            Ok(v) => v,
            Err(e) => {
                return Err(e);
            },
        };
        let muted: bool = match self.u8() {
            Ok(v) => v != 0,
            Err(e) => {
                return Err(e);
            },
        };
        Ok((key, DeviceSettings { volume: Gain { bits }, muted }))
    }

    fn section_filter(&mut self) -> (res: Result<SectionFilter, Error>)
        requires
            old(self).wf(),
        ensures
            final(self).wf(),
            final(self).data == old(self).data,
            match res {
                Ok(v) => filter_at(old(self).data@, old(self).pos as int) == Ok::<
                    (SectionFilter, int),
                    ErrorView,
                >((v, final(self).pos as int)),
                Err(e) => filter_at(old(self).data@, old(self).pos as int) == Err::<
                    (SectionFilter, int),
                    ErrorView,
                >(e@),
            },
    {
        let outputs: bool = match self.u8() {
            Ok(v) => v != 0,
            Err(e) => {
                return Err(e);
            },
        };
        let inputs: bool = match self.u8() {
            Ok(v) => v != 0,
            Err(e) => {
                return Err(e);
            },
        };
        let apps: bool = match self.u8() {
            Ok(v) => v != 0,
            Err(e) => {
                return Err(e);
            },
        };
        Ok(SectionFilter { outputs, inputs, apps })
    }
}

proof fn device_list_stops(data: Seq<u8>, pos: int, m: int, n: int)
    requires
        m <= n,
        device_list_at(data, pos, m) is Err,
    ensures
        device_list_at(data, pos, n) == device_list_at(data, pos, m),
    decreases n - m,
{
    if m < n {
        device_list_stops(data, pos, m, n - 1);
    }
}

proof fn app_list_stops(data: Seq<u8>, pos: int, m: int, n: int)
    requires
        m <= n,
        app_list_at(data, pos, m) is Err,
    ensures
        app_list_at(data, pos, n) == app_list_at(data, pos, m),
    decreases n - m,
{
    if m < n {
        app_list_stops(data, pos, m, n - 1);
    }
}

proof fn profile_list_stops(data: Seq<u8>, pos: int, m: int, n: int)
    requires
        m <= n,
        profile_list_at(data, pos, m) is Err,
    ensures
        profile_list_at(data, pos, n) == profile_list_at(data, pos, m),
    decreases n - m,
{
    if m < n {
        profile_list_stops(data, pos, m, n - 1);
    }
}

fn read_device_map(r: &mut Reader) -> (res: Result<DeviceMap, Error>)
    requires
        old(r).wf(),
    ensures
        final(r).wf(),
        final(r).data == old(r).data,
        match res {
            Ok(v) => v.wf() && devices_at(old(r).data@, old(r).pos as int) == Ok::<
                (DeviceEntries, int),
                ErrorView,
            >((v@, final(r).pos as int)),
            Err(e) => devices_at(old(r).data@, old(r).pos as int) == Err::<
                (DeviceEntries, int),
                ErrorView,
            >(e@),
        },
{
    let ghost data = r.data@;
    let count: u32 = match r.u32() {
        Ok(v) => v,
        Err(e) => {
            return Err(e);
        },
    };
    let ghost start = r.pos as int;
    let mut map: DeviceMap = OrderedMap::new();
    let mut i: u32 = 0;
    while i < count
        invariant
            i <= count,
            r.wf(),
            r.data@ == data,
            r.data == old(r).data,
            data == old(r).data@,
            map.wf(),
            devices_at(data, old(r).pos as int) == device_list_at(data, start, count as int),
            device_list_at(data, start, i as int) == Ok::<(DeviceEntries, int), ErrorView>(
                (map@, r.pos as int),
            ),
        decreases count - i,
    {
        match r.level() {
            Ok((key, settings)) => {
                map.insert(key, settings);
            },
            Err(e) => {
                proof {
                    device_list_stops(data, start, i + 1, count as int);
                }
                return Err(e);
            },
        }
        i = i + 1;
    }
    Ok(map)
}

fn read_app_map(r: &mut Reader) -> (res: Result<AppMap, Error>)
    requires
        old(r).wf(),
    ensures
        final(r).wf(),
        final(r).data == old(r).data,
        match res {
            Ok(v) => v.wf() && apps_at(old(r).data@, old(r).pos as int) == Ok::<
                (AppEntries, int),
                ErrorView,
            >((v@, final(r).pos as int)),
            Err(e) => apps_at(old(r).data@, old(r).pos as int) == Err::<
                (AppEntries, int),
                ErrorView,
            >(e@),
        },
{
    let ghost data = r.data@;
    let count: u32 = match r.u32() {
        Ok(v) => v,
        Err(e) => {
            return Err(e);
        },
    };
    let ghost start = r.pos as int;
    let mut map: AppMap = OrderedMap::new();
    let mut i: u32 = 0;
    while i < count
        invariant
            i <= count,
            r.wf(),
            r.data@ == data,
            r.data == old(r).data,
            data == old(r).data@,
            map.wf(),
            apps_at(data, old(r).pos as int) == app_list_at(data, start, count as int),
            app_list_at(data, start, i as int) == Ok::<(AppEntries, int), ErrorView>(
                (map@, r.pos as int),
            ),
        decreases count - i,
    {
        let (key, level) = match r.level() {
            Ok(v) => v,
            Err(e) => {
                proof {
                    app_list_stops(data, start, i + 1, count as int);
                }
                return Err(e);
            },
        };
        let target_sink_name: Option<String> = match r.opt_string() {
            Ok(v) => v,
            Err(e) => {
                proof {
                    app_list_stops(data, start, i + 1, count as int);
                }
                return Err(e);
            },
        };
        map.insert(key, AppSettings { volume: level.volume, muted: level.muted, target_sink_name });
        i = i + 1;
    }
    Ok(map)
}

fn read_profile(r: &mut Reader) -> (res: Result<Profile, Error>)
    requires
        old(r).wf(),
    ensures
        final(r).wf(),
        final(r).data == old(r).data,
        match res {
            Ok(v) => v@.wf() && profile_at(old(r).data@, old(r).pos as int) == Ok::<
                (ProfileView, int),
                ErrorView,
            >((v@, final(r).pos as int)),
            Err(e) => profile_at(old(r).data@, old(r).pos as int) == Err::<
                (ProfileView, int),
                ErrorView,
            >(e@),
        },
{
    proof {
        reveal(profile_at);
    }
    let name: String = match r.string() {
        Ok(v) => v,
        Err(e) => {
            return Err(e);
        },
    };
    let default_sink: Option<String> = match r.opt_string() {
        Ok(v) => v,
        Err(e) => {
            return Err(e);
        },
    };
    let sinks: DeviceMap = match read_device_map(r) {
        Ok(v) => v,
        Err(e) => {
            return Err(e);
        },
    };
    let apps: AppMap = match read_app_map(r) {
        Ok(v) => v,
        Err(e) => {
            return Err(e);
        },
    };
    let default_source: Option<String> = match r.opt_string() {
        Ok(v) => v,
        Err(e) => {
            return Err(e);
        },
    };
    let sources: DeviceMap = match read_device_map(r) {
        Ok(v) => v,
        Err(e) => {
            return Err(e);
        },
    };
    let section_filter: SectionFilter = match r.section_filter() {
        Ok(v) => v,
        Err(e) => {
            return Err(e);
        },
    };
    Ok(Profile { name, sinks, apps, sources, default_sink, default_source, section_filter })
}

fn read_window(r: &mut Reader) -> (res: Result<Geometry, Error>)
    requires
        old(r).wf(),
        old(r).pos == 0,
    ensures
        final(r).wf(),
        final(r).data == old(r).data,
        match res {
            Ok(v) => window_at(old(r).data@) == Ok::<(Geometry, int), ErrorView>(
                (v, final(r).pos as int),
            ),
            Err(e) => window_at(old(r).data@) == Err::<(Geometry, int), ErrorView>(e@),
        },
{
    match r.room(4) {
        Ok(()) => {},
        Err(e) => {
            return Err(e);
        },
    }
    let (b0, b1, b2, b3) = (r.data[0], r.data[1], r.data[2], r.data[3]);
    let ghost head = r.data@.subrange(0, 4);
    if b0 != MAGIC[0] || b1 != MAGIC[1] || b2 != MAGIC[2] || b3 != MAGIC[3] {
        assert(head[0] == b0 && head[1] == b1 && head[2] == b2 && head[3] == b3);
        return Err(Error::InvalidMagic { b0, b1, b2, b3 });
    }
    assert(head =~= MAGIC@);
    r.pos = 4;
    let version: u8 = match r.u8() {
        Ok(v) => v,
        Err(e) => {
            return Err(e);
        },
    };
    if version != VERSION {
        return Err(Error::UnsupportedVersion { got: version, want: VERSION });
    }
    let width: u32 = match r.u32() {
        Ok(v) => v,
        Err(e) => {
            return Err(e);
        },
    };
    let height: u32 = match r.u32() {
        Ok(v) => v,
        Err(e) => {
            return Err(e);
        },
    };
    let maximized: bool = match r.u8() {
        Ok(v) => v != 0,
        Err(e) => {
            return Err(e);
        },
    };
    Ok(Geometry::clamped(width, height, maximized))
}

/// The state the bytes of a state file hold.
pub fn decode(data: &[u8]) -> (res: Result<State, Error>)
    ensures
        match res {
            Ok(state) => state@.profiles.wf() && state_at(data@) == Ok::<StateView, ErrorView>(
                state@,
            ),
            Err(e) => state_at(data@) == Err::<StateView, ErrorView>(e@),
        },
{
    let mut r = Reader { data, pos: 0 };
    let window: Geometry = match read_window(&mut r) {
        Ok(v) => v,
        Err(e) => {
            return Err(e);
        },
    };
    let ghost p1 = r.pos as int;
    let active: Option<String> = match r.opt_string() {
        Ok(v) => v,
        Err(e) => {
            return Err(e);
        },
    };
    let ghost p2 = r.pos as int;
    let count: u32 = match r.u32() {
        Ok(v) => v,
        Err(e) => {
            return Err(e);
        },
    };
    let ghost start = r.pos as int;
    let mut profiles: Vec<Profile> = Vec::new();
    let mut i: u32 = 0;
    assert(profile::profile_views(profiles@) =~= Seq::<ProfileView>::empty());
    while i < count
        invariant
            i <= count,
            r.wf(),
            r.data == data,
            window_at(data@) == Ok::<(Geometry, int), ErrorView>((window, p1)),
            opt_at(data@, p1) == Ok::<(Option<Seq<char>>, int), ErrorView>(
                (text::opt(active), p2),
            ),
            u32_at(data@, p2) == Ok::<(u32, int), ErrorView>((count, start)),
            profile_list_at(data@, start, i as int) == Ok::<(Seq<ProfileView>, int), ErrorView>(
                (profile::profile_views(profiles@), r.pos as int),
            ),
            forall|k: int| 0 <= k < profiles@.len() ==> (#[trigger] profiles@[k])@.wf(),
        decreases count - i,
    {
        let ghost before = profile::profile_views(profiles@);
        match read_profile(&mut r) {
            Ok(p) => {
                let ghost v = p@;
                profiles.push(p);
                assert(profile::profile_views(profiles@) =~= before.push(v));
            },
            Err(e) => {
                proof {
                    profile_list_stops(data@, start, i + 1, count as int);
                }
                return Err(e);
            },
        }
        i = i + 1;
    }
    if r.pos != r.data.len() {
        return Err(Error::TrailingBytes(r.data.len() - r.pos));
    }
    let store = ProfileStore { profiles, active };
    assert(store@.wf()) by {
        assert forall|k: int| 0 <= k < store@.profiles.len() implies (
        #[trigger] store@.profiles[k]).wf() by {
            assert(profiles@[k]@.wf());
        }
    }
    Ok(State { window, profiles: store })
}

// --- What is written reads back ----------------------------------------------------

/// `bytes` stand in `data` at `pos`.
spec fn stands(data: Seq<u8>, pos: int, bytes: Seq<u8>) -> bool {
    &&& 0 <= pos
    &&& pos + bytes.len() <= data.len() <= usize::MAX
    &&& data.subrange(pos, pos + bytes.len()) == bytes
}

/// What stands somewhere stands there part by part.
proof fn stands_split(data: Seq<u8>, pos: int, a: Seq<u8>, b: Seq<u8>)
    requires
        stands(data, pos, a + b),
    ensures
        stands(data, pos, a),
        stands(data, pos + a.len(), b),
{
    let all = data.subrange(pos, pos + (a + b).len());
    assert(data.subrange(pos, pos + a.len()) =~= all.subrange(0, a.len() as int));
    assert((a + b).subrange(0, a.len() as int) =~= a);
    assert(data.subrange(pos + a.len(), pos + a.len() + b.len()) =~= all.subrange(
        a.len() as int,
        (a + b).len() as int,
    ));
    assert((a + b).subrange(a.len() as int, (a + b).len() as int) =~= b);
}

/// The byte at an offset of what stands somewhere.
proof fn stands_byte(data: Seq<u8>, pos: int, bytes: Seq<u8>, k: int)
    requires
        stands(data, pos, bytes),
        0 <= k < bytes.len(),
    ensures
        data[pos + k] == bytes[k],
{
    assert(data.subrange(pos, pos + bytes.len())[k] == data[pos + k]);
}

proof fn word16_of_bytes(v: u16)
    by (bit_vector)
    ensures
        (v as u8) as u16 | (((v >> 8) as u8) as u16) << 8 == v,
{
}

proof fn word32_of_bytes(v: u32)
    by (bit_vector)
    ensures
        (v as u8) as u32 | (((v >> 8) as u8) as u32) << 8 | (((v >> 16) as u8) as u32) << 16 | (((v
            >> 24) as u8) as u32) << 24 == v,
{
}

proof fn reads_u8(data: Seq<u8>, pos: int, v: u8)
    requires
        stands(data, pos, seq![v]),
    ensures
        u8_at(data, pos) == Ok::<(u8, int), ErrorView>((v, pos + 1)),
{
    stands_byte(data, pos, seq![v], 0);
}

proof fn reads_u16(data: Seq<u8>, pos: int, v: u16)
    requires
        stands(data, pos, le16(v)),
    ensures
        u16_at(data, pos) == Ok::<(u16, int), ErrorView>((v, pos + 2)),
{
    stands_byte(data, pos, le16(v), 0);
    stands_byte(data, pos, le16(v), 1);
    word16_of_bytes(v);
}

proof fn reads_u32(data: Seq<u8>, pos: int, v: u32)
    requires
        stands(data, pos, le32(v)),
    ensures
        u32_at(data, pos) == Ok::<(u32, int), ErrorView>((v, pos + 4)),
{
    stands_byte(data, pos, le32(v), 0);
    stands_byte(data, pos, le32(v), 1);
    stands_byte(data, pos, le32(v), 2);
    stands_byte(data, pos, le32(v), 3);
    word32_of_bytes(v);
}

proof fn reads_text(data: Seq<u8>, pos: int, s: Seq<char>)
    requires
        text_bytes(s) is Ok,
        stands(data, pos, text_bytes(s)->Ok_0),
    ensures
        text_at(data, pos) == Ok::<(Seq<char>, int), ErrorView>(
            (s, pos + text_bytes(s)->Ok_0.len()),
        ),
{
    let bytes = encode_utf8(s);
    stands_split(data, pos, le16(bytes.len() as u16), bytes);
    reads_u16(data, pos, bytes.len() as u16);
    encode_utf8_valid_utf8(s);
    encode_utf8_decode_utf8(s);
}

proof fn reads_opt(data: Seq<u8>, pos: int, s: Option<Seq<char>>)
    requires
        opt_bytes(s) is Ok,
        stands(data, pos, opt_bytes(s)->Ok_0),
    ensures
        opt_at(data, pos) == Ok::<(Option<Seq<char>>, int), ErrorView>(
            (s, pos + opt_bytes(s)->Ok_0.len()),
        ),
{
    match s {
        None => {
            reads_u8(data, pos, 0);
        },
        Some(t) => {
            stands_split(data, pos, seq![1u8], text_bytes(t)->Ok_0);
            reads_u8(data, pos, 1);
            reads_text(data, pos + 1, t);
        },
    }
}

proof fn reads_level(data: Seq<u8>, pos: int, e: (Seq<char>, DeviceSettings))
    requires
        device_bytes(e) is Ok,
        stands(data, pos, device_bytes(e)->Ok_0),
    ensures
        level_at(data, pos) == Ok::<((Seq<char>, DeviceSettings), int), ErrorView>(
            (e, pos + device_bytes(e)->Ok_0.len()),
        ),
{
    let key = text_bytes(e.0)->Ok_0;
    let bits = le32(e.1.volume.bits);
    let muted = seq![flag_byte(e.1.muted)];
    stands_split(data, pos, key, bits + muted);
    stands_split(data, pos + key.len(), bits, muted);
    reads_text(data, pos, e.0);
    reads_u32(data, pos + key.len(), e.1.volume.bits);
    reads_u8(data, pos + key.len() + 4, flag_byte(e.1.muted));
}

/// Among ascending entries, putting the next one behind those before it.
proof fn put_next<V>(entries: Seq<(Seq<char>, V)>, n: int)
    requires
        ordered::ascending::<String, V>(entries),
        0 < n <= entries.len(),
    ensures
        ordered::put::<String, V>(entries.take(n - 1), entries[n - 1].0, entries[n - 1].1)
            == entries.take(n),
{
    let before = entries.take(n - 1);
    if n > 1 {
        assert(before.last() == entries[n - 2]);
        assert(text::text_before(entries[n - 2].0, entries[n - 1].0)) by {
            assert(<String as OrderedKey>::precedes(entries[n - 2].0, entries[n - 1].0));
        }
        text::text_before_irreflexive(entries[n - 1].0);
        assert(before.push(entries[n - 1]) =~= entries.take(n));
    } else {
        assert(seq![entries[0]] =~= entries.take(1));
    }
}

proof fn reads_device_list(data: Seq<u8>, pos: int, entries: DeviceEntries, n: int)
    requires
        ordered::ascending::<String, DeviceSettings>(entries),
        0 <= n <= entries.len(),
        device_list_bytes(entries, n) is Ok,
        stands(data, pos, device_list_bytes(entries, n)->Ok_0),
    ensures
        device_list_at(data, pos, n) == Ok::<(DeviceEntries, int), ErrorView>(
            (entries.take(n), pos + device_list_bytes(entries, n)->Ok_0.len()),
        ),
    decreases n,
{
    if n == 0 {
        assert(entries.take(0) =~= Seq::empty());
    } else {
        let before = device_list_bytes(entries, n - 1)->Ok_0;
        stands_split(data, pos, before, device_bytes(entries[n - 1])->Ok_0);
        reads_device_list(data, pos, entries, n - 1);
        reads_level(data, pos + before.len(), entries[n - 1]);
        put_next(entries, n);
    }
}

proof fn reads_devices(data: Seq<u8>, pos: int, profile: Seq<char>, entries: DeviceEntries)
    requires
        ordered::ascending::<String, DeviceSettings>(entries),
        devices_bytes(profile, entries) is Ok,
        stands(data, pos, devices_bytes(profile, entries)->Ok_0),
    ensures
        devices_at(data, pos) == Ok::<(DeviceEntries, int), ErrorView>(
            (entries, pos + devices_bytes(profile, entries)->Ok_0.len()),
        ),
{
    let n = entries.len() as int;
    stands_split(data, pos, le32(n as u32), device_list_bytes(entries, n)->Ok_0);
    reads_u32(data, pos, n as u32);
    reads_device_list(data, pos + 4, entries, n);
    assert(entries.take(n) =~= entries);
}

proof fn reads_app(data: Seq<u8>, pos: int, e: (Seq<char>, AppSettingsView))
    requires
        app_bytes(e) is Ok,
        stands(data, pos, app_bytes(e)->Ok_0),
    ensures
        app_at(data, pos) == Ok::<((Seq<char>, AppSettingsView), int), ErrorView>(
            (e, pos + app_bytes(e)->Ok_0.len()),
        ),
{
    let level = (e.0, DeviceSettings { volume: e.1.volume, muted: e.1.muted });
    let head = device_bytes(level)->Ok_0;
    stands_split(data, pos, head, opt_bytes(e.1.target_sink_name)->Ok_0);
    reads_level(data, pos, level);
    reads_opt(data, pos + head.len(), e.1.target_sink_name);
}

proof fn reads_app_list(data: Seq<u8>, pos: int, entries: AppEntries, n: int)
    requires
        ordered::ascending::<String, AppSettingsView>(entries),
        0 <= n <= entries.len(),
        app_list_bytes(entries, n) is Ok,
        stands(data, pos, app_list_bytes(entries, n)->Ok_0),
    ensures
        app_list_at(data, pos, n) == Ok::<(AppEntries, int), ErrorView>(
            (entries.take(n), pos + app_list_bytes(entries, n)->Ok_0.len()),
        ),
    decreases n,
{
    if n == 0 {
        assert(entries.take(0) =~= Seq::empty());
    } else {
        let before = app_list_bytes(entries, n - 1)->Ok_0;
        stands_split(data, pos, before, app_bytes(entries[n - 1])->Ok_0);
        reads_app_list(data, pos, entries, n - 1);
        reads_app(data, pos + before.len(), entries[n - 1]);
        put_next(entries, n);
    }
}

proof fn reads_apps(data: Seq<u8>, pos: int, profile: Seq<char>, entries: AppEntries)
    requires
        ordered::ascending::<String, AppSettingsView>(entries),
        apps_bytes(profile, entries) is Ok,
        stands(data, pos, apps_bytes(profile, entries)->Ok_0),
    ensures
        apps_at(data, pos) == Ok::<(AppEntries, int), ErrorView>(
            (entries, pos + apps_bytes(profile, entries)->Ok_0.len()),
        ),
{
    let n = entries.len() as int;
    stands_split(data, pos, le32(n as u32), app_list_bytes(entries, n)->Ok_0);
    reads_u32(data, pos, n as u32);
    reads_app_list(data, pos + 4, entries, n);
    assert(entries.take(n) =~= entries);
}

proof fn reads_filter(data: Seq<u8>, pos: int, f: SectionFilter)
    requires
        stands(data, pos, filter_bytes(f)),
    ensures
        filter_at(data, pos) == Ok::<(SectionFilter, int), ErrorView>((f, pos + 3)),
{
    stands_byte(data, pos, filter_bytes(f), 0);
    stands_byte(data, pos, filter_bytes(f), 1);
    stands_byte(data, pos, filter_bytes(f), 2);
}

/// A profile's page is its parts one behind the other.
proof fn page_parts(p: ProfileView)
    requires
        profile_bytes(p) is Ok,
    ensures
        text_bytes(p.name) is Ok,
        opt_bytes(p.default_sink) is Ok,
        devices_bytes(p.name, p.sinks) is Ok,
        apps_bytes(p.name, p.apps) is Ok,
        opt_bytes(p.default_source) is Ok,
        devices_bytes(p.name, p.sources) is Ok,
        profile_bytes(p)->Ok_0 == text_bytes(p.name)->Ok_0 + opt_bytes(p.default_sink)->Ok_0
            + devices_bytes(p.name, p.sinks)->Ok_0 + apps_bytes(p.name, p.apps)->Ok_0 + opt_bytes(
            p.default_source,
        )->Ok_0 + devices_bytes(p.name, p.sources)->Ok_0 + filter_bytes(p.section_filter),
{
    reveal(profile_bytes);
}

/// Seven stretches that stand in a file together stand there one by one.
proof fn stands_seven(
    data: Seq<u8>,
    pos: int,
    b1: Seq<u8>,
    b2: Seq<u8>,
    b3: Seq<u8>,
    b4: Seq<u8>,
    b5: Seq<u8>,
    b6: Seq<u8>,
    b7: Seq<u8>,
)
    requires
        stands(data, pos, b1 + b2 + b3 + b4 + b5 + b6 + b7),
    ensures
        stands(data, pos, b1),
        stands(data, pos + b1.len(), b2),
        stands(data, pos + b1.len() + b2.len(), b3),
        stands(data, pos + b1.len() + b2.len() + b3.len(), b4),
        stands(data, pos + b1.len() + b2.len() + b3.len() + b4.len(), b5),
        stands(data, pos + b1.len() + b2.len() + b3.len() + b4.len() + b5.len(), b6),
        stands(data, pos + b1.len() + b2.len() + b3.len() + b4.len() + b5.len() + b6.len(), b7),
{
    stands_split(data, pos, b1 + b2 + b3 + b4 + b5 + b6, b7);
    stands_split(data, pos, b1 + b2 + b3 + b4 + b5, b6);
    stands_split(data, pos, b1 + b2 + b3 + b4, b5);
    stands_split(data, pos, b1 + b2 + b3, b4);
    stands_split(data, pos, b1 + b2, b3);
    stands_split(data, pos, b1, b2);
}

/// A page's parts, read one behind the other.
proof fn reads_page(
    data: Seq<u8>,
    pos: int,
    p: ProfileView,
    p1: int,
    p2: int,
    p3: int,
    p4: int,
    p5: int,
    p6: int,
    p7: int,
)
    requires
        text_at(data, pos) == Ok::<(Seq<char>, int), ErrorView>((p.name, p1)),
        opt_at(data, p1) == Ok::<(Option<Seq<char>>, int), ErrorView>((p.default_sink, p2)),
        devices_at(data, p2) == Ok::<(DeviceEntries, int), ErrorView>((p.sinks, p3)),
        apps_at(data, p3) == Ok::<(AppEntries, int), ErrorView>((p.apps, p4)),
        opt_at(data, p4) == Ok::<(Option<Seq<char>>, int), ErrorView>((p.default_source, p5)),
        devices_at(data, p5) == Ok::<(DeviceEntries, int), ErrorView>((p.sources, p6)),
        filter_at(data, p6) == Ok::<(SectionFilter, int), ErrorView>((p.section_filter, p7)),
    ensures
        profile_at(data, pos) == Ok::<(ProfileView, int), ErrorView>((p, p7)),
{
    reveal(profile_at);
}

#[verifier::spinoff_prover]
proof fn reads_profile(data: Seq<u8>, pos: int, p: ProfileView)
    requires
        p.wf(),
        profile_bytes(p) is Ok,
        stands(data, pos, profile_bytes(p)->Ok_0),
    ensures
        profile_at(data, pos) == Ok::<(ProfileView, int), ErrorView>(
            (p, pos + profile_bytes(p)->Ok_0.len()),
        ),
{
    page_parts(p);
    let b1 = text_bytes(p.name)->Ok_0;
    let b2 = opt_bytes(p.default_sink)->Ok_0;
    let b3 = devices_bytes(p.name, p.sinks)->Ok_0;
    let b4 = apps_bytes(p.name, p.apps)->Ok_0;
    let b5 = opt_bytes(p.default_source)->Ok_0;
    let b6 = devices_bytes(p.name, p.sources)->Ok_0;
    let b7 = filter_bytes(p.section_filter);
    stands_seven(data, pos, b1, b2, b3, b4, b5, b6, b7);
    let p1 = pos + b1.len();
    let p2 = p1 + b2.len();
    let p3 = p2 + b3.len();
    let p4 = p3 + b4.len();
    let p5 = p4 + b5.len();
    let p6 = p5 + b6.len();
    reads_text(data, pos, p.name);
    reads_opt(data, p1, p.default_sink);
    reads_devices(data, p2, p.name, p.sinks);
    reads_apps(data, p3, p.name, p.apps);
    reads_opt(data, p4, p.default_source);
    reads_devices(data, p5, p.name, p.sources);
    reads_filter(data, p6, p.section_filter);
    reads_page(data, pos, p, p1, p2, p3, p4, p5, p6, p6 + 3);
}

proof fn reads_profile_list(data: Seq<u8>, pos: int, profiles: Seq<ProfileView>, n: int)
    requires
        0 <= n <= profiles.len(),
        forall|k: int| 0 <= k < profiles.len() ==> (#[trigger] profiles[k]).wf(),
        profile_list_bytes(profiles, n) is Ok,
        stands(data, pos, profile_list_bytes(profiles, n)->Ok_0),
    ensures
        profile_list_at(data, pos, n) == Ok::<(Seq<ProfileView>, int), ErrorView>(
            (profiles.take(n), pos + profile_list_bytes(profiles, n)->Ok_0.len()),
        ),
    decreases n,
{
    if n == 0 {
        assert(profiles.take(0) =~= Seq::empty());
    } else {
        let before = profile_list_bytes(profiles, n - 1)->Ok_0;
        stands_split(data, pos, before, profile_bytes(profiles[n - 1])->Ok_0);
        reads_profile_list(data, pos, profiles, n - 1);
        reads_profile(data, pos + before.len(), profiles[n - 1]);
        assert(profiles.take(n - 1).push(profiles[n - 1]) =~= profiles.take(n));
    }
}

proof fn reads_window(data: Seq<u8>, g: Geometry)
    requires
        stands(data, 0, window_bytes(g)),
    ensures
        window_at(data) == Ok::<(Geometry, int), ErrorView>((g.sane(), 14)),
{
    let w = le32(g.width);
    let h = le32(g.height);
    let m = seq![flag_byte(g.maximized)];
    stands_split(data, 0, MAGIC@ + seq![VERSION] + w + h, m);
    stands_split(data, 0, MAGIC@ + seq![VERSION] + w, h);
    stands_split(data, 0, MAGIC@ + seq![VERSION], w);
    stands_split(data, 0, MAGIC@, seq![VERSION]);
    reads_u8(data, 4, VERSION);
    reads_u32(data, 5, g.width);
    reads_u32(data, 9, g.height);
    reads_u8(data, 13, flag_byte(g.maximized));
}

/// A file is its header, the count of its pages and the pages.
proof fn file_parts(s: StateView)
    requires
        state_bytes(s) is Ok,
    ensures
        s.profiles.profiles.len() <= u32::MAX,
        opt_bytes(s.profiles.active) is Ok,
        profile_list_bytes(s.profiles.profiles, s.profiles.profiles.len() as int) is Ok,
        window_bytes(s.window).len() == 14,
        state_bytes(s)->Ok_0 == (window_bytes(s.window) + opt_bytes(s.profiles.active)->Ok_0) + (
        le32(s.profiles.profiles.len() as u32) + profile_list_bytes(
            s.profiles.profiles,
            s.profiles.profiles.len() as int,
        )->Ok_0),
{
}

/// A file's parts, read one behind the other.
proof fn reads_state(
    data: Seq<u8>,
    window: Geometry,
    active: Option<Seq<char>>,
    count: u32,
    profiles: Seq<ProfileView>,
    p1: int,
    p2: int,
    p3: int,
)
    requires
        window_at(data) == Ok::<(Geometry, int), ErrorView>((window, p1)),
        opt_at(data, p1) == Ok::<(Option<Seq<char>>, int), ErrorView>((active, p2)),
        u32_at(data, p2) == Ok::<(u32, int), ErrorView>((count, p3)),
        profile_list_at(data, p3, count as int) == Ok::<(Seq<ProfileView>, int), ErrorView>(
            (profiles, data.len() as int),
        ),
    ensures
        state_at(data) == Ok::<StateView, ErrorView>(
            StateView { window, profiles: ProfileStoreView { profiles, active } },
        ),
{
}

/// What is saved is what is read back after a restart: the profiles, the
/// active one and the window, its sides brought into the sane range.
#[verifier::spinoff_prover]
pub proof fn decode_undoes_encode(s: StateView)
    requires
        s.profiles.wf(),
        state_bytes(s) is Ok,
        state_bytes(s)->Ok_0.len() <= usize::MAX,
    ensures
        state_at(state_bytes(s)->Ok_0) == Ok::<StateView, ErrorView>(
            StateView { window: s.window.sane(), ..s },
        ),
{
    let data = state_bytes(s)->Ok_0;
    let n = s.profiles.profiles.len() as int;
    let window = window_bytes(s.window);
    let active = opt_bytes(s.profiles.active)->Ok_0;
    let pages = profile_list_bytes(s.profiles.profiles, n)->Ok_0;
    file_parts(s);
    let tail = le32(n as u32) + pages;
    assert(data.subrange(0, data.len() as int) =~= data);
    stands_split(data, 0, window + active, tail);
    stands_split(data, 0, window, active);
    stands_split(data, window.len() + active.len() as int, le32(n as u32), pages);
    reads_window(data, s.window);
    reads_opt(data, 14, s.profiles.active);
    let p2 = 14 + active.len() as int;
    reads_u32(data, p2, n as u32);
    reads_profile_list(data, p2 + 4, s.profiles.profiles, n);
    assert(s.profiles.profiles.take(n) =~= s.profiles.profiles);
    assert(p2 + 4 + pages.len() == data.len());
    reads_state(data, s.window.sane(), s.profiles.active, n as u32, s.profiles.profiles, 14, p2, p2 + 4);
}

} // verus!
