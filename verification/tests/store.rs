//! The state file.

use bnksound::domain::{Gain, SectionFilter};
use bnksound::geometry::Geometry;
use bnksound::profile::{AppSettings, DeviceSettings, Profile, ProfileStore};
use bnksound::store::{decode, encode, state_path, Error, State, MAGIC, VERSION};

fn g(v: f32) -> Gain {
    Gain { bits: v.to_bits() }
}

fn sample_state() -> State {
    let mut p = Profile {
        name: "Work".into(),
        default_sink: Some("alsa_output.usb".into()),
        default_source: Some("alsa_input.xlr".into()),
        section_filter: SectionFilter {
            outputs: true,
            inputs: false,
            apps: true,
        },
        ..Profile::default()
    };
    p.sinks.insert(
        "alsa_output.usb".into(),
        DeviceSettings {
            volume: g(0.75),
            muted: false,
        },
    );
    p.apps.insert(
        "bin:firefox".into(),
        AppSettings {
            volume: g(0.5),
            muted: true,
            target_sink_name: Some("bluez_output.headset".into()),
        },
    );
    p.sources.insert(
        "alsa_input.xlr".into(),
        DeviceSettings {
            volume: g(0.6),
            muted: true,
        },
    );
    State {
        window: Geometry {
            width: 1024,
            height: 768,
            maximized: true,
        },
        profiles: ProfileStore {
            profiles: vec![p],
            active: Some("Work".into()),
        },
    }
}

#[test]
fn empty_state_round_trips() {
    let bytes = encode(&State::default()).expect("encode");
    let loaded = decode(&bytes).expect("decode");
    assert_eq!(loaded, State::default());
}

#[test]
fn full_state_round_trips() {
    let original = sample_state();
    let bytes = encode(&original).expect("encode");
    let loaded = decode(&bytes).expect("decode");
    assert_eq!(loaded, original);
}

#[test]
fn section_filter_survives_round_trip() {
    let original = sample_state();
    let loaded = decode(&encode(&original).expect("encode")).expect("decode");
    let sf = loaded.profiles.profiles[0].section_filter;
    assert!(sf.outputs);
    assert!(!sf.inputs);
    assert!(sf.apps);
}

#[test]
fn window_geometry_survives_round_trip() {
    let loaded = decode(&encode(&sample_state()).expect("encode")).expect("decode");
    assert_eq!(loaded.window.width, 1024);
    assert_eq!(loaded.window.height, 768);
    assert!(loaded.window.maximized);
}

#[test]
fn encode_starts_with_magic_and_version() {
    let bytes = encode(&State::default()).expect("encode");
    assert_eq!(bytes[0..4], MAGIC);
    assert_eq!(bytes[4], VERSION);
}

#[test]
fn decode_rejects_bad_magic() {
    let mut bytes = encode(&State::default()).expect("encode");
    bytes[0] = b'X';
    let err = decode(&bytes).unwrap_err();
    assert!(err.message().contains("invalid state magic"));
}

#[test]
fn decode_rejects_unknown_version() {
    let mut bytes = encode(&State::default()).expect("encode");
    bytes[4] = 99;
    let err = decode(&bytes).unwrap_err();
    assert!(err.message().contains("unsupported state version"));
}

#[test]
fn decode_rejects_truncated_input() {
    let bytes = encode(&sample_state()).expect("encode");
    let err = decode(&bytes[..bytes.len() - 2]).unwrap_err();
    assert!(err.message().contains("unexpected end of state data"));
}

#[test]
fn decode_rejects_trailing_garbage() {
    let mut bytes = encode(&State::default()).expect("encode");
    bytes.push(0xAA);
    let err = decode(&bytes).unwrap_err();
    assert!(err.message().contains("trailing 1 bytes"));
}

#[test]
fn decode_clamps_corrupt_window_dims() {
    let s = State {
        window: Geometry {
            width: 5,
            height: 999_999,
            maximized: false,
        },
        ..State::default()
    };
    let loaded = decode(&encode(&s).expect("encode")).expect("decode");
    // Clamped into the sane range by `Geometry::clamped`.
    assert!(loaded.window.width >= 200);
    assert!(loaded.window.height <= 8192);
}

#[test]
fn round_trip_preserves_unicode_keys() {
    let mut p = Profile {
        name: "Café ☕".into(),
        ..Profile::default()
    };
    p.sinks.insert(
        "alsa_output.日本語".into(),
        DeviceSettings {
            volume: g(0.42),
            muted: true,
        },
    );
    let original = State {
        window: Geometry::default(),
        profiles: ProfileStore {
            profiles: vec![p],
            active: Some("Café ☕".into()),
        },
    };
    let loaded = decode(&encode(&original).expect("encode")).expect("decode");
    assert_eq!(loaded, original);
}

#[test]
fn the_file_lies_in_the_data_directory() {
    assert_eq!(state_path(None), None);
    assert_eq!(
        state_path(Some("/home/x/.config/bnksound")),
        Some(String::from("/home/x/.config/bnksound/state.bin"))
    );
}

/// Text that is no text is refused, wherever in the file it stands.
#[test]
fn decode_rejects_text_that_is_not_utf8() {
    let bytes = encode(&sample_state()).expect("encode");
    let at = bytes
        .windows(4)
        .position(|w| w == b"Work")
        .expect("the name is in there");
    let mut broken = bytes.clone();
    broken[at] = 0xff;
    assert!(decode(&broken).is_err());
}

#[test]
fn every_shorter_file_is_refused() {
    let bytes = encode(&sample_state()).expect("encode");
    for n in 0..bytes.len() {
        assert!(decode(&bytes[..n]).is_err(), "{n} bytes");
    }
}

#[test]
fn a_name_too_long_to_count_is_refused() {
    let mut s = sample_state();
    s.profiles.profiles[0].name = "x".repeat(70_000);
    let err = encode(&s).unwrap_err();
    assert!(!err.message().is_empty());
}

#[test]
fn every_cut_of_a_file_ends_unexpectedly() {
    let bytes = encode(&sample_state()).expect("encode");
    for n in 0..bytes.len() {
        match decode(&bytes[..n]) {
            Err(Error::UnexpectedEnd { .. }) => {}
            other => panic!("{n} of {} bytes: {other:?}", bytes.len()),
        }
    }
    assert_eq!(decode(&bytes).expect("decode"), sample_state());
}

#[test]
fn bytes_behind_a_file_are_counted() {
    for extra in [1, 2, 17, 300] {
        let mut bytes = encode(&sample_state()).expect("encode");
        bytes.extend(vec![0; extra]);
        match decode(&bytes) {
            Err(Error::TrailingBytes(n)) => assert_eq!(n, extra),
            other => panic!("{extra} bytes too many: {other:?}"),
        }
    }
}
