//! Streams collapsed into application rows.
use bnksound::domain::{Gain, Stream, StreamKind};
use bnksound::ordered::TextSet;
use bnksound::view::app_group::{group_app_streams, render_plan, RenderedAppRow};
use bnksound::view::rows::{Level, Levels};
use std::collections::{BTreeMap, HashSet};

fn app_stream(id: u32) -> Stream {
    Stream {
        name: format!("stream-{id}"),
        id,
        kind: StreamKind::Application,
        app_id: None,
        binary: None,
        pid: None,
        node_name: None,
        media_name: None,
        media_role: None,
        volume: Gain { bits: 0.5f32.to_bits() },
        muted: false,
        xdg: None,
        form: None,
        is_default: false,
        target_sink_name: None,
    }
}


/// The levels of some streams without titles.
fn levels(streams: &[(u32, f32)]) -> Levels {
    let mut levels = Levels::new();
    for (id, cubic) in streams {
        levels.insert(
            *id,
            Level {
                cubic: Gain { bits: cubic.to_bits() },
                title: None,
            },
        );
    }
    levels
}

/// The levels of some streams that all go by one title.
fn titled(ids: &[u32], title: &str) -> Levels {
    let mut levels = Levels::new();
    for id in ids {
        levels.insert(
            *id,
            Level {
                cubic: Gain { bits: 0 },
                title: Some(title.to_string()),
            },
        );
    }
    levels
}

fn set(keys: &[&str]) -> TextSet {
    let mut set = TextSet::new();
    for key in keys {
        set.insert(key.to_string());
    }
    set
}

#[test]
fn groups_streams_by_identity_and_keeps_singletons_apart() {
    let mut a = app_stream(1);
    a.app_id = Some("com.spotify.Client".into());
    let mut b = app_stream(2);
    b.app_id = Some("com.spotify.Client".into());
    let c = app_stream(3); // no identity -> node:3

    let streams = vec![&a, &b, &c];
    let groups = group_app_streams(&streams, &BTreeMap::new());

    assert_eq!(groups.len(), 2);
    let spotify = groups
        .iter()
        .find(|g| g.key == "app:com.spotify.Client")
        .expect("spotify group");
    assert_eq!(spotify.members.len(), 2);
    assert!(groups.iter().any(|g| g.key == "node:3"));
}

#[test]
fn columns_sort_by_earliest_member_seq() {
    // Two singleton groups; app_order assigns the later id the earlier seq,
    // so it must sort ahead of the lower-id group.
    let mut early = app_stream(10);
    early.app_id = Some("app:early".into());
    let mut late = app_stream(5);
    late.app_id = Some("app:late".into());

    let mut order = BTreeMap::new();
    order.insert(10, 1u64); // seen first
    order.insert(5, 2u64); // seen second

    let streams = vec![&late, &early];
    let groups = group_app_streams(&streams, &order);
    let keys: Vec<&str> = groups.iter().map(|g| g.key.as_str()).collect();
    assert_eq!(keys, vec!["app:app:early", "app:app:late"]);
}

#[test]
fn render_plan_emits_member_rows_only_when_expanded_multi_member() {
    let mut a = app_stream(1);
    a.app_id = Some("app:x".into());
    let mut b = app_stream(2);
    b.app_id = Some("app:x".into());
    let streams = vec![&a, &b];
    let groups = group_app_streams(&streams, &BTreeMap::new());
    let key = groups[0].key.clone();

    // Collapsed: one group row, no members.
    let (rows, routes) = render_plan(&groups, &TextSet::new());
    assert_eq!(rows.len(), 1);
    assert!(matches!(
        rows[0],
        RenderedAppRow::Group {
            expanded: false,
            ..
        }
    ));
    // Both nodes route to the group, no member sub-row.
    assert_eq!(routes.get(&1).unwrap().group_key, key);
    assert!(!routes.get(&1).unwrap().has_member_row);
    assert!(!routes.get(&2).unwrap().has_member_row);

    // Expanded: group row + one member row per stream, in member order.
    let expanded = set(&[&key]);
    let (rows, routes) = render_plan(&groups, &expanded);
    assert_eq!(rows.len(), 3);
    assert!(
        matches!(&rows[0], RenderedAppRow::Group { group, expanded: true } if group.key == key)
    );
    assert!(matches!(&rows[1], RenderedAppRow::Member { stream } if stream.id == 1));
    assert!(matches!(&rows[2], RenderedAppRow::Member { stream } if stream.id == 2));
    assert!(routes.get(&1).unwrap().has_member_row);
    assert!(routes.get(&2).unwrap().has_member_row);
}

#[test]
fn render_plan_never_expands_single_member_group() {
    let mut a = app_stream(1);
    a.app_id = Some("app:solo".into());
    let streams = vec![&a];
    let groups = group_app_streams(&streams, &BTreeMap::new());
    // Even with the key marked expanded, a 1-member group stays collapsed.
    let expanded = set(&[&groups[0].key]);
    let (rows, routes) = render_plan(&groups, &expanded);
    assert_eq!(rows.len(), 1);
    assert!(!routes.get(&1).unwrap().has_member_row);
}

#[test]
fn to_info_master_cubic_is_max_of_members() {
    let mut quiet = app_stream(1);
    quiet.app_id = Some("app:x".into());
    quiet.volume = Gain { bits: 0.25f32.to_bits() };
    let mut loud = app_stream(2);
    loud.app_id = Some("app:x".into());
    loud.volume = Gain { bits: 0.75f32.to_bits() };

    let streams = vec![&quiet, &loud];
    let groups = group_app_streams(&streams, &BTreeMap::new());
    let levels = levels(&[(1, 0.25f32.cbrt()), (2, 0.75f32.cbrt())]);
    let info = groups[0].to_info(&HashSet::new(), false, &levels);
    assert_eq!(info.master_cubic.bits, 0.75f32.cbrt().to_bits());
    assert_eq!(info.member_count, 2);
}

#[test]
fn to_info_all_muted_requires_every_member() {
    let mut a = app_stream(1);
    a.app_id = Some("app:x".into());
    a.muted = true;
    let mut b = app_stream(2);
    b.app_id = Some("app:x".into());
    b.muted = false;

    let streams = vec![&a, &b];
    let groups = group_app_streams(&streams, &BTreeMap::new());
    assert!(
        !groups[0]
            .to_info(&HashSet::new(), false, &levels(&[]))
            .all_muted
    );

    b.muted = true;
    let streams = vec![&a, &b];
    let groups = group_app_streams(&streams, &BTreeMap::new());
    assert!(
        groups[0]
            .to_info(&HashSet::new(), false, &levels(&[]))
            .all_muted
    );
}

#[test]
fn to_info_effective_target_only_when_members_share_a_pin() {
    let mut a = app_stream(1);
    a.app_id = Some("app:x".into());
    a.target_sink_name = Some("hdmi".into());
    let mut b = app_stream(2);
    b.app_id = Some("app:x".into());
    b.target_sink_name = Some("hdmi".into());

    let groups = group_app_streams(&vec![&a, &b], &BTreeMap::new());
    assert_eq!(
        groups[0]
            .to_info(&HashSet::new(), false, &levels(&[]))
            .effective_target
            .as_deref(),
        Some("hdmi")
    );

    // Diverging pins collapse to None (autoroute stays active).
    b.target_sink_name = Some("usb".into());
    let groups = group_app_streams(&vec![&a, &b], &BTreeMap::new());
    assert_eq!(
        groups[0]
            .to_info(&HashSet::new(), false, &levels(&[]))
            .effective_target,
        None
    );
}

#[test]
fn to_info_enriches_single_member_with_resolved_title() {
    let mut solo = app_stream(1);
    solo.app_id = Some("app:player".into());
    solo.pid = Some(4242);

    let groups = group_app_streams(&vec![&solo], &BTreeMap::new());
    let info = groups[0].to_info(&HashSet::new(), false, &titled(&[1], "Spotify · Track"));
    assert_eq!(info.display_name, "Spotify · Track");
}

#[test]
fn to_info_ignores_title_for_multi_member_groups() {
    let mut a = app_stream(1);
    a.app_id = Some("app:browser".into());
    a.pid = Some(10);
    a.name = "Firefox".into();
    let mut b = app_stream(2);
    b.app_id = Some("app:browser".into());
    b.pid = Some(11);

    let groups = group_app_streams(&vec![&a, &b], &BTreeMap::new());
    // A title would mislabel a 2-tab group, so it's never consulted.
    let info = groups[0].to_info(&HashSet::new(), false, &titled(&[1, 2], "One Tab"));
    assert_eq!(info.display_name, "Firefox");
}

#[test]
fn groups_of_one_rank_stand_by_key() {
    let mut b = app_stream(7);
    b.app_id = Some("org.b".into());
    let mut a = app_stream(7);
    a.app_id = Some("org.a".into());
    for streams in [vec![&a, &b], vec![&b, &a]] {
        let groups = group_app_streams(&streams, &BTreeMap::new());
        assert_eq!(groups.len(), 2);
        assert!(groups[0].key < groups[1].key, "{} {}", groups[0].key, groups[1].key);
    }
}

#[test]
fn a_master_is_never_below_nothing() {
    let mut a = app_stream(1);
    a.app_id = Some("app:x".into());
    let mut b = app_stream(2);
    b.app_id = Some("app:x".into());
    let streams = vec![&a, &b];
    let groups = group_app_streams(&streams, &BTreeMap::new());
    for (x, y) in [
        (-0.5, -0.25),
        (-0.5, 0.25),
        (f32::NAN, 0.5),
        (0.5, -f32::NAN),
        (f32::NAN, f32::NAN),
        (f32::NEG_INFINITY, 1.5),
    ] {
        let info = groups[0].to_info(&HashSet::new(), false, &levels(&[(1, x), (2, y)]));
        let want = 0.0f32.max(x).max(y);
        assert_eq!(info.master_cubic.bits, want.to_bits(), "{x} {y}");
    }
}
