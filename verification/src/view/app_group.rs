//! App-stream grouping: collapse the streams of one process into a single
//! column, order the columns, and flatten each group into the rows the view
//! renders. Pure data transforms over [`crate::domain::Stream`].

use crate::domain::{Gain, Stream, StreamView};
use crate::gain;
use crate::gain::is_greater;
use crate::ordered;
use crate::ordered::{OrderedMap, TextSet};
use crate::state::app_row_key;
use crate::text;
use crate::text::{clone_opt, is_before, same_opt, same_text};
use crate::view::rows::{AppRowInfo, InfoModel, LevelEntries, Levels};
use std::collections::{BTreeMap, HashSet};
use vstd::prelude::*;
use vstd::string::*;

verus! {

broadcast use {
    vstd::std_specs::btree::group_btree_axioms,
    vstd::std_specs::hash::group_hash_axioms,
};

/// One collapsed app row: every stream sharing a row key lands in the same
/// group.
pub struct AppRowGroup<'a> {
    pub key: String,
    pub members: Vec<&'a Stream>,
}

#[verifier::ext_equal]
pub struct GroupModel {
    pub key: Seq<char>,
    pub members: Seq<StreamView>,
}

pub open spec fn stream_views(list: Seq<&Stream>) -> Seq<StreamView> {
    Seq::new(list.len(), |i: int| list[i]@)
}

impl<'a> View for AppRowGroup<'a> {
    type V = GroupModel;

    open spec fn view(&self) -> GroupModel {
        GroupModel { key: self.key@, members: stream_views(self.members@) }
    }
}

pub open spec fn group_views(groups: Seq<AppRowGroup>) -> Seq<GroupModel> {
    Seq::new(groups.len(), |i: int| groups[i]@)
}

// --- Buckets -------------------------------------------------------------------------

/// Where the group with a key stands.
pub open spec fn find_group(groups: Seq<GroupModel>, key: Seq<char>) -> Option<int>
    decreases groups.len(),
{
    if groups.len() == 0 {
        None
    } else if groups.last().key == key {
        Some(groups.len() - 1)
    } else {
        find_group(groups.drop_last(), key)
    }
}

/// Groups with one more stream: in the group of its row, or in a new one.
pub open spec fn joined(groups: Seq<GroupModel>, s: StreamView) -> Seq<GroupModel> {
    match find_group(groups, s.row_key()) {
        Some(i) => groups.update(
            i,
            GroupModel { key: groups[i].key, members: groups[i].members.push(s) },
        ),
        None => groups.push(GroupModel { key: s.row_key(), members: seq![s] }),
    }
}

/// The first `n` streams, bucketed by row.
pub open spec fn bucketed(list: Seq<StreamView>, n: int) -> Seq<GroupModel>
    decreases n,
{
    if n <= 0 {
        Seq::empty()
    } else {
        joined(bucketed(list, n - 1), list[n - 1])
    }
}

// --- Order ---------------------------------------------------------------------------

/// When a stream was first seen; last of all where nobody kept count.
pub open spec fn seen(order: Map<u32, u64>, id: u32) -> u64 {
    if order.contains_key(id) {
        order[id]
    } else {
        u64::MAX
    }
}

/// The earliest of the first `n` members to have been seen.
pub open spec fn earliest(members: Seq<StreamView>, order: Map<u32, u64>, n: int) -> u64
    decreases n,
{
    if n <= 0 {
        u64::MAX
    } else {
        let rest = earliest(members, order, n - 1);
        let one = seen(order, members[n - 1].id);
        if one < rest {
            one
        } else {
            rest
        }
    }
}

/// The lowest id of the first `n` members.
pub open spec fn lowest(members: Seq<StreamView>, n: int) -> u32
    decreases n,
{
    if n <= 0 {
        u32::MAX
    } else {
        let rest = lowest(members, n - 1);
        let one = members[n - 1].id;
        if one < rest {
            one
        } else {
            rest
        }
    }
}

/// What orders a group among the others: earliest first-seen seq among members,
/// so the group stays put across pause/reconnect (the reconnect inherits the seq
/// via the tombstone path), then lowest id.
pub open spec fn rank(g: GroupModel, order: Map<u32, u64>) -> (u64, u32) {
    (
        earliest(g.members, order, g.members.len() as int),
        lowest(g.members, g.members.len() as int),
    )
}

pub open spec fn ranks_before(a: (u64, u32), b: (u64, u32)) -> bool {
    a.0 < b.0 || (a.0 == b.0 && a.1 < b.1)
}

/// Whether a group's column stands before another's: by rank, and among equals by
/// key.
pub open spec fn stands_before(a: GroupModel, b: GroupModel, order: Map<u32, u64>) -> bool {
    ranks_before(rank(a, order), rank(b, order)) || (rank(a, order) == rank(b, order)
        && text::text_before(a.key, b.key))
}

/// Ordered groups with one more in its place.
pub open spec fn placed(groups: Seq<GroupModel>, g: GroupModel, order: Map<u32, u64>) -> Seq<
    GroupModel,
>
    decreases groups.len(),
{
    if groups.len() == 0 || !stands_before(g, groups.last(), order) {
        groups.push(g)
    } else {
        placed(groups.drop_last(), g, order).push(groups.last())
    }
}

/// The first `n` groups in order.
pub open spec fn arranged(groups: Seq<GroupModel>, order: Map<u32, u64>, n: int) -> Seq<GroupModel>
    decreases n,
{
    if n <= 0 {
        Seq::empty()
    } else {
        placed(arranged(groups, order, n - 1), groups[n - 1], order)
    }
}

/// The columns application streams collapse into, in order.
pub open spec fn columns(list: Seq<StreamView>, order: Map<u32, u64>) -> Seq<GroupModel> {
    let groups = bucketed(list, list.len() as int);
    arranged(groups, order, groups.len() as int)
}

proof fn placed_at(groups: Seq<GroupModel>, g: GroupModel, order: Map<u32, u64>, at: int)
    requires
        0 <= at <= groups.len(),
        forall|k: int|
            at <= k < groups.len() ==> stands_before(g, #[trigger] groups[k], order),
        at > 0 ==> !stands_before(g, groups[at - 1], order),
    ensures
        placed(groups, g, order) == groups.insert(at, g),
    decreases groups.len(),
{
    if at == groups.len() {
        assert(groups.push(g) =~= groups.insert(at, g));
    } else {
        let rest = groups.drop_last();
        assert(groups.last() == groups[groups.len() - 1]);
        assert forall|k: int| at <= k < rest.len() implies stands_before(
            g,
            #[trigger] rest[k],
            order,
        ) by {
            assert(rest[k] == groups[k]);
        }
        placed_at(rest, g, order, at);
        assert(rest.insert(at, g).push(groups.last()) =~= groups.insert(at, g));
    }
}

proof fn find_group_at(groups: Seq<GroupModel>, key: Seq<char>)
    ensures
        match find_group(groups, key) {
            Some(i) => 0 <= i < groups.len() && groups[i].key == key,
            None => forall|i: int| 0 <= i < groups.len() ==> (#[trigger] groups[i]).key != key,
        },
    decreases groups.len(),
{
    if groups.len() > 0 && groups.last().key != key {
        find_group_at(groups.drop_last(), key);
        if find_group(groups, key) is None {
            assert forall|i: int| 0 <= i < groups.len() implies (#[trigger] groups[i]).key
                != key by {
                if i < groups.len() - 1 {
                    assert(groups.drop_last()[i] == groups[i]);
                }
            }
        }
    }
}

/// Keys occur once.
pub open spec fn keys_once(groups: Seq<GroupModel>) -> bool {
    forall|i: int, j: int|
        0 <= i < j < groups.len() ==> (#[trigger] groups[i]).key != (#[trigger] groups[j]).key
}

impl<'a> AppRowGroup<'a> {
    /// What orders the group among the others.
    fn sort_key(&self, app_order: &BTreeMap<u32, u64>) -> (key: (u64, u32))
        ensures
            key == rank(self@, app_order@),
    {
        let mut min_seq: u64 = u64::MAX;
        let mut min_id: u32 = u32::MAX;
        let mut i: usize = 0;
        while i < self.members.len()
            invariant
                i <= self.members@.len(),
                min_seq == earliest(self@.members, app_order@, i as int),
                min_id == lowest(self@.members, i as int),
            decreases self.members@.len() - i,
        {
            let id: u32 = self.members[i].id;
            assert(self@.members[i as int].id == id);
            let seq: u64 = match app_order.get(&id) {
                Some(seq) => *seq,
                None => u64::MAX,
            };
            if seq < min_seq {
                min_seq = seq;
            }
            if id < min_id {
                min_id = id;
            }
            i = i + 1;
        }
        (min_seq, min_id)
    }
}

/// Whether a group of rank `key` stands before another.
fn comes_first(
    g: &AppRowGroup,
    key: (u64, u32),
    other: &AppRowGroup,
    app_order: &BTreeMap<u32, u64>,
) -> (first: bool)
    requires
        key == rank(g@, app_order@),
    ensures
        first == stands_before(g@, other@, app_order@),
{
    let (seq, id): (u64, u32) = other.sort_key(app_order);
    key.0 < seq || (key.0 == seq && (key.1 < id || (key.1 == id && is_before(
        g.key.as_str(),
        other.key.as_str(),
    ))))
}

/// Bucket application streams into columns keyed by row, then order the columns
/// by earliest first-seen seq among members so the strip stays put across
/// pause/reconnect (seqless groups sink to the right).
pub fn group_app_streams<'a>(
    app_streams: &Vec<&'a Stream>,
    app_order: &BTreeMap<u32, u64>,
) -> (groups: Vec<AppRowGroup<'a>>)
    ensures
        group_views(groups@) == columns(stream_views(app_streams@), app_order@),
{
    let buckets = bucket(app_streams);
    arrange(buckets, app_order)
}

fn bucket<'a>(app_streams: &Vec<&'a Stream>) -> (groups: Vec<AppRowGroup<'a>>)
    ensures
        group_views(groups@) == bucketed(
            stream_views(app_streams@),
            app_streams@.len() as int,
        ),
{
    let ghost list = stream_views(app_streams@);
    let mut groups: Vec<AppRowGroup<'a>> = Vec::new();
    let mut i: usize = 0;
    assert(group_views(groups@) =~= Seq::<GroupModel>::empty());
    while i < app_streams.len()
        invariant
            i <= app_streams@.len(),
            list == stream_views(app_streams@),
            group_views(groups@) == bucketed(list, i as int),
        decreases app_streams@.len() - i,
    {
        let s: &'a Stream = app_streams[i];
        let ghost before = group_views(groups@);
        assert(list[i as int] == s@);
        let key = app_row_key(s);
        match position(&groups, key.as_str()) {
            Some(at) => {
                let ghost old_group = groups@[at as int]@;
                let group = &mut groups[at];
                group.members.push(s);
                proof {
                    let now = groups@[at as int]@;
                    assert(now.members =~= old_group.members.push(s@));
                    assert(group_views(groups@) =~= before.update(at as int, now));
                }
            },
            None => {
                let mut members: Vec<&'a Stream> = Vec::new();
                members.push(s);
                let group = AppRowGroup { key, members };
                assert(group@.members =~= seq![s@]);
                let ghost model = group@;
                groups.push(group);
                assert(group_views(groups@) =~= before.push(model));
            },
        }
        i = i + 1;
    }
    groups
}

/// Where the group with a key stands.
fn position(groups: &Vec<AppRowGroup>, key: &str) -> (at: Option<usize>)
    ensures
        match at {
            Some(i) => find_group(group_views(groups@), key@) == Some(i as int) && i
                < groups@.len(),
            None => find_group(group_views(groups@), key@) is None,
        },
{
    let ghost all = group_views(groups@);
    let mut i: usize = groups.len();
    assert(all.take(i as int) =~= all);
    while i > 0
        invariant
            i <= groups@.len(),
            all == group_views(groups@),
            find_group(all, key@) == find_group(all.take(i as int), key@),
        decreases i,
    {
        assert(all.take(i as int).last() == groups@[i - 1]@);
        assert(all.take(i as int).drop_last() =~= all.take(i - 1));
        if same_text(groups[i - 1].key.as_str(), key) {
            return Some(i - 1);
        }
        i = i - 1;
    }
    None
}

fn arrange<'a>(groups: Vec<AppRowGroup<'a>>, app_order: &BTreeMap<u32, u64>) -> (out: Vec<
    AppRowGroup<'a>,
>)
    ensures
        group_views(out@) == arranged(
            group_views(groups@),
            app_order@,
            groups@.len() as int,
        ),
{
    let ghost all = group_views(groups@);
    let ghost order = app_order@;
    let mut rest = groups;
    let mut out: Vec<AppRowGroup<'a>> = Vec::new();
    let ghost mut n: int = 0;
    assert(group_views(out@) =~= Seq::<GroupModel>::empty());
    assert(all.skip(0) =~= all);
    while rest.len() > 0
        invariant
            0 <= n <= all.len(),
            n + rest@.len() == all.len(),
            order == app_order@,
            group_views(rest@) == all.skip(n),
            group_views(out@) == arranged(all, order, n),
        decreases rest@.len(),
    {
        let ghost before = group_views(rest@);
        let g = rest.remove(0);
        assert(g@ == before[0] && before[0] == all[n]);
        assert forall|k: int| 0 <= k < rest@.len() implies #[trigger] rest@[k]@ == all.skip(
            n + 1,
        )[k] by {
            assert(before[k + 1] == all.skip(n)[k + 1]);
        }
        assert(group_views(rest@) =~= all.skip(n + 1));
        let key = g.sort_key(app_order);
        let ghost sorted = group_views(out@);
        let mut at: usize = out.len();
        while at > 0 && comes_first(&g, key, &out[at - 1], app_order)
            invariant
                at <= out@.len(),
                order == app_order@,
                sorted == group_views(out@),
                key == rank(g@, order),
                forall|k: int|
                    at <= k < sorted.len() ==> stands_before(g@, #[trigger] sorted[k], order),
            decreases at,
        {
            assert(sorted[at - 1] == out@[at - 1]@);
            at = at - 1;
        }
        proof {
            if at > 0 {
                assert(sorted[at - 1] == out@[at - 1]@);
            }
            placed_at(sorted, g@, order, at as int);
        }
        let ghost model = g@;
        out.insert(at, g);
        proof {
            assert(group_views(out@) =~= sorted.insert(at as int, model));
            n = n + 1;
        }
    }
    out
}

// --- What a group adds up to ----------------------------------------------------------

pub open spec fn cubic_of(levels: LevelEntries, id: u32) -> Gain {
    match ordered::lookup(levels, id) {
        Some(level) => level.cubic,
        None => Gain { bits: 0 },
    }
}

pub open spec fn title_of(levels: LevelEntries, id: u32) -> Option<Seq<char>> {
    match ordered::lookup(levels, id) {
        Some(level) => level.title,
        None => None,
    }
}

/// The loudest of the first `n` members.
pub open spec fn loudest(members: Seq<StreamView>, levels: LevelEntries, n: int) -> Gain
    decreases n,
{
    if n <= 0 {
        Gain { bits: 0 }
    } else {
        let rest = loudest(members, levels, n - 1);
        let one = cubic_of(levels, members[n - 1].id);
        if gain::greater(one, rest) {
            one
        } else {
            rest
        }
    }
}

/// The first of the first `n` members with the lowest id; sources the name and
/// the icon, so the label doesn't shuffle on registry reorders.
pub open spec fn leader(members: Seq<StreamView>, n: int) -> int
    decreases n,
{
    if n <= 1 {
        0
    } else {
        let best = leader(members, n - 1);
        if members[n - 1].id < members[best].id {
            n - 1
        } else {
            best
        }
    }
}

/// The sink every member is pinned to, if they share one.
pub open spec fn shared_target(members: Seq<StreamView>) -> Option<Seq<char>> {
    if members.len() > 0 && (forall|i: int|
        0 <= i < members.len() ==> (#[trigger] members[i]).target_sink_name
            == members[0].target_sink_name) {
        members[0].target_sink_name
    } else {
        None
    }
}

/// What a group is called: a lone stream by its player's title where it has one,
/// any other by its app, since one title can't represent N tabs.
pub open spec fn group_name(members: Seq<StreamView>, levels: LevelEntries) -> Seq<char> {
    if members.len() == 0 {
        Seq::empty()
    } else {
        let rep = members[leader(members, members.len() as int)];
        if members.len() == 1 {
            match title_of(levels, rep.id) {
                Some(title) => title,
                None => rep.display_name(),
            }
        } else {
            rep.display_name()
        }
    }
}

/// A group's members added up.
pub open spec fn info(
    g: GroupModel,
    levels: LevelEntries,
    tombstoned: Set<u32>,
    is_expanded: bool,
) -> InfoModel {
    let members = g.members;
    InfoModel {
        key: g.key,
        display_name: group_name(members, levels),
        icon_path: if members.len() == 0 {
            None
        } else {
            members[leader(members, members.len() as int)].icon_path()
        },
        master_cubic: loudest(members, levels, members.len() as int),
        all_muted: members.len() > 0 && forall|i: int|
            0 <= i < members.len() ==> (#[trigger] members[i]).muted,
        effective_target: shared_target(members),
        all_tombstoned: members.len() > 0 && forall|i: int|
            0 <= i < members.len() ==> tombstoned.contains((#[trigger] members[i]).id),
        member_count: members.len() as usize,
        is_expanded,
    }
}

/// Where a gain puts a fader; silent where nobody said.
pub fn cubic_for(levels: &Levels, id: u32) -> (cubic: Gain)
    requires
        levels.wf(),
    ensures
        cubic == cubic_of(levels@, id),
{
    match levels.get(&id) {
        Some(level) => level.cubic,
        None => Gain { bits: 0 },
    }
}

fn title_for(levels: &Levels, id: u32) -> (title: Option<String>)
    requires
        levels.wf(),
    ensures
        text::opt(title) == title_of(levels@, id),
{
    match levels.get(&id) {
        Some(level) => clone_opt(&level.title),
        None => None,
    }
}

impl<'a> AppRowGroup<'a> {
    /// Where the member with the lowest id stands.
    fn representative(&self) -> (at: usize)
        requires
            self.members@.len() > 0,
        ensures
            at == leader(self@.members, self@.members.len() as int),
            at < self.members@.len(),
    {
        let mut best: usize = 0;
        let mut i: usize = 1;
        while i < self.members.len()
            invariant
                1 <= i <= self.members@.len(),
                best < i,
                best == leader(self@.members, i as int),
            decreases self.members@.len() - i,
        {
            assert(self@.members[i as int] == self.members@[i as int]@);
            assert(self@.members[best as int] == self.members@[best as int]@);
            if self.members[i].id < self.members[best].id {
                best = i;
            }
            i = i + 1;
        }
        best
    }

    /// The name its icon is tinted and initialed from: its app's.
    pub fn icon_name(&self) -> (name: String)
        ensures
            name@ == if self@.members.len() == 0 {
                Seq::empty()
            } else {
                self@.members[leader(self@.members, self@.members.len() as int)].display_name()
            },
    {
        if self.members.len() == 0 {
            assert(self@.members.len() == 0);
            let none = String::new();
            proof {
                reveal_strlit("");
                assert(none@ =~= Seq::<char>::empty());
            }
            return none;
        }
        self.members[self.representative()].display_name().to_owned()
    }

    /// Collapse member state into the aggregate a row draws. Master cubic is
    /// max-of-members; all_muted requires every member muted; effective_target
    /// resolves only when every member shares one pin. Single-member groups get
    /// the title their player gives, multi-member ones keep the app name (one
    /// title can't represent N tabs).
    pub fn to_info(&self, tombstoned: &HashSet<u32>, is_expanded: bool, levels: &Levels) -> (info:
        AppRowInfo)
        requires
            levels.wf(),
        ensures
            info@ == self::info(self@, levels@, tombstoned@, is_expanded),
    {
        let ghost members = self@.members;
        let n: usize = self.members.len();
        let mut master_cubic: Gain = Gain { bits: 0 };
        let mut all_muted = true;
        let mut all_tombstoned = true;
        let mut share = true;
        let mut i: usize = 0;
        while i < n
            invariant
                i <= n == self.members@.len(),
                members == self@.members,
                levels.wf(),
                master_cubic == loudest(members, levels@, i as int),
                all_muted == (forall|k: int| 0 <= k < i ==> (#[trigger] members[k]).muted),
                all_tombstoned == (forall|k: int|
                    0 <= k < i ==> tombstoned@.contains((#[trigger] members[k]).id)),
                share == (forall|k: int|
                    0 <= k < i ==> (#[trigger] members[k]).target_sink_name
                        == members[0].target_sink_name),
            decreases n - i,
        {
            let s: &Stream = self.members[i];
            assert(members[i as int] == s@);
            assert(members[0] == self.members@[0]@);
            let cubic = cubic_for(levels, s.id);
            if is_greater(cubic, master_cubic) {
                master_cubic = cubic;
            }
            all_muted = all_muted && s.muted;
            all_tombstoned = all_tombstoned && tombstoned.contains(&s.id);
            share = share && same_opt(&s.target_sink_name, &self.members[0].target_sink_name);
            i = i + 1;
        }
        let key = self.key.clone();
        if n == 0 {
            assert(""@ =~= Seq::<char>::empty()) by {
                reveal_strlit("");
            }
            return AppRowInfo {
                key,
                display_name: String::new(),
                icon_path: None,
                master_cubic,
                all_muted: false,
                effective_target: None,
                all_tombstoned: false,
                member_count: 0,
                is_expanded,
            };
        }
        let rep: &Stream = self.members[self.representative()];
        assert(members[0] == self.members@[0]@);
        let own = rep.display_name().to_owned();
        let display_name = if n == 1 {
            match title_for(levels, rep.id) {
                Some(title) => title,
                None => own,
            }
        } else {
            own
        };
        AppRowInfo {
            key,
            display_name,
            icon_path: rep.icon_path(),
            master_cubic,
            all_muted,
            effective_target: if share {
                clone_opt(&self.members[0].target_sink_name)
            } else {
                None
            },
            all_tombstoned,
            member_count: n,
            is_expanded,
        }
    }
}

// --- Rows -------------------------------------------------------------------------------

/// Precomputed meter routing for one app-stream node: which rows its peak
/// feeds. Built by render_plan so applying a peak is a pure lookup.
pub struct AppPeakRoute {
    pub group_key: String,
    /// Whether the node also has a sub-row of its own, which is true only while
    /// its group is expanded.
    pub has_member_row: bool,
}

#[verifier::ext_equal]
pub struct RouteModel {
    pub group_key: Seq<char>,
    pub has_member_row: bool,
}

impl View for AppPeakRoute {
    type V = RouteModel;

    open spec fn view(&self) -> RouteModel {
        RouteModel { group_key: self.group_key@, has_member_row: self.has_member_row }
    }
}

/// One rendered app column: a collapsed group row or a per-member sub-row of
/// an expanded group. render_plan flattens groups into this sequence so the
/// diff/order code stays one path.
pub enum RenderedAppRow<'a> {
    /// Collapsed-aggregate row. expanded is true when sub-rows are also
    /// rendered; the picker's expand toggle reads it to flip its glyph.
    Group { group: &'a AppRowGroup<'a>, expanded: bool },
    /// Sub-row for one stream in an expanded group.
    Member { stream: &'a Stream },
}

#[verifier::ext_equal]
pub enum RenderedModel {
    Group { group: GroupModel, expanded: bool },
    Member { stream: StreamView },
}

impl<'a> View for RenderedAppRow<'a> {
    type V = RenderedModel;

    open spec fn view(&self) -> RenderedModel {
        match self {
            RenderedAppRow::Group { group, expanded } => RenderedModel::Group {
                group: group@,
                expanded: *expanded,
            },
            RenderedAppRow::Member { stream } => RenderedModel::Member { stream: stream@ },
        }
    }
}

pub open spec fn rendered_views(rows: Seq<RenderedAppRow>) -> Seq<RenderedModel> {
    Seq::new(rows.len(), |i: int| rows[i]@)
}

/// A group shows its members: it was expanded and has more than one.
pub open spec fn opened(g: GroupModel, expanded: Set<Seq<char>>) -> bool {
    expanded.contains(g.key) && g.members.len() > 1
}

/// The sub-rows of the first `n` members.
pub open spec fn member_rows(g: GroupModel, n: int) -> Seq<RenderedModel> {
    Seq::new(n as nat, |i: int| RenderedModel::Member { stream: g.members[i] })
}

/// A group's rows: its own, then its members' while it is expanded.
pub open spec fn group_rows(g: GroupModel, expanded: bool) -> Seq<RenderedModel> {
    seq![RenderedModel::Group { group: g, expanded }] + if expanded {
        member_rows(g, g.members.len() as int)
    } else {
        Seq::empty()
    }
}

/// The rows of the first `n` groups.
pub open spec fn plan_rows(groups: Seq<GroupModel>, expanded: Set<Seq<char>>, n: int) -> Seq<
    RenderedModel,
>
    decreases n,
{
    if n <= 0 {
        Seq::empty()
    } else {
        plan_rows(groups, expanded, n - 1) + group_rows(
            groups[n - 1],
            opened(groups[n - 1], expanded),
        )
    }
}

pub type RouteEntries = Seq<(u32, RouteModel)>;

/// Routes with those of a group's first `n` members put in.
pub open spec fn with_member_routes(
    routes: RouteEntries,
    g: GroupModel,
    expanded: bool,
    n: int,
) -> RouteEntries
    decreases n,
{
    if n <= 0 {
        routes
    } else {
        ordered::put::<u32, RouteModel>(
            with_member_routes(routes, g, expanded, n - 1),
            g.members[n - 1].id,
            RouteModel { group_key: g.key, has_member_row: expanded },
        )
    }
}

/// The routes of the first `n` groups' members.
pub open spec fn plan_routes(
    groups: Seq<GroupModel>,
    expanded: Set<Seq<char>>,
    n: int,
) -> RouteEntries
    decreases n,
{
    if n <= 0 {
        Seq::empty()
    } else {
        with_member_routes(
            plan_routes(groups, expanded, n - 1),
            groups[n - 1],
            opened(groups[n - 1], expanded),
            groups[n - 1].members.len() as int,
        )
    }
}

/// Flatten ordered groups into the render sequence plus the per-node peak
/// routes. The group row is always emitted (the proportional master); member
/// sub-rows are added only when the group is expanded with more than one
/// stream.
pub fn render_plan<'a>(groups: &'a Vec<AppRowGroup<'a>>, expanded_groups: &TextSet) -> (plan: (
    Vec<RenderedAppRow<'a>>,
    OrderedMap<u32, AppPeakRoute>,
))
    requires
        expanded_groups.wf(),
    ensures
        rendered_views(plan.0@) == plan_rows(
            group_views(groups@),
            expanded_groups@,
            groups@.len() as int,
        ),
        plan.1.wf(),
        plan.1@ == plan_routes(group_views(groups@), expanded_groups@, groups@.len() as int),
{
    let ghost all = group_views(groups@);
    let ghost set = expanded_groups@;
    let mut rows: Vec<RenderedAppRow<'a>> = Vec::new();
    let mut routes: OrderedMap<u32, AppPeakRoute> = OrderedMap::new();
    assert(rendered_views(rows@) =~= Seq::<RenderedModel>::empty());
    let mut i: usize = 0;
    while i < groups.len()
        invariant
            i <= groups@.len(),
            all == group_views(groups@),
            set == expanded_groups@,
            expanded_groups.wf(),
            rendered_views(rows@) == plan_rows(all, set, i as int),
            routes.wf(),
            routes@ == plan_routes(all, set, i as int),
        decreases groups@.len() - i,
    {
        let g: &'a AppRowGroup<'a> = &groups[i];
        assert(all[i as int] == g@);
        assert(g@.members.len() == g.members@.len());
        let ghost before = rendered_views(rows@);
        let ghost routed = routes@;
        let expanded = expanded_groups.contains(g.key.as_str()) && g.members.len() > 1;
        rows.push(RenderedAppRow::Group { group: g, expanded });
        let ghost head = seq![RenderedModel::Group { group: g@, expanded }];
        assert(rendered_views(rows@) =~= before + (head + if expanded {
            member_rows(g@, 0)
        } else {
            Seq::empty()
        }));
        let mut k: usize = 0;
        while k < g.members.len()
            invariant
                k <= g.members@.len() == g@.members.len(),
                expanded == opened(g@, set),
                head == seq![RenderedModel::Group { group: g@, expanded }],
                rendered_views(rows@) == before + (head + if expanded {
                    member_rows(g@, k as int)
                } else {
                    Seq::empty()
                }),
                routes.wf(),
                routes@ == with_member_routes(routed, g@, expanded, k as int),
            decreases g.members@.len() - k,
        {
            let s: &'a Stream = g.members[k];
            assert(g@.members[k as int] == s@);
            let ghost so_far = rendered_views(rows@);
            routes.insert(
                s.id,
                AppPeakRoute { group_key: g.key.clone(), has_member_row: expanded },
            );
            if expanded {
                rows.push(RenderedAppRow::Member { stream: s });
                proof {
                    let row = RenderedModel::Member { stream: s@ };
                    assert(rendered_views(rows@) =~= so_far.push(row));
                    assert(member_rows(g@, k + 1) =~= member_rows(g@, k as int).push(row));
                    assert(so_far.push(row) =~= before + (head + member_rows(g@, k + 1)));
                }
            }
            k = k + 1;
        }
        i = i + 1;
    }
    (rows, routes)
}

// --- What holds of the columns ------------------------------------------------------------

/// The first `n` streams of a row.
pub open spec fn row_streams(list: Seq<StreamView>, key: Seq<char>, n: int) -> Seq<StreamView>
    decreases n,
{
    if n <= 0 {
        Seq::empty()
    } else if list[n - 1].row_key() == key {
        row_streams(list, key, n - 1).push(list[n - 1])
    } else {
        row_streams(list, key, n - 1)
    }
}

/// Groups split the first `n` streams by row: every group has members, all the
/// streams of its row and no others, in order, and every stream's row is there.
pub open spec fn split(groups: Seq<GroupModel>, list: Seq<StreamView>, n: int) -> bool {
    &&& keys_once(groups)
    &&& forall|i: int|
        0 <= i < groups.len() ==> {
            &&& (#[trigger] groups[i]).members.len() > 0
            &&& groups[i].members == row_streams(list, groups[i].key, n)
        }
    &&& forall|k: int| 0 <= k < n ==> has_key(groups, (#[trigger] list[k]).row_key())
}

pub open spec fn has_key(groups: Seq<GroupModel>, key: Seq<char>) -> bool {
    exists|i: int| 0 <= i < groups.len() && (#[trigger] groups[i]).key == key
}

/// Groups come earliest seen first, then lowest id first, then by key.
pub open spec fn in_order(groups: Seq<GroupModel>, order: Map<u32, u64>) -> bool {
    forall|i: int, j: int|
        0 <= i < j < groups.len() ==> !stands_before(#[trigger] groups[j], #[trigger] groups[i], order)
}

/// What does not stand before one group does not stand before any that stands no
/// later, and two groups never stand before each other.
proof fn order_holds(a: GroupModel, b: GroupModel, c: GroupModel, order: Map<u32, u64>)
    ensures
        !stands_before(b, a, order) && !stands_before(c, b, order) ==> !stands_before(c, a, order),
        stands_before(a, b, order) ==> !stands_before(b, a, order),
{
    text::text_before_total(a.key, b.key);
    text::text_before_total(b.key, c.key);
    text::text_before_irreflexive(a.key);
    text::text_before_irreflexive(b.key);
    if text::text_before(a.key, b.key) && text::text_before(b.key, a.key) {
        text::text_before_transitive(a.key, b.key, a.key);
    }
    if text::text_before(c.key, a.key) {
        if text::text_before(a.key, b.key) {
            text::text_before_transitive(c.key, a.key, b.key);
        }
    }
}

proof fn empty_row(list: Seq<StreamView>, key: Seq<char>, n: int)
    requires
        0 <= n <= list.len(),
        forall|k: int| 0 <= k < n ==> (#[trigger] list[k]).row_key() != key,
    ensures
        row_streams(list, key, n).len() == 0,
    decreases n,
{
    if n > 0 {
        empty_row(list, key, n - 1);
    }
}

proof fn bucketed_splits(list: Seq<StreamView>, n: int)
    requires
        0 <= n <= list.len(),
    ensures
        split(bucketed(list, n), list, n),
    decreases n,
{
    if n > 0 {
        bucketed_splits(list, n - 1);
        let before = bucketed(list, n - 1);
        let s = list[n - 1];
        let after = bucketed(list, n);
        find_group_at(before, s.row_key());
        match find_group(before, s.row_key()) {
            Some(at) => {
                assert forall|i: int| 0 <= i < after.len() implies {
                    &&& (#[trigger] after[i]).members.len() > 0
                    &&& after[i].members == row_streams(list, after[i].key, n)
                } by {
                    assert(before[i].members == row_streams(list, before[i].key, n - 1));
                    if i != at {
                        assert(before[i].key != before[at].key);
                    }
                }
                assert forall|i: int, j: int| 0 <= i < j < after.len() implies (
                #[trigger] after[i]).key != (#[trigger] after[j]).key by {
                    assert(before[i].key != before[j].key);
                }
                assert forall|k: int| 0 <= k < n implies has_key(
                    after,
                    (#[trigger] list[k]).row_key(),
                ) by {
                    if k < n - 1 {
                        assert(has_key(before, list[k].row_key()));
                        let i = choose|i: int|
                            0 <= i < before.len() && (#[trigger] before[i]).key
                                == list[k].row_key();
                        assert(after[i].key == list[k].row_key());
                    } else {
                        assert(after[at].key == list[k].row_key());
                    }
                }
            },
            None => {
                let key = s.row_key();
                assert forall|k: int| 0 <= k < n - 1 implies (#[trigger] list[k]).row_key()
                    != key by {
                    assert(has_key(before, list[k].row_key()));
                }
                empty_row(list, key, n - 1);
                assert(row_streams(list, key, n) =~= seq![s]);
                assert forall|i: int| 0 <= i < after.len() implies {
                    &&& (#[trigger] after[i]).members.len() > 0
                    &&& after[i].members == row_streams(list, after[i].key, n)
                } by {
                    if i < before.len() {
                        assert(before[i].key != key);
                        assert(before[i].members == row_streams(list, before[i].key, n - 1));
                    }
                }
                assert forall|k: int| 0 <= k < n implies has_key(
                    after,
                    (#[trigger] list[k]).row_key(),
                ) by {
                    if k < n - 1 {
                        assert(has_key(before, list[k].row_key()));
                        let i = choose|i: int|
                            0 <= i < before.len() && (#[trigger] before[i]).key
                                == list[k].row_key();
                        assert(after[i].key == list[k].row_key());
                    } else {
                        assert(after[before.len() as int].key == list[k].row_key());
                    }
                }
            },
        }
    }
}

/// Placing a group puts it in and moves nothing out.
proof fn placed_keeps(groups: Seq<GroupModel>, g: GroupModel, order: Map<u32, u64>)
    ensures
        placed(groups, g, order).len() == groups.len() + 1,
        forall|x: GroupModel|
            #[trigger] placed(groups, g, order).contains(x) <==> groups.contains(x) || x == g,
    decreases groups.len(),
{
    let out = placed(groups, g, order);
    if groups.len() == 0 || !stands_before(g, groups.last(), order) {
        pushed_contains(groups, g);
    } else {
        let rest = groups.drop_last();
        placed_keeps(rest, g, order);
        pushed_contains(placed(rest, g, order), groups.last());
        pushed_contains(rest, groups.last());
        assert(rest.push(groups.last()) =~= groups);
        assert forall|x: GroupModel| #[trigger] out.contains(x) <==> groups.contains(x) || x
            == g by {
            assert(placed(rest, g, order).contains(x) <==> rest.contains(x) || x == g);
        }
    }
}

proof fn pushed_contains(groups: Seq<GroupModel>, g: GroupModel)
    ensures
        forall|x: GroupModel|
            #[trigger] groups.push(g).contains(x) <==> groups.contains(x) || x == g,
{
    let out = groups.push(g);
    assert forall|x: GroupModel| #[trigger] out.contains(x) <==> groups.contains(x) || x == g by {
        if groups.contains(x) {
            let i = choose|i: int| 0 <= i < groups.len() && groups[i] == x;
            assert(out[i] == x);
        }
        if x == g {
            assert(out[groups.len() as int] == x);
        }
        if out.contains(x) {
            let i = choose|i: int| 0 <= i < out.len() && out[i] == x;
            if i < groups.len() {
                assert(groups[i] == x);
            }
        }
    }
}

proof fn placed_keys_once(groups: Seq<GroupModel>, g: GroupModel, order: Map<u32, u64>)
    requires
        keys_once(groups),
        forall|i: int| 0 <= i < groups.len() ==> (#[trigger] groups[i]).key != g.key,
    ensures
        keys_once(placed(groups, g, order)),
    decreases groups.len(),
{
    if groups.len() > 0 && stands_before(g, groups.last(), order) {
        let rest = groups.drop_last();
        assert forall|i: int| 0 <= i < rest.len() implies (#[trigger] rest[i]).key != g.key by {
            assert(groups[i].key != g.key);
        }
        assert forall|i: int, j: int| 0 <= i < j < rest.len() implies (#[trigger] rest[i]).key
            != (#[trigger] rest[j]).key by {
            assert(groups[i].key != groups[j].key);
        }
        placed_keys_once(rest, g, order);
        placed_keeps(rest, g, order);
        let inner = placed(rest, g, order);
        let out = inner.push(groups.last());
        assert forall|i: int, j: int| 0 <= i < j < out.len() implies (#[trigger] out[i]).key
            != (#[trigger] out[j]).key by {
            if j < inner.len() {
                assert(inner[i].key != inner[j].key);
            } else {
                assert(inner.contains(inner[i]));
                order_holds(g, groups.last(), g, order);
                if rest.contains(inner[i]) {
                    let k = choose|k: int| 0 <= k < rest.len() && rest[k] == inner[i];
                    assert(groups[k].key != groups[groups.len() - 1].key);
                } else {
                    assert(groups[groups.len() - 1].key != g.key);
                }
            }
        }
    }
}

proof fn placed_in_order(groups: Seq<GroupModel>, g: GroupModel, order: Map<u32, u64>)
    requires
        in_order(groups, order),
    ensures
        in_order(placed(groups, g, order), order),
    decreases groups.len(),
{
    let out = placed(groups, g, order);
    if groups.len() == 0 || !stands_before(g, groups.last(), order) {
        assert forall|i: int, j: int| 0 <= i < j < out.len() implies !stands_before(#[trigger] out[j], #[trigger] out[i], order) by {
            if j < groups.len() {
                assert(!stands_before(groups[j], groups[i], order));
            } else if i < groups.len() - 1 {
                assert(!stands_before(groups[groups.len() - 1], groups[i], order));
                order_holds(groups[i], groups[groups.len() - 1], g, order);
            }
        }
    } else {
        let rest = groups.drop_last();
        assert forall|i: int, j: int| 0 <= i < j < rest.len() implies !stands_before(#[trigger] rest[j], #[trigger] rest[i], order) by {
            assert(!stands_before(groups[j], groups[i], order));
        }
        placed_in_order(rest, g, order);
        placed_keeps(rest, g, order);
        let inner = placed(rest, g, order);
        assert forall|i: int, j: int| 0 <= i < j < out.len() implies !stands_before(#[trigger] out[j], #[trigger] out[i], order) by {
            if j < inner.len() {
                assert(!stands_before(inner[j], inner[i], order));
            } else {
                assert(inner.contains(inner[i]));
                order_holds(g, groups.last(), g, order);
                if rest.contains(inner[i]) {
                    let k = choose|k: int| 0 <= k < rest.len() && rest[k] == inner[i];
                    assert(!stands_before(groups[groups.len() - 1], groups[k], order));
                }
            }
        }
    }
}

/// Arranging groups keeps them all, each once, in order.
proof fn arranged_keeps(groups: Seq<GroupModel>, order: Map<u32, u64>, n: int)
    requires
        keys_once(groups),
        0 <= n <= groups.len(),
    ensures
        keys_once(arranged(groups, order, n)),
        in_order(arranged(groups, order, n), order),
        forall|x: GroupModel|
            #[trigger] arranged(groups, order, n).contains(x) <==> groups.take(n).contains(x),
    decreases n,
{
    if n > 0 {
        arranged_keeps(groups, order, n - 1);
        let before = arranged(groups, order, n - 1);
        let g = groups[n - 1];
        assert forall|i: int| 0 <= i < before.len() implies (#[trigger] before[i]).key
            != g.key by {
            assert(before.contains(before[i]));
            let taken = groups.take(n - 1);
            assert(taken.contains(before[i]));
            let k = choose|k: int| 0 <= k < taken.len() && taken[k] == before[i];
            assert(groups[k].key != groups[n - 1].key);
        }
        placed_keys_once(before, g, order);
        placed_in_order(before, g, order);
        placed_keeps(before, g, order);
        pushed_contains(groups.take(n - 1), g);
        assert(groups.take(n - 1).push(g) =~= groups.take(n));
    } else {
        assert(groups.take(0) =~= Seq::empty());
    }
}

/// Every application stream has its place in one column and in no other: the
/// column of its row, whose members are that row's streams in the order they
/// came. No column is empty, and columns come earliest seen first.
pub proof fn columns_split_the_streams(list: Seq<StreamView>, order: Map<u32, u64>)
    ensures
        split(columns(list, order), list, list.len() as int),
        in_order(columns(list, order), order),
{
    let n = list.len() as int;
    let groups = bucketed(list, n);
    let out = columns(list, order);
    bucketed_splits(list, n);
    arranged_keeps(groups, order, groups.len() as int);
    assert(groups.take(groups.len() as int) =~= groups);
    assert forall|i: int| 0 <= i < out.len() implies {
        &&& (#[trigger] out[i]).members.len() > 0
        &&& out[i].members == row_streams(list, out[i].key, n)
    } by {
        assert(out.contains(out[i]));
        let k = choose|k: int| 0 <= k < groups.len() && groups[k] == out[i];
        assert(groups[k].members.len() > 0);
    }
    assert forall|k: int| 0 <= k < n implies has_key(out, (#[trigger] list[k]).row_key()) by {
        assert(has_key(groups, list[k].row_key()));
        let i = choose|i: int|
            0 <= i < groups.len() && (#[trigger] groups[i]).key == list[k].row_key();
        assert(groups.contains(groups[i]));
        assert(out.contains(groups[i]));
        let j = choose|j: int| 0 <= j < out.len() && out[j] == groups[i];
        assert(out[j].key == list[k].row_key());
    }
}

/// A group of one stays one row however often it was expanded, and a group that
/// was never expanded shows none of its members.
pub proof fn lone_streams_never_expand(g: GroupModel, expanded: Set<Seq<char>>)
    requires
        g.members.len() <= 1 || !expanded.contains(g.key),
    ensures
        group_rows(g, opened(g, expanded)) == seq![
            RenderedModel::Group { group: g, expanded: false },
        ],
{
    assert(group_rows(g, opened(g, expanded)) =~= seq![
        RenderedModel::Group { group: g, expanded: false },
    ]);
}

} // verus!
