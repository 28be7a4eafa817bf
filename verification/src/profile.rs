//! Profiles: named presets of every device's and application's settings, and
//! the ones waiting for a stream that is not there yet.

use crate::domain::{Gain, SectionFilter, Stream, StreamKind, StreamView};
use crate::ordered;
use crate::ordered::OrderedMap;
use crate::text;
use crate::text::{clone_opt, opt_is, same_text};
use vstd::prelude::*;

verus! {

/// A device's preset.
#[derive(Debug, Clone, Copy, PartialEq, Eq, Structural)]
pub struct DeviceSettings {
    pub volume: Gain,
    pub muted: bool,
}

impl View for DeviceSettings {
    type V = DeviceSettings;

    open spec fn view(&self) -> DeviceSettings {
        *self
    }
}

/// An application's preset.
#[derive(Debug, PartialEq, Eq)]
pub struct AppSettings {
    pub volume: Gain,
    pub muted: bool,
    pub target_sink_name: Option<String>,
}

#[verifier::ext_equal]
pub struct AppSettingsView {
    pub volume: Gain,
    pub muted: bool,
    pub target_sink_name: Option<Seq<char>>,
}

impl View for AppSettings {
    type V = AppSettingsView;

    open spec fn view(&self) -> AppSettingsView {
        AppSettingsView {
            volume: self.volume,
            muted: self.muted,
            target_sink_name: text::opt(self.target_sink_name),
        }
    }
}

impl Clone for AppSettings {
    fn clone(&self) -> (s: Self)
        ensures
            s@ == self@,
    {
        AppSettings {
            volume: self.volume,
            muted: self.muted,
            target_sink_name: clone_opt(&self.target_sink_name),
        }
    }
}

pub type DeviceMap = OrderedMap<String, DeviceSettings>;

pub type AppMap = OrderedMap<String, AppSettings>;

pub type DeviceEntries = Seq<(Seq<char>, DeviceSettings)>;

pub type AppEntries = Seq<(Seq<char>, AppSettingsView)>;

/// A copy of a device map.
pub fn clone_devices(map: &DeviceMap) -> (copy: DeviceMap)
    ensures
        copy@ == map@,
{
    let mut entries: Vec<(String, DeviceSettings)> = Vec::new();
    let mut i: usize = 0;
    while i < map.entries.len()
        invariant
            i <= map.entries@.len(),
            entries@.len() == i,
            forall|k: int|
                0 <= k < i ==> (#[trigger] entries@[k]).0@ == map.entries@[k].0@ && entries@[k].1
                    == map.entries@[k].1,
        decreases map.entries@.len() - i,
    {
        entries.push((map.entries[i].0.clone(), map.entries[i].1));
        i = i + 1;
    }
    let copy = OrderedMap { entries };
    assert(copy@ =~= map@);
    copy
}

/// A copy of an application map.
pub fn clone_apps(map: &AppMap) -> (copy: AppMap)
    ensures
        copy@ == map@,
{
    let mut entries: Vec<(String, AppSettings)> = Vec::new();
    let mut i: usize = 0;
    while i < map.entries.len()
        invariant
            i <= map.entries@.len(),
            entries@.len() == i,
            forall|k: int|
                0 <= k < i ==> (#[trigger] entries@[k]).0@ == map.entries@[k].0@ && entries@[k].1@
                    == map.entries@[k].1@,
        decreases map.entries@.len() - i,
    {
        entries.push((map.entries[i].0.clone(), map.entries[i].1.clone()));
        i = i + 1;
    }
    let copy = OrderedMap { entries };
    assert(copy@ =~= map@);
    copy
}

/// A named preset: what every device and application was set to, which devices
/// were the defaults, and which columns were on show.
#[derive(Debug, PartialEq, Eq)]
pub struct Profile {
    pub name: String,
    pub sinks: DeviceMap,
    pub apps: AppMap,
    pub sources: DeviceMap,
    pub default_sink: Option<String>,
    pub default_source: Option<String>,
    pub section_filter: SectionFilter,
}

#[verifier::ext_equal]
pub struct ProfileView {
    pub name: Seq<char>,
    pub sinks: DeviceEntries,
    pub apps: AppEntries,
    pub sources: DeviceEntries,
    pub default_sink: Option<Seq<char>>,
    pub default_source: Option<Seq<char>>,
    pub section_filter: SectionFilter,
}

impl View for Profile {
    type V = ProfileView;

    open spec fn view(&self) -> ProfileView {
        ProfileView {
            name: self.name@,
            sinks: self.sinks@,
            apps: self.apps@,
            sources: self.sources@,
            default_sink: text::opt(self.default_sink),
            default_source: text::opt(self.default_source),
            section_filter: self.section_filter,
        }
    }
}

impl ProfileView {
    pub open spec fn wf(self) -> bool {
        &&& ordered::ascending::<String, DeviceSettings>(self.sinks)
        &&& ordered::ascending::<String, AppSettingsView>(self.apps)
        &&& ordered::ascending::<String, DeviceSettings>(self.sources)
    }

    /// A profile that presets nothing.
    pub open spec fn blank(name: Seq<char>) -> ProfileView {
        ProfileView {
            name,
            sinks: Seq::empty(),
            apps: Seq::empty(),
            sources: Seq::empty(),
            default_sink: None,
            default_source: None,
            section_filter: SectionFilter::all(),
        }
    }
}

impl Clone for Profile {
    fn clone(&self) -> (p: Self)
        ensures
            p@ == self@,
    {
        Profile {
            name: self.name.clone(),
            sinks: clone_devices(&self.sinks),
            apps: clone_apps(&self.apps),
            sources: clone_devices(&self.sources),
            default_sink: clone_opt(&self.default_sink),
            default_source: clone_opt(&self.default_source),
            section_filter: self.section_filter,
        }
    }
}

/// The devices of one kind among the first `n` streams, by node name; where two
/// share a name, the later one's settings.
pub open spec fn device_presets(
    streams: Seq<(u32, StreamView)>,
    kind: StreamKind,
    n: int,
) -> DeviceEntries
    decreases n,
{
    if n <= 0 {
        Seq::empty()
    } else {
        let rest = device_presets(streams, kind, n - 1);
        let s = streams[n - 1].1;
        match s.node_name {
            Some(name) if s.kind == kind => ordered::put::<String, DeviceSettings>(
                rest,
                name,
                DeviceSettings { volume: s.volume, muted: s.muted },
            ),
            _ => rest,
        }
    }
}

/// The applications among the first `n` streams, by identity; where two share
/// one, the later one's settings.
pub open spec fn app_presets(streams: Seq<(u32, StreamView)>, n: int) -> AppEntries
    decreases n,
{
    if n <= 0 {
        Seq::empty()
    } else {
        let rest = app_presets(streams, n - 1);
        let s = streams[n - 1].1;
        match s.identity() {
            Some(key) => ordered::put::<String, AppSettingsView>(
                rest,
                key,
                AppSettingsView {
                    volume: s.volume,
                    muted: s.muted,
                    target_sink_name: s.target_sink_name,
                },
            ),
            None => rest,
        }
    }
}

/// The profile that presets the given streams as they are.
pub open spec fn snapshot_of(
    name: Seq<char>,
    streams: Seq<(u32, StreamView)>,
    default_sink: Option<Seq<char>>,
    default_source: Option<Seq<char>>,
    section_filter: SectionFilter,
) -> ProfileView {
    ProfileView {
        name,
        sinks: device_presets(streams, StreamKind::Sink, streams.len() as int),
        apps: app_presets(streams, streams.len() as int),
        sources: device_presets(streams, StreamKind::Source, streams.len() as int),
        default_sink,
        default_source,
        section_filter,
    }
}

fn preset_devices(streams: &OrderedMap<u32, Stream>, kind: StreamKind) -> (map: DeviceMap)
    ensures
        map.wf(),
        map@ == device_presets(streams@, kind, streams@.len() as int),
{
    let mut map: DeviceMap = OrderedMap::new();
    let mut i: usize = 0;
    while i < streams.entries.len()
        invariant
            i <= streams.entries@.len(),
            map.wf(),
            map@ == device_presets(streams@, kind, i as int),
        decreases streams.entries@.len() - i,
    {
        let s: &Stream = &streams.entries[i].1;
        assert(streams@[i as int].1 == s@);
        if s.kind == kind {
            match &s.node_name {
                Some(name) => {
                    map.insert(name.clone(), DeviceSettings { volume: s.volume, muted: s.muted });
                },
                None => {},
            }
        }
        i = i + 1;
    }
    map
}

fn preset_apps(streams: &OrderedMap<u32, Stream>) -> (map: AppMap)
    ensures
        map.wf(),
        map@ == app_presets(streams@, streams@.len() as int),
{
    let mut map: AppMap = OrderedMap::new();
    let mut i: usize = 0;
    while i < streams.entries.len()
        invariant
            i <= streams.entries@.len(),
            map.wf(),
            map@ == app_presets(streams@, i as int),
        decreases streams.entries@.len() - i,
    {
        let s: &Stream = &streams.entries[i].1;
        assert(streams@[i as int].1 == s@);
        match s.app_identity() {
            Some(key) => {
                map.insert(
                    key,
                    AppSettings {
                        volume: s.volume,
                        muted: s.muted,
                        target_sink_name: clone_opt(&s.target_sink_name),
                    },
                );
            },
            None => {},
        }
        i = i + 1;
    }
    map
}

impl Default for Profile {
    /// A profile without a name that presets nothing.
    fn default() -> (p: Self)
        ensures
            p@ == ProfileView::blank(Seq::empty()),
            p@.wf(),
    {
        let name: String = String::new();
        assert(name@ =~= Seq::<char>::empty());
        Profile::blank(name)
    }
}

impl Profile {
    /// A profile that presets nothing.
    pub fn blank(name: String) -> (p: Self)
        ensures
            p@ == ProfileView::blank(name@),
            p@.wf(),
    {
        Profile {
            name,
            sinks: OrderedMap::new(),
            apps: OrderedMap::new(),
            sources: OrderedMap::new(),
            default_sink: None,
            default_source: None,
            section_filter: SectionFilter::default(),
        }
    }

    /// A profile that presets the given streams as they are.
    pub fn snapshot(
        name: String,
        streams: &OrderedMap<u32, Stream>,
        default_sink: Option<String>,
        default_source: Option<String>,
        section_filter: SectionFilter,
    ) -> (p: Self)
        ensures
            p@.wf(),
            p@ == snapshot_of(
                name@,
                streams@,
                text::opt(default_sink),
                text::opt(default_source),
                section_filter,
            ),
    {
        Profile {
            name,
            sinks: preset_devices(streams, StreamKind::Sink),
            apps: preset_apps(streams),
            sources: preset_devices(streams, StreamKind::Source),
            default_sink,
            default_source,
            section_filter,
        }
    }
}

/// The profiles, in menu order, and which one is active.
#[derive(Debug, PartialEq, Eq)]
pub struct ProfileStore {
    pub profiles: Vec<Profile>,
    pub active: Option<String>,
}

#[verifier::ext_equal]
pub struct ProfileStoreView {
    pub profiles: Seq<ProfileView>,
    pub active: Option<Seq<char>>,
}

/// The views of a list of profiles.
pub open spec fn profile_views(profiles: Seq<Profile>) -> Seq<ProfileView> {
    Seq::new(profiles.len(), |i: int| profiles[i]@)
}

impl View for ProfileStore {
    type V = ProfileStoreView;

    open spec fn view(&self) -> ProfileStoreView {
        ProfileStoreView {
            profiles: profile_views(self.profiles@),
            active: text::opt(self.active),
        }
    }
}

/// Where the first profile with a name stands among the first `n`, if any.
pub open spec fn position_of(profiles: Seq<ProfileView>, name: Seq<char>, n: int) -> Option<int>
    decreases n,
{
    if n <= 0 {
        None
    } else {
        match position_of(profiles, name, n - 1) {
            Some(i) => Some(i),
            None => if profiles[n - 1].name == name {
                Some(n - 1)
            } else {
                None
            },
        }
    }
}

/// Where a list's first profile with a name stands, if any.
pub open spec fn find_name(profiles: Seq<ProfileView>, name: Seq<char>) -> Option<int> {
    position_of(profiles, name, profiles.len() as int)
}

pub proof fn position_of_holds(profiles: Seq<ProfileView>, name: Seq<char>, n: int)
    requires
        0 <= n <= profiles.len(),
    ensures
        match position_of(profiles, name, n) {
            Some(i) => 0 <= i < n && profiles[i].name == name && forall|k: int|
                0 <= k < i ==> (#[trigger] profiles[k]).name != name,
            None => forall|k: int| 0 <= k < n ==> (#[trigger] profiles[k]).name != name,
        },
    decreases n,
{
    if n > 0 {
        position_of_holds(profiles, name, n - 1);
    }
}

impl ProfileStoreView {
    pub open spec fn wf(self) -> bool {
        forall|i: int| 0 <= i < self.profiles.len() ==> (#[trigger] self.profiles[i]).wf()
    }

    /// The store with a profile in place of the one of that name, or behind the
    /// others.
    pub open spec fn with_profile(self, p: ProfileView) -> ProfileStoreView {
        match find_name(self.profiles, p.name) {
            Some(i) => ProfileStoreView { profiles: self.profiles.update(i, p), ..self },
            None => ProfileStoreView { profiles: self.profiles.push(p), ..self },
        }
    }

    /// The store without the profile of a name.
    pub open spec fn without_profile(self, name: Seq<char>) -> ProfileStoreView {
        match find_name(self.profiles, name) {
            Some(i) => ProfileStoreView { profiles: self.profiles.remove(i), ..self },
            None => self,
        }
    }

    /// The store with a profile under a new name, in its place, the active
    /// marker following it.
    pub open spec fn renamed(self, old_name: Seq<char>, name: Seq<char>) -> ProfileStoreView {
        match find_name(self.profiles, old_name) {
            Some(i) => ProfileStoreView {
                profiles: self.profiles.update(i, ProfileView { name, ..self.profiles[i] }),
                active: if self.active == Some(old_name) {
                    Some(name)
                } else {
                    self.active
                },
            },
            None => self,
        }
    }

    /// The order after a profile is dropped right before or after another.
    pub open spec fn reordered(self, name: Seq<char>, target: Seq<char>, before: bool) -> Seq<
        ProfileView,
    > {
        match (find_name(self.profiles, name), find_name(self.profiles, target)) {
            (Some(i), Some(j)) if i != j => {
                let moved = self.profiles[i];
                let rest = self.profiles.remove(i);
                let j2 = if i < j {
                    j - 1
                } else {
                    j
                };
                rest.insert(
                    if before {
                        j2
                    } else {
                        j2 + 1
                    },
                    moved,
                )
            },
            _ => self.profiles,
        }
    }

    /// Whether dropping a profile there moves it.
    pub open spec fn reorder_moves(self, name: Seq<char>, target: Seq<char>, before: bool) -> bool {
        match (find_name(self.profiles, name), find_name(self.profiles, target)) {
            (Some(i), Some(j)) => i != j && !(before && j == i + 1) && !(!before && j == i - 1),
            _ => false,
        }
    }
}

impl Default for ProfileStore {
    fn default() -> (store: Self)
        ensures
            store@ == (ProfileStoreView { profiles: Seq::empty(), active: None }),
            store@.wf(),
    {
        ProfileStore::new()
    }
}

impl ProfileStore {
    pub fn new() -> (store: Self)
        ensures
            store@ == (ProfileStoreView { profiles: Seq::empty(), active: None }),
            store@.wf(),
    {
        let store = ProfileStore { profiles: Vec::new(), active: None };
        assert(store@.profiles =~= Seq::<ProfileView>::empty());
        store
    }

    /// Where the profile of a name stands.
    pub fn position(&self, name: &str) -> (at: Option<usize>)
        ensures
            match at {
                Some(i) => i < self@.profiles.len() && find_name(self@.profiles, name@) == Some(
                    i as int,
                ),
                None => find_name(self@.profiles, name@) is None,
            },
    {
        let mut i: usize = 0;
        while i < self.profiles.len()
            invariant
                i <= self.profiles@.len(),
                forall|k: int| 0 <= k < i ==> (#[trigger] self@.profiles[k]).name != name@,
            decreases self.profiles@.len() - i,
        {
            if same_text(self.profiles[i].name.as_str(), name) {
                proof {
                    position_of_holds(self@.profiles, name@, self@.profiles.len() as int);
                    assert(self@.profiles[i as int].name == name@);
                }
                return Some(i);
            }
            i = i + 1;
        }
        proof {
            position_of_holds(self@.profiles, name@, self@.profiles.len() as int);
        }
        None
    }

    /// The profile of a name.
    pub fn find(&self, name: &str) -> (profile: Option<&Profile>)
        ensures
            match find_name(self@.profiles, name@) {
                Some(i) => profile matches Some(p) && p@ == self@.profiles[i],
                None => profile is None,
            },
    {
        match self.position(name) {
            Some(i) => Some(&self.profiles[i]),
            None => None,
        }
    }

    /// Put a profile in place of the one of that name, or behind the others.
    pub fn insert_or_replace(&mut self, profile: Profile)
        requires
            old(self)@.wf(),
            profile@.wf(),
        ensures
            final(self)@.wf(),
            final(self)@ == old(self)@.with_profile(profile@),
    {
        let ghost before = self@;
        let ghost p = profile@;
        match self.position(profile.name.as_str()) {
            Some(i) => {
                self.profiles.set(i, profile);
                assert(self@.profiles =~= before.profiles.update(i as int, p));
            },
            None => {
                self.profiles.push(profile);
                assert(self@.profiles =~= before.profiles.push(p));
            },
        }
    }

    /// Take a profile out; true when it was there.
    pub fn remove(&mut self, name: &str) -> (was: bool)
        requires
            old(self)@.wf(),
        ensures
            final(self)@.wf(),
            final(self)@ == old(self)@.without_profile(name@),
            was == (find_name(old(self)@.profiles, name@) is Some),
    {
        let ghost before = self@;
        match self.position(name) {
            Some(i) => {
                let _ = self.profiles.remove(i);
                assert(self@.profiles =~= before.profiles.remove(i as int));
                true
            },
            None => false,
        }
    }

    /// Give a profile a new name, in its place, the active marker following it;
    /// true when it was there.
    pub fn rename(&mut self, old_name: &str, name: String) -> (was: bool)
        requires
            old(self)@.wf(),
        ensures
            final(self)@.wf(),
            final(self)@ == old(self)@.renamed(old_name@, name@),
            was == (find_name(old(self)@.profiles, old_name@) is Some),
    {
        let ghost before = self@;
        match self.position(old_name) {
            Some(i) => {
                let mut profile: Profile = self.profiles.remove(i);
                let ghost kept = profile@;
                profile.name = name.clone();
                let ghost p = profile@;
                self.profiles.insert(i, profile);
                assert(p =~= ProfileView { name: name@, ..kept });
                assert(self@.profiles =~= before.profiles.update(i as int, p));
                if opt_is(&self.active, old_name) {
                    self.active = Some(name);
                }
                true
            },
            None => false,
        }
    }

    /// Drop a profile right before or after another; true when that moves it.
    pub fn reorder(&mut self, name: &str, target: &str, before: bool) -> (moved: bool)
        requires
            old(self)@.wf(),
        ensures
            final(self)@.wf(),
            final(self)@ == (ProfileStoreView {
                profiles: old(self)@.reordered(name@, target@, before),
                ..old(self)@
            }),
            moved == old(self)@.reorder_moves(name@, target@, before),
    {
        let ghost start = self@;
        let i: usize = match self.position(name) {
            Some(i) => i,
            None => {
                return false;
            },
        };
        let j: usize = match self.position(target) {
            Some(j) => j,
            None => {
                return false;
            },
        };
        if i == j {
            return false;
        }
        let profile: Profile = self.profiles.remove(i);
        let ghost p = profile@;
        assert(profile_views(self.profiles@) =~= start.profiles.remove(i as int));
        let j2: usize = if i < j {
            j - 1
        } else {
            j
        };
        let at: usize = if before {
            j2
        } else {
            j2 + 1
        };
        self.profiles.insert(at, profile);
        assert(self@.profiles =~= start.profiles.remove(i as int).insert(at as int, p));
        !(before && j > i && j - i == 1 || !before && i > j && i - j == 1)
    }
}

impl Clone for ProfileStore {
    fn clone(&self) -> (store: Self)
        ensures
            store@ == self@,
    {
        let mut profiles: Vec<Profile> = Vec::new();
        let mut i: usize = 0;
        while i < self.profiles.len()
            invariant
                i <= self.profiles@.len(),
                profiles@.len() == i,
                forall|k: int| 0 <= k < i ==> (#[trigger] profiles@[k])@ == self.profiles@[k]@,
            decreases self.profiles@.len() - i,
        {
            profiles.push(self.profiles[i].clone());
            i = i + 1;
        }
        assert(profile_views(profiles@) =~= profile_views(self.profiles@));
        ProfileStore { profiles, active: clone_opt(&self.active) }
    }
}

/// Preset entries with no matching stream yet. Each is applied to the stream
/// that matches it, once.
#[derive(Debug, PartialEq, Eq)]
pub struct Pending {
    pub sinks: DeviceMap,
    pub sources: DeviceMap,
    pub apps: AppMap,
    pub default_sink: Option<String>,
    pub default_source: Option<String>,
}

#[verifier::ext_equal]
pub struct PendingView {
    pub sinks: DeviceEntries,
    pub sources: DeviceEntries,
    pub apps: AppEntries,
    pub default_sink: Option<Seq<char>>,
    pub default_source: Option<Seq<char>>,
}

impl View for Pending {
    type V = PendingView;

    open spec fn view(&self) -> PendingView {
        PendingView {
            sinks: self.sinks@,
            sources: self.sources@,
            apps: self.apps@,
            default_sink: text::opt(self.default_sink),
            default_source: text::opt(self.default_source),
        }
    }
}

impl PendingView {
    pub open spec fn wf(self) -> bool {
        &&& ordered::ascending::<String, DeviceSettings>(self.sinks)
        &&& ordered::ascending::<String, DeviceSettings>(self.sources)
        &&& ordered::ascending::<String, AppSettingsView>(self.apps)
    }

    /// Nothing waiting.
    pub open spec fn none() -> PendingView {
        PendingView {
            sinks: Seq::empty(),
            sources: Seq::empty(),
            apps: Seq::empty(),
            default_sink: None,
            default_source: None,
        }
    }
}

impl Pending {
    pub fn new() -> (pending: Self)
        ensures
            pending@ == PendingView::none(),
            pending@.wf(),
    {
        Pending {
            sinks: OrderedMap::new(),
            sources: OrderedMap::new(),
            apps: OrderedMap::new(),
            default_sink: None,
            default_source: None,
        }
    }

    pub fn is_empty(&self) -> (none: bool)
        ensures
            none == (self@ == PendingView::none()),
    {
        let none: bool = self.sinks.is_empty() && self.sources.is_empty() && self.apps.is_empty()
            && self.default_sink.is_none() && self.default_source.is_none();
        proof {
            if none {
                assert(self@ =~= PendingView::none());
            }
        }
        none
    }
}

} // verus!
