//! The audio streams the mixer shows: what one is, who it belongs to, and which
//! groups of columns are on show.

use crate::text;
use crate::text::clone_opt;
use vstd::prelude::*;
use vstd::string::*;

verus! {

/// A gain, as the bits of a single-precision number. Those that are not negative
/// order as their bits do.
#[derive(Debug, Clone, Copy, PartialEq, Eq, Structural)]
pub struct Gain {
    pub bits: u32,
}

/// The bits of the loudest gain a slider reaches: 1.5.
pub const MAX_VOLUME: u32 = 0x3fc0_0000;

#[derive(Debug, Clone, Copy, PartialEq, Eq, Structural)]
pub enum StreamKind {
    Sink,
    Source,
    Application,
}

/// A group of columns in the strip.
#[derive(Debug, Clone, Copy, PartialEq, Eq, Structural)]
pub enum Section {
    Inputs,
    Outputs,
    Apps,
}

/// Which groups of columns are on show.
#[derive(Debug, Clone, Copy, PartialEq, Eq, Structural)]
pub struct SectionFilter {
    pub outputs: bool,
    pub inputs: bool,
    pub apps: bool,
}

impl SectionFilter {
    /// Everything on show.
    pub open spec fn all() -> SectionFilter {
        SectionFilter { outputs: true, inputs: true, apps: true }
    }

    pub open spec fn showing(self, section: Section) -> bool {
        match section {
            Section::Inputs => self.inputs,
            Section::Outputs => self.outputs,
            Section::Apps => self.apps,
        }
    }

    pub open spec fn toggled(self, section: Section) -> SectionFilter {
        match section {
            Section::Inputs => SectionFilter { inputs: !self.inputs, ..self },
            Section::Outputs => SectionFilter { outputs: !self.outputs, ..self },
            Section::Apps => SectionFilter { apps: !self.apps, ..self },
        }
    }

    pub fn shows(&self, section: Section) -> (shown: bool)
        ensures
            shown == self.showing(section),
    {
        match section {
            Section::Inputs => self.inputs,
            Section::Outputs => self.outputs,
            Section::Apps => self.apps,
        }
    }

    pub fn toggle(&mut self, section: Section)
        ensures
            *final(self) == old(self).toggled(section),
    {
        match section {
            Section::Inputs => {
                self.inputs = !self.inputs;
            },
            Section::Outputs => {
                self.outputs = !self.outputs;
            },
            Section::Apps => {
                self.apps = !self.apps;
            },
        }
    }
}

impl Default for SectionFilter {
    fn default() -> (filter: Self)
        ensures
            filter == SectionFilter::all(),
    {
        SectionFilter { outputs: true, inputs: true, apps: true }
    }
}

/// Toggling a section twice leaves the filter as it was, and toggling one leaves
/// the others alone.
pub proof fn section_toggle_undoes_itself(filter: SectionFilter, section: Section, other: Section)
    ensures
        filter.toggled(section).toggled(section) == filter,
        filter.toggled(section).showing(section) == !filter.showing(section),
        other != section ==> filter.toggled(section).showing(other) == filter.showing(other),
{
}

/// What kind of device a sink or source is: where it stands in the strip, and
/// the all-caps heading its column carries.
#[derive(Debug, PartialEq, Eq)]
pub struct DeviceForm {
    pub rank: u8,
    pub label: String,
}

#[verifier::ext_equal]
pub struct DeviceFormView {
    pub rank: u8,
    pub label: Seq<char>,
}

impl View for DeviceForm {
    type V = DeviceFormView;

    open spec fn view(&self) -> DeviceFormView {
        DeviceFormView { rank: self.rank, label: self.label@ }
    }
}

impl Clone for DeviceForm {
    fn clone(&self) -> (form: Self)
        ensures
            form@ == self@,
    {
        DeviceForm { rank: self.rank, label: self.label.clone() }
    }
}

pub open spec fn form_view(form: Option<DeviceForm>) -> Option<DeviceFormView> {
    match form {
        Some(f) => Some(f@),
        None => None,
    }
}

/// What an application's desktop entry says of it.
#[derive(Debug, PartialEq, Eq)]
pub struct XdgInfo {
    pub name: String,
    /// The file the entry names as its icon.
    pub icon_path: Option<String>,
    pub desktop_path: String,
}

#[verifier::ext_equal]
pub struct XdgInfoView {
    pub name: Seq<char>,
    pub icon_path: Option<Seq<char>>,
    pub desktop_path: Seq<char>,
}

impl View for XdgInfo {
    type V = XdgInfoView;

    open spec fn view(&self) -> XdgInfoView {
        XdgInfoView {
            name: self.name@,
            icon_path: text::opt(self.icon_path),
            desktop_path: self.desktop_path@,
        }
    }
}

impl Clone for XdgInfo {
    fn clone(&self) -> (info: Self)
        ensures
            info@ == self@,
    {
        XdgInfo {
            name: self.name.clone(),
            icon_path: clone_opt(&self.icon_path),
            desktop_path: self.desktop_path.clone(),
        }
    }
}

pub open spec fn xdg_view(xdg: Option<XdgInfo>) -> Option<XdgInfoView> {
    match xdg {
        Some(x) => Some(x@),
        None => None,
    }
}

/// One node of the sound server: an output, an input, or an application's
/// stream.
#[derive(Debug, PartialEq, Eq)]
pub struct Stream {
    pub id: u32,
    pub kind: StreamKind,
    pub name: String,
    pub app_id: Option<String>,
    pub binary: Option<String>,
    pub pid: Option<u32>,
    pub node_name: Option<String>,
    pub media_name: Option<String>,
    pub media_role: Option<String>,
    /// The average gain over its channels.
    pub volume: Gain,
    pub muted: bool,
    /// Its application's desktop entry, where one was found.
    pub xdg: Option<XdgInfo>,
    pub form: Option<DeviceForm>,
    pub is_default: bool,
    /// The sink it is pinned to, by node name; none follows the default.
    pub target_sink_name: Option<String>,
}

#[verifier::ext_equal]
pub struct StreamView {
    pub id: u32,
    pub kind: StreamKind,
    pub name: Seq<char>,
    pub app_id: Option<Seq<char>>,
    pub binary: Option<Seq<char>>,
    pub pid: Option<u32>,
    pub node_name: Option<Seq<char>>,
    pub media_name: Option<Seq<char>>,
    pub media_role: Option<Seq<char>>,
    pub volume: Gain,
    pub muted: bool,
    pub xdg: Option<XdgInfoView>,
    pub form: Option<DeviceFormView>,
    pub is_default: bool,
    pub target_sink_name: Option<Seq<char>>,
}

impl View for Stream {
    type V = StreamView;

    open spec fn view(&self) -> StreamView {
        StreamView {
            id: self.id,
            kind: self.kind,
            name: self.name@,
            app_id: text::opt(self.app_id),
            binary: text::opt(self.binary),
            pid: self.pid,
            node_name: text::opt(self.node_name),
            media_name: text::opt(self.media_name),
            media_role: text::opt(self.media_role),
            volume: self.volume,
            muted: self.muted,
            xdg: xdg_view(self.xdg),
            form: form_view(self.form),
            is_default: self.is_default,
            target_sink_name: text::opt(self.target_sink_name),
        }
    }
}

impl Clone for Stream {
    fn clone(&self) -> (s: Self)
        ensures
            s@ == self@,
    {
        Stream {
            id: self.id,
            kind: self.kind,
            name: self.name.clone(),
            app_id: clone_opt(&self.app_id),
            binary: clone_opt(&self.binary),
            pid: self.pid,
            node_name: clone_opt(&self.node_name),
            media_name: clone_opt(&self.media_name),
            media_role: clone_opt(&self.media_role),
            volume: self.volume,
            muted: self.muted,
            xdg: match &self.xdg {
                Some(x) => Some(x.clone()),
                None => None,
            },
            form: match &self.form {
                Some(f) => Some(f.clone()),
                None => None,
            },
            is_default: self.is_default,
            target_sink_name: clone_opt(&self.target_sink_name),
        }
    }
}

impl StreamView {
    /// The name a column shows: the desktop entry's, else the node's own.
    pub open spec fn display_name(self) -> Seq<char> {
        match self.xdg {
            Some(x) => x.name,
            None => self.name,
        }
    }

    /// The icon file of its application, where its desktop entry names one.
    pub open spec fn icon_path(self) -> Option<Seq<char>> {
        match self.xdg {
            Some(x) => x.icon_path,
            None => None,
        }
    }

    /// Which application a stream belongs to, however often it reconnects: by
    /// its application id, else by its binary. Devices belong to none.
    pub open spec fn identity(self) -> Option<Seq<char>> {
        if self.kind != StreamKind::Application {
            None
        } else {
            match self.app_id {
                Some(id) => Some("app:"@ + id),
                None => match self.binary {
                    Some(b) => Some("bin:"@ + b),
                    None => None,
                },
            }
        }
    }

    /// The row an application stream collapses into: its identity's, or one of
    /// its own.
    pub open spec fn row_key(self) -> Seq<char> {
        match self.identity() {
            Some(key) => key,
            None => "node:"@ + text::decimal(self.id as nat),
        }
    }

    /// A short-lived event sound.
    pub open spec fn ephemeral(self) -> bool {
        self.media_role == Some("Event"@) || self.media_role == Some("Notification"@)
            || self.media_role == Some("Alarm"@)
    }
}

impl Stream {
    pub fn app_identity(&self) -> (key: Option<String>)
        ensures
            text::opt(key) == self@.identity(),
    {
        if self.kind != StreamKind::Application {
            return None;
        }
        match &self.app_id {
            Some(id) => Some("app:".to_owned().concat(id.as_str())),
            None => match &self.binary {
                Some(b) => Some("bin:".to_owned().concat(b.as_str())),
                None => None,
            },
        }
    }

    /// The average gain over its channels.
    pub fn average_volume(&self) -> (volume: Gain)
        ensures
            volume == self@.volume,
    {
        self.volume
    }

    /// Give every channel one gain.
    pub fn set_uniform_volume(&mut self, volume: Gain)
        ensures
            final(self)@ == (StreamView { volume, ..old(self)@ }),
    {
        self.volume = volume;
    }

    /// The name a column shows.
    pub fn display_name(&self) -> (name: &str)
        ensures
            name@ == self@.display_name(),
    {
        match &self.xdg {
            Some(x) => x.name.as_str(),
            None => self.name.as_str(),
        }
    }

    /// The icon file of its application, where its desktop entry names one.
    pub fn icon_path(&self) -> (path: Option<String>)
        ensures
            text::opt(path) == self@.icon_path(),
    {
        match &self.xdg {
            Some(x) => clone_opt(&x.icon_path),
            None => None,
        }
    }
}

} // verus!
