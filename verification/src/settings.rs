//! Application-wide visual / behavioral settings, read from settings.conf.
//! Missing file means first-run defaults; a malformed line is an error. Format
//! is one "field value" per line, and unknown fields are tolerated so a config
//! written by a later build still loads. Hand-edited: nothing writes it back.

use crate::text;
use crate::text::{chars_of, decimal_text, find_white, lines_of, same_text, text_of, trim};
use vstd::prelude::*;
use vstd::string::*;

verus! {

/// The settings file's name inside the config directory.
pub const FILENAME: &'static str = "settings.conf";

/// Visual / behavioral toggles. Missing fields fall back to the default value.
#[derive(Debug, Clone, Copy, PartialEq, Eq, Structural)]
pub struct Settings {
    /// Whether the window draws a hairline border around its edge.
    pub show_window_border: bool,
    /// Whether the toolbar (IN/OUT/APP filters + M/R actions) is shown.
    pub show_sidebar: bool,
    /// Per-button visibility for the toolbar. Each hides just that one button;
    /// the toolbar itself stays unless `show_sidebar` is false.
    pub show_input_button: bool,
    pub show_output_button: bool,
    pub show_apps_button: bool,
    pub show_mute_button: bool,
    pub show_reset_button: bool,
    /// Who draws the window's chrome. See [`Decorations`].
    pub decorations: Decorations,
    /// Which colours the GTK build's own chrome takes. See [`GtkChrome`]. The
    /// native shell paints no GTK widgets and ignores it.
    pub gtk_chrome: GtkChrome,
}

/// Which colours GTK's chrome takes in the GTK build: the header bar, the
/// window, and the menus.
///
/// `Palette` is the default: the chrome takes the mixer's own colours, so the
/// two shells look like one app rather than the GTK one looking like whatever
/// desktop it happens to be on. `Theme` hands the chrome back to the desktop
/// for anyone who would rather the window matched their other GTK apps.
#[derive(Debug, Clone, Copy, PartialEq, Eq, Structural)]
pub enum GtkChrome {
    Palette,
    Theme,
}

impl Default for GtkChrome {
    fn default() -> (chrome: Self)
        ensures
            chrome == GtkChrome::Palette,
    {
        GtkChrome::Palette
    }
}

impl GtkChrome {
    /// What a config-file token names.
    pub open spec fn named(s: Seq<char>) -> Option<GtkChrome> {
        if s == "theme"@ {
            Some(GtkChrome::Theme)
        } else if s == "palette"@ {
            Some(GtkChrome::Palette)
        } else {
            None
        }
    }

    /// Parse a config-file token. `None` for anything unrecognized.
    pub fn parse(s: &str) -> (chrome: Option<Self>)
        ensures
            chrome == Self::named(s@),
    {
        if same_text(s, "theme") {
            Some(GtkChrome::Theme)
        } else if same_text(s, "palette") {
            Some(GtkChrome::Palette)
        } else {
            None
        }
    }
}

/// Who draws the window's titlebar and borders.
///
/// `Server` asks the compositor for them and is the default; `Client` draws them
/// in-window. A compositor that refuses server-side decorations gets `Client`
/// regardless, since the alternative is a window with no chrome at all.
#[derive(Debug, Clone, Copy, PartialEq, Eq, Structural)]
pub enum Decorations {
    Server,
    Client,
}

impl Default for Decorations {
    fn default() -> (decorations: Self)
        ensures
            decorations == Decorations::Server,
    {
        Decorations::Server
    }
}

impl Decorations {
    /// What a config-file token names.
    pub open spec fn named(s: Seq<char>) -> Option<Decorations> {
        if s == "server"@ {
            Some(Decorations::Server)
        } else if s == "client"@ {
            Some(Decorations::Client)
        } else {
            None
        }
    }

    /// What a value of the retired `titlebar` field asked for.
    pub open spec fn titlebar(s: Seq<char>) -> Option<Decorations> {
        if s == "headerbar"@ {
            Some(Decorations::Client)
        } else if s == "strip"@ {
            Some(Decorations::Server)
        } else {
            None
        }
    }

    /// Parse a config-file token. `None` for anything unrecognized.
    pub fn parse(s: &str) -> (decorations: Option<Self>)
        ensures
            decorations == Self::named(s@),
    {
        if same_text(s, "server") {
            Some(Decorations::Server)
        } else if same_text(s, "client") {
            Some(Decorations::Client)
        } else {
            None
        }
    }

    /// Read the retired `titlebar` field. A GTK header bar was the app drawing
    /// its own chrome; dropping it for an in-window strip left the chrome to
    /// the compositor.
    pub fn from_titlebar(s: &str) -> (decorations: Option<Self>)
        ensures
            decorations == Self::titlebar(s@),
    {
        if same_text(s, "headerbar") {
            Some(Decorations::Client)
        } else if same_text(s, "strip") {
            Some(Decorations::Server)
        } else {
            None
        }
    }
}

impl Settings {
    /// The toolbar and its buttons on, the window border off.
    pub open spec fn initial() -> Settings {
        Settings {
            show_window_border: false,
            show_sidebar: true,
            show_input_button: true,
            show_output_button: true,
            show_apps_button: true,
            show_mute_button: true,
            show_reset_button: true,
            decorations: Decorations::Server,
            gtk_chrome: GtkChrome::Palette,
        }
    }
}

impl Default for Settings {
    fn default() -> (settings: Self)
        ensures
            settings == Settings::initial(),
    {
        Settings {
            show_window_border: false,
            show_sidebar: true,
            show_input_button: true,
            show_output_button: true,
            show_apps_button: true,
            show_mute_button: true,
            show_reset_button: true,
            decorations: Decorations::Server,
            gtk_chrome: GtkChrome::Palette,
        }
    }
}

/// A line couldn't be parsed. `line_no` is 1-indexed.
#[derive(Debug, PartialEq, Eq)]
pub enum Error {
    BadLine { line_no: usize, content: String, reason: String },
}

#[verifier::ext_equal]
pub enum ErrorView {
    BadLine { line_no: int, content: Seq<char>, reason: Seq<char> },
}

impl View for Error {
    type V = ErrorView;

    open spec fn view(&self) -> ErrorView {
        match self {
            Error::BadLine { line_no, content, reason } => ErrorView::BadLine {
                line_no: *line_no as int,
                content: content@,
                reason: reason@,
            },
        }
    }
}

impl Error {
    /// What went wrong, in words.
    pub fn message(&self) -> (s: String)
        ensures
            self@ matches ErrorView::BadLine { line_no, content, reason } ==> s@
                == "settings line "@ + text::decimal(line_no as nat) + ": "@ + reason
                + " (got `"@ + text::trimmed(content) + "`)"@,
    {
        match self {
            Error::BadLine { line_no, content, reason } => {
                let number = decimal_text(*line_no as u64);
                let got = trim(content.as_str());
                "settings line ".to_owned().concat(number.as_str()).concat(": ").concat(
                    reason.as_str(),
                ).concat(" (got `").concat(got.as_str()).concat("`)")
            },
        }
    }
}

/// Path to the settings file inside a config directory, `None` when none
/// resolves.
pub fn settings_path(config_dir: Option<&str>) -> (path: Option<String>)
    ensures
        match config_dir {
            Some(dir) => path matches Some(p) && p@ == dir@ + "/"@ + FILENAME@,
            None => path is None,
        },
{
    match config_dir {
        Some(dir) => Some(dir.to_owned().concat("/").concat(FILENAME)),
        None => None,
    }
}

/// The settings a file holds; the defaults when there is no file. A malformed
/// line is an error.
pub fn load_from(file: Option<&str>) -> (res: Result<Settings, Error>)
    ensures
        match file {
            None => res == Ok::<Settings, Error>(Settings::initial()),
            Some(s) => match res {
                Ok(settings) => parsed(s@) == Ok::<Settings, ErrorView>(settings),
                Err(e) => parsed(s@) == Err::<Settings, ErrorView>(e@),
            },
        },
{
    match file {
        Some(s) => parse_lines(s),
        None => Ok(Settings::default()),
    }
}

/// The settings a file holds, never failing: no file or a malformed line falls
/// back to the defaults, the latter with a complaint to log, so a typo can't
/// keep the app from starting.
pub fn load(file: Option<&str>) -> (loaded: (Settings, Option<Error>))
    ensures
        match file {
            None => loaded.0 == Settings::initial() && loaded.1 is None,
            Some(s) => match parsed(s@) {
                Ok(settings) => loaded.0 == settings && loaded.1 is None,
                Err(e) => loaded.0 == Settings::initial() && loaded.1 is Some && loaded.1->Some_0@
                    == e,
            },
        },
{
    match load_from(file) {
        Ok(settings) => (settings, None),
        Err(e) => (Settings::default(), Some(e)),
    }
}

/// A toggle's value.
pub open spec fn flag(s: Seq<char>) -> Option<bool> {
    if s == "true"@ {
        Some(true)
    } else if s == "false"@ {
        Some(false)
    } else {
        None
    }
}

/// Why a value is refused.
pub open spec fn wanted(names: Seq<char>, value: Seq<char>) -> Seq<char> {
    "expected "@ + names + ", got `"@ + value + "`"@
}

/// What was read so far, and whether a line said outright who draws the
/// decorations.
#[derive(Clone, Copy, PartialEq, Eq, Debug, Structural)]
pub struct Reading {
    pub settings: Settings,
    pub outright: bool,
}

impl Reading {
    /// The same with other settings.
    pub open spec fn having(self, settings: Settings) -> Reading {
        Reading { settings, ..self }
    }
}

/// A field that settings have.
#[derive(Clone, Copy, PartialEq, Eq, Debug, Structural)]
pub enum Field {
    WindowBorder,
    Sidebar,
    InputButton,
    OutputButton,
    AppsButton,
    MuteButton,
    ResetButton,
    Decorations,
    GtkChrome,
    /// Retired in favour of `decorations`.
    Titlebar,
}

/// The field of a name.
pub open spec fn field_named(name: Seq<char>) -> Option<Field> {
    if name == "show_window_border"@ {
        Some(Field::WindowBorder)
    } else if name == "show_sidebar"@ {
        Some(Field::Sidebar)
    } else if name == "show_input_button"@ {
        Some(Field::InputButton)
    } else if name == "show_output_button"@ {
        Some(Field::OutputButton)
    } else if name == "show_apps_button"@ {
        Some(Field::AppsButton)
    } else if name == "show_mute_button"@ {
        Some(Field::MuteButton)
    } else if name == "show_reset_button"@ {
        Some(Field::ResetButton)
    } else if name == "decorations"@ {
        Some(Field::Decorations)
    } else if name == "gtk_chrome"@ {
        Some(Field::GtkChrome)
    } else if name == "titlebar"@ {
        Some(Field::Titlebar)
    } else {
        None
    }
}

/// Settings with one toggle set.
pub open spec fn with_flag(settings: Settings, field: Field, b: bool) -> Settings {
    match field {
        Field::WindowBorder => Settings { show_window_border: b, ..settings },
        Field::Sidebar => Settings { show_sidebar: b, ..settings },
        Field::InputButton => Settings { show_input_button: b, ..settings },
        Field::OutputButton => Settings { show_output_button: b, ..settings },
        Field::AppsButton => Settings { show_apps_button: b, ..settings },
        Field::MuteButton => Settings { show_mute_button: b, ..settings },
        Field::ResetButton => Settings { show_reset_button: b, ..settings },
        _ => settings,
    }
}

/// What was read, with one field set, or why its value is refused. Unknown fields
/// are tolerated for forward-compat. `titlebar` is retired in favour of
/// `decorations`: still read so an existing config keeps the chrome it asked
/// for, while an unreadable value changes nothing, and neither does any value once
/// `decorations` has been said outright.
pub open spec fn with_field(read: Reading, field: Option<Field>, value: Seq<char>) -> Result<
    Reading,
    Seq<char>,
> {
    match field {
        None => Ok(read),
        Some(Field::Decorations) => match Decorations::named(value) {
            Some(d) => Ok(
                Reading { settings: Settings { decorations: d, ..read.settings }, outright: true },
            ),
            None => Err(wanted("`server` or `client`"@, value)),
        },
        Some(Field::GtkChrome) => match GtkChrome::named(value) {
            Some(c) => Ok(read.having(Settings { gtk_chrome: c, ..read.settings })),
            None => Err(wanted("`theme` or `palette`"@, value)),
        },
        Some(Field::Titlebar) => match Decorations::titlebar(value) {
            Some(d) => if read.outright {
                Ok(read)
            } else {
                Ok(read.having(Settings { decorations: d, ..read.settings }))
            },
            None => Ok(read),
        },
        Some(toggle) => match flag(value) {
            Some(b) => Ok(read.having(with_flag(read.settings, toggle, b))),
            None => Err(wanted("`true` or `false`"@, value)),
        },
    }
}

/// A line's field and value, none where it lacks either. The first whitespace run
/// separates field from value.
pub open spec fn entry(raw: Seq<char>) -> Option<(Option<Field>, Seq<char>)> {
    let line = text::trimmed(raw);
    let at = text::first_white(line);
    if at >= line.len() {
        None
    } else {
        Some(
            (
                field_named(line.subrange(0, at)),
                text::trimmed(line.subrange(at + 1, line.len() as int)),
            ),
        )
    }
}

/// What was read, with one line taken in.
pub open spec fn with_line(read: Reading, raw: Seq<char>, line_no: int) -> Result<
    Reading,
    ErrorView,
> {
    if text::trimmed(raw).len() == 0 {
        Ok(read)
    } else if entry(raw) is None {
        Err(
            ErrorView::BadLine {
                line_no,
                content: raw,
                reason: "missing value (expected `field value`)"@,
            },
        )
    } else {
        let (field, value) = entry(raw)->Some_0;
        match with_field(read, field, value) {
            Ok(r) => Ok(r),
            Err(reason) => Err(ErrorView::BadLine { line_no, content: raw, reason }),
        }
    }
}

/// The first `n` lines taken in, one after the other; the first malformed one stops
/// it.
pub open spec fn with_lines(lines: Seq<Seq<char>>, n: int) -> Result<Reading, ErrorView>
    decreases n,
{
    if n <= 0 {
        Ok(Reading { settings: Settings::initial(), outright: false })
    } else {
        match with_lines(lines, n - 1) {
            Ok(read) => with_line(read, lines[n - 1], n),
            Err(e) => Err(e),
        }
    }
}

/// What a settings file says.
pub open spec fn parsed(s: Seq<char>) -> Result<Settings, ErrorView> {
    match with_lines(text::lines(s), text::lines(s).len() as int) {
        Ok(read) => Ok(read.settings),
        Err(e) => Err(e),
    }
}

/// The decorations that the last of the first `n` lines to name them outright asks
/// for.
pub open spec fn said_outright(lines: Seq<Seq<char>>, n: int) -> Option<Decorations>
    decreases n,
{
    if n <= 0 {
        None
    } else {
        match entry(lines[n - 1]) {
            Some((field, value)) => if field == Some(Field::Decorations) {
                Decorations::named(value)
            } else {
                said_outright(lines, n - 1)
            },
            None => said_outright(lines, n - 1),
        }
    }
}

/// The decorations that the last readable `titlebar` line asks for.
pub open spec fn said_of_titlebar(lines: Seq<Seq<char>>, n: int) -> Option<Decorations>
    decreases n,
{
    if n <= 0 {
        None
    } else {
        match entry(lines[n - 1]) {
            Some((field, value)) => if field == Some(Field::Titlebar) && Decorations::titlebar(value) is Some {
                Decorations::titlebar(value)
            } else {
                said_of_titlebar(lines, n - 1)
            },
            None => said_of_titlebar(lines, n - 1),
        }
    }
}

/// The decorations a file asks for: outright wherever that stands, else by way of
/// the retired field, else those of the defaults.
pub open spec fn chosen(lines: Seq<Seq<char>>, n: int) -> Decorations {
    match said_outright(lines, n) {
        Some(d) => d,
        None => match said_of_titlebar(lines, n) {
            Some(d) => d,
            None => Settings::initial().decorations,
        },
    }
}

/// A `decorations` line wins over every `titlebar` line, whichever comes first.
pub proof fn decorations_win_wherever_they_stand(lines: Seq<Seq<char>>, n: int)
    requires
        with_lines(lines, n) is Ok,
    ensures
        with_lines(lines, n)->Ok_0.outright == (said_outright(lines, n) is Some),
        with_lines(lines, n)->Ok_0.settings.decorations == chosen(lines, n),
    decreases n,
{
    if n > 0 {
        decorations_win_wherever_they_stand(lines, n - 1);
    }
}

proof fn first_bad_line_stands(lines: Seq<Seq<char>>, m: int, n: int)
    requires
        m <= n,
        with_lines(lines, m) is Err,
    ensures
        with_lines(lines, n) == with_lines(lines, m),
    decreases n - m,
{
    if m < n {
        first_bad_line_stands(lines, m, n - 1);
    }
}

fn unwanted(names: &str, value: &str) -> (reason: String)
    ensures
        reason@ == wanted(names@, value@),
{
    "expected ".to_owned().concat(names).concat(", got `").concat(value).concat("`")
}

fn field_of(name: &str) -> (field: Option<Field>)
    ensures
        field == field_named(name@),
{
    if same_text(name, "show_window_border") {
        Some(Field::WindowBorder)
    } else if same_text(name, "show_sidebar") {
        Some(Field::Sidebar)
    } else if same_text(name, "show_input_button") {
        Some(Field::InputButton)
    } else if same_text(name, "show_output_button") {
        Some(Field::OutputButton)
    } else if same_text(name, "show_apps_button") {
        Some(Field::AppsButton)
    } else if same_text(name, "show_mute_button") {
        Some(Field::MuteButton)
    } else if same_text(name, "show_reset_button") {
        Some(Field::ResetButton)
    } else if same_text(name, "decorations") {
        Some(Field::Decorations)
    } else if same_text(name, "gtk_chrome") {
        Some(Field::GtkChrome)
    } else if same_text(name, "titlebar") {
        Some(Field::Titlebar)
    } else {
        None
    }
}

fn set_flag(settings: &mut Settings, field: Field, b: bool)
    ensures
        *final(settings) == with_flag(*old(settings), field, b),
{
    match field {
        Field::WindowBorder => settings.show_window_border = b,
        Field::Sidebar => settings.show_sidebar = b,
        Field::InputButton => settings.show_input_button = b,
        Field::OutputButton => settings.show_output_button = b,
        Field::AppsButton => settings.show_apps_button = b,
        Field::MuteButton => settings.show_mute_button = b,
        Field::ResetButton => settings.show_reset_button = b,
        _ => {},
    }
}

fn set_field(read: &mut Reading, field: Option<Field>, value: &str) -> (res: Result<(), String>)
    ensures
        match res {
            Ok(_) => with_field(*old(read), field, value@) == Ok::<Reading, Seq<char>>(
                *final(read),
            ),
            Err(reason) => with_field(*old(read), field, value@) == Err::<Reading, Seq<char>>(
                reason@,
            ),
        },
{
    match field {
        None => {},
        Some(Field::Decorations) => match Decorations::parse(value) {
            Some(d) => {
                read.settings.decorations = d;
                read.outright = true;
            },
            None => {
                return Err(unwanted("`server` or `client`", value));
            },
        },
        Some(Field::GtkChrome) => match GtkChrome::parse(value) {
            Some(c) => {
                read.settings.gtk_chrome = c;
            },
            None => {
                return Err(unwanted("`theme` or `palette`", value));
            },
        },
        Some(Field::Titlebar) => {
            if let Some(d) = Decorations::from_titlebar(value) {
                if !read.outright {
                    read.settings.decorations = d;
                }
            }
        },
        Some(toggle) => match parse_bool(value) {
            Some(b) => set_flag(&mut read.settings, toggle, b),
            None => {
                return Err(unwanted("`true` or `false`", value));
            },
        },
    }
    Ok(())
}

fn set_line(read: &mut Reading, raw: &str, line_no: usize) -> (res: Result<(), Error>)
    ensures
        match res {
            Ok(_) => with_line(*old(read), raw@, line_no as int) == Ok::<Reading, ErrorView>(
                *final(read),
            ),
            Err(e) => with_line(*old(read), raw@, line_no as int) == Err::<Reading, ErrorView>(
                e@,
            ),
        },
{
    let line = trim(raw);
    let v = chars_of(line.as_str());
    if v.len() == 0 {
        return Ok(());
    }
    let at: usize = find_white(&v);
    if at == v.len() {
        return Err(
            Error::BadLine {
                line_no,
                content: raw.to_owned(),
                reason: "missing value (expected `field value`)".to_owned(),
            },
        );
    }
    let field = field_of(text_of(&v, 0, at).as_str());
    let after = text_of(&v, at + 1, v.len());
    let value = trim(after.as_str());
    match set_field(read, field, value.as_str()) {
        Ok(()) => Ok(()),
        Err(reason) => Err(Error::BadLine { line_no, content: raw.to_owned(), reason }),
    }
}

/// Read every line of a settings file.
pub fn parse_lines(s: &str) -> (res: Result<Settings, Error>)
    ensures
        match res {
            Ok(settings) => parsed(s@) == Ok::<Settings, ErrorView>(settings),
            Err(e) => parsed(s@) == Err::<Settings, ErrorView>(e@),
        },
        res matches Ok(settings) ==> settings.decorations == chosen(
            text::lines(s@),
            text::lines(s@).len() as int,
        ),
{
    let lines = lines_of(s);
    let ghost all = text::lines(s@);
    let mut read = Reading { settings: Settings::default(), outright: false };
    let mut i: usize = 0;
    while i < lines.len()
        invariant
            i <= lines@.len(),
            all == text::lines(s@),
            text::texts(lines@) == all,
            with_lines(all, i as int) == Ok::<Reading, ErrorView>(read),
        decreases lines@.len() - i,
    {
        assert(all[i as int] == lines@[i as int]@);
        let res = set_line(&mut read, lines[i].as_str(), i + 1);
        if let Err(e) = res {
            proof {
                first_bad_line_stands(all, i + 1, all.len() as int);
            }
            return Err(e);
        }
        i = i + 1;
    }
    proof {
        decorations_win_wherever_they_stand(all, all.len() as int);
    }
    Ok(read.settings)
}

fn parse_bool(s: &str) -> (b: Option<bool>)
    ensures
        b == flag(s@),
{
    if same_text(s, "true") {
        Some(true)
    } else if same_text(s, "false") {
        Some(false)
    } else {
        None
    }
}

/// A field no build knows yet changes nothing and is no error, whatever its value.
pub proof fn unknown_fields_change_nothing(read: Reading, name: Seq<char>, value: Seq<char>)
    requires
        field_named(name) is None,
    ensures
        with_field(read, field_named(name), value) == Ok::<Reading, Seq<char>>(read),
{
}

/// Blank lines change nothing and are no error, wherever they stand.
pub proof fn blank_lines_change_nothing(read: Reading, raw: Seq<char>, line_no: int)
    requires
        text::trimmed(raw).len() == 0,
    ensures
        with_line(read, raw, line_no) == Ok::<Reading, ErrorView>(read),
{
}

/// Of two lines for one field the later one wins: whatever value an earlier one
/// gave, what the later one leaves is what it would have left alone. A `titlebar`
/// line that cannot be read says nothing and wins over none.
pub proof fn later_lines_win(read: Reading, field: Field, earlier: Seq<char>, later: Seq<char>)
    requires
        with_field(read, Some(field), earlier) is Ok,
        field == Field::Titlebar ==> Decorations::titlebar(later) is Some,
    ensures
        with_field(with_field(read, Some(field), earlier)->Ok_0, Some(field), later)
            == with_field(read, Some(field), later),
{
}

/// Each field sets its own toggle and leaves every other alone, so what one line
/// sets no line for another field undoes. `titlebar` and `decorations` set the
/// same one.
pub proof fn fields_do_not_disturb_each_other(read: Reading, field: Field, value: Seq<char>)
    requires
        with_field(read, Some(field), value) is Ok,
    ensures
        ({
            let settings = read.settings;
            let s = with_field(read, Some(field), value)->Ok_0.settings;
            &&& field != Field::WindowBorder ==> s.show_window_border
                == settings.show_window_border
            &&& field != Field::Sidebar ==> s.show_sidebar == settings.show_sidebar
            &&& field != Field::InputButton ==> s.show_input_button == settings.show_input_button
            &&& field != Field::OutputButton ==> s.show_output_button
                == settings.show_output_button
            &&& field != Field::AppsButton ==> s.show_apps_button == settings.show_apps_button
            &&& field != Field::MuteButton ==> s.show_mute_button == settings.show_mute_button
            &&& field != Field::ResetButton ==> s.show_reset_button == settings.show_reset_button
            &&& field != Field::GtkChrome ==> s.gtk_chrome == settings.gtk_chrome
            &&& field != Field::Decorations && field != Field::Titlebar ==> s.decorations
                == settings.decorations
        }),
{
}

/// What a field is once it has been given a value.
pub open spec fn told(read: Reading, name: Seq<char>, value: Seq<char>) -> Settings {
    with_field(read, field_named(name), value)->Ok_0.settings
}

/// Whether a switch is what its value says.
pub open spec fn says_so(value: Seq<char>, on: bool) -> bool {
    (value == "true"@ ==> on) && (value == "false"@ ==> !on)
}

/// A switch goes by the name the file gives it: a value of `true` turns it on, one of
/// `false` turns it off.
pub proof fn switches_go_by_their_names(read: Reading, value: Seq<char>)
    requires
        value == "true"@ || value == "false"@,
    ensures
        says_so(value, told(read, "show_window_border"@, value).show_window_border),
        says_so(value, told(read, "show_sidebar"@, value).show_sidebar),
        says_so(value, told(read, "show_input_button"@, value).show_input_button),
        says_so(value, told(read, "show_output_button"@, value).show_output_button),
        says_so(value, told(read, "show_apps_button"@, value).show_apps_button),
        says_so(value, told(read, "show_mute_button"@, value).show_mute_button),
        says_so(value, told(read, "show_reset_button"@, value).show_reset_button),
{
    names_differ();
}

/// Who draws the window's chrome goes by the name the file gives it too.
pub proof fn chrome_goes_by_its_name(read: Reading)
    ensures
        told(read, "decorations"@, "server"@).decorations == Decorations::Server,
        told(read, "decorations"@, "client"@).decorations == Decorations::Client,
        told(read, "gtk_chrome"@, "theme"@).gtk_chrome == GtkChrome::Theme,
        told(read, "gtk_chrome"@, "palette"@).gtk_chrome == GtkChrome::Palette,
        !read.outright ==> told(read, "titlebar"@, "headerbar"@).decorations
            == Decorations::Client && told(read, "titlebar"@, "strip"@).decorations
            == Decorations::Server,
{
    names_differ();
}

proof fn names_differ()
    ensures
        "true"@ != "false"@,
        "server"@ != "client"@,
        "theme"@ != "palette"@,
        "headerbar"@ != "strip"@,
        "show_sidebar"@ != "show_window_border"@,
        "show_input_button"@ != "show_window_border"@,
        "show_input_button"@ != "show_sidebar"@,
        "show_output_button"@ != "show_window_border"@,
        "show_output_button"@ != "show_sidebar"@,
        "show_output_button"@ != "show_input_button"@,
        "show_apps_button"@ != "show_window_border"@,
        "show_apps_button"@ != "show_sidebar"@,
        "show_apps_button"@ != "show_input_button"@,
        "show_apps_button"@ != "show_output_button"@,
        "show_mute_button"@ != "show_window_border"@,
        "show_mute_button"@ != "show_sidebar"@,
        "show_mute_button"@ != "show_input_button"@,
        "show_mute_button"@ != "show_output_button"@,
        "show_mute_button"@ != "show_apps_button"@,
        "show_reset_button"@ != "show_window_border"@,
        "show_reset_button"@ != "show_sidebar"@,
        "show_reset_button"@ != "show_input_button"@,
        "show_reset_button"@ != "show_output_button"@,
        "show_reset_button"@ != "show_apps_button"@,
        "show_reset_button"@ != "show_mute_button"@,
        field_named("decorations"@) == Some(Field::Decorations),
        field_named("gtk_chrome"@) == Some(Field::GtkChrome),
        field_named("titlebar"@) == Some(Field::Titlebar),
{
    reveal_strlit("true");
    reveal_strlit("false");
    reveal_strlit("server");
    reveal_strlit("client");
    reveal_strlit("theme");
    reveal_strlit("palette");
    reveal_strlit("headerbar");
    reveal_strlit("strip");
    reveal_strlit("show_window_border");
    reveal_strlit("show_sidebar");
    reveal_strlit("show_input_button");
    reveal_strlit("show_output_button");
    reveal_strlit("show_apps_button");
    reveal_strlit("show_mute_button");
    reveal_strlit("show_reset_button");
    reveal_strlit("decorations");
    reveal_strlit("gtk_chrome");
    reveal_strlit("titlebar");
    assert("true"@.len() != "false"@.len());
    assert("theme"@.len() != "palette"@.len());
    assert("headerbar"@.len() != "strip"@.len());
    assert("server"@[0] != "client"@[0]);
    assert("show_window_border"@[5] == 'w');
    assert("show_sidebar"@[5] == 's');
    assert("show_input_button"@[5] == 'i');
    assert("show_output_button"@[5] == 'o');
    assert("show_apps_button"@[5] == 'a');
    assert("show_mute_button"@[5] == 'm');
    assert("show_reset_button"@[5] == 'r');
    assert("decorations"@[0] != 's' && "gtk_chrome"@[0] != 's' && "titlebar"@[0] != 's');
    assert("show_window_border"@[0] == 's' && "show_sidebar"@[0] == 's'
        && "show_input_button"@[0] == 's' && "show_output_button"@[0] == 's'
        && "show_apps_button"@[0] == 's' && "show_mute_button"@[0] == 's'
        && "show_reset_button"@[0] == 's');
}

} // verus!
