//! The config model (windows of loose tabs, groups and project-tree roots), its defaults, the
//! errors validation can report, and the tilde expansion a tab's `dir` goes through.

use vstd::prelude::*;
use crate::text::{chars_of, copy_opt_string, debug_quoted, debug_str, decimal, is_blank, push_decimal, push_str, str_is_blank, string_of, trim, trimmed_chars};

verus! {

/// What to open when a window launches. The default (`false` / unset) opens the first
/// `load_on_open` (loaded) tab, else the blank background. `true` opens the first tab even if it
/// isn't loaded; a string opens the tab whose `title` matches (falling back to the first).
#[derive(Debug, Clone, PartialEq)]
pub enum OpenOnLaunch {
    Toggle(bool),
    Tab(String),
}

impl Default for OpenOnLaunch {
    fn default() -> (r: Self)
        ensures
            r == OpenOnLaunch::Toggle(false),
    {
        OpenOnLaunch::Toggle(false)
    }
}

impl OpenOnLaunch {
    /// An owned copy.
    pub fn copy(&self) -> (r: Self)
        ensures
            r == *self,
    {
        match self {
            OpenOnLaunch::Toggle(b) => OpenOnLaunch::Toggle(*b),
            OpenOnLaunch::Tab(t) => OpenOnLaunch::Tab(t.clone()),
        }
    }
}

/// Chrome sizing mode (whole-app). `Comfortable` (default) is the standard sizing; `Compact`
/// condenses the chrome's type and spacing for denser tab lists.
#[derive(Debug, Clone, Copy, PartialEq, Eq, Structural)]
pub enum Density {
    Comfortable,
    Compact,
}

impl Default for Density {
    fn default() -> (r: Self)
        ensures
            r == Density::Comfortable,
    {
        Density::Comfortable
    }
}

/// What the digit keys do in the Tab menu (whole-app). `Jump` (default): ⌘1–9 jump to a tab.
/// `Cycle`: ⌘1/⌘2 also step to the previous/next tab.
#[derive(Debug, Clone, Copy, PartialEq, Eq, Structural)]
pub enum TabDigitKeys {
    Jump,
    Cycle,
}

impl Default for TabDigitKeys {
    fn default() -> (r: Self)
        ensures
            r == TabDigitKeys::Jump,
    {
        TabDigitKeys::Jump
    }
}

impl TabDigitKeys {
    /// Whether the menu carries the previous/next cycle aliases.
    pub fn is_cycle(&self) -> (r: bool)
        ensures
            r == (*self == TabDigitKeys::Cycle),
    {
        match self {
            TabDigitKeys::Jump => false,
            TabDigitKeys::Cycle => true,
        }
    }
}

/// The whole config: app-global chrome settings plus the windows.
#[derive(Debug, Clone, PartialEq)]
pub struct Config {
    /// Force dark appearance app-wide. Default false.
    pub dark_mode: bool,
    /// Reformat the config file in place on a clean hot-reload. Default false.
    pub format_on_save: bool,
    /// Chrome sizing mode (whole-app). Default comfortable.
    pub density: Density,
    /// Whether the sidebar chrome acts as a window-move drag handle. Default true.
    pub sidebar_drag: bool,
    /// Whether lector checks for a new release on launch. Default true.
    pub auto_update: bool,
    /// What the Tab menu's digit keys do. Default jump.
    pub tab_digit_keys: TabDigitKeys,
    pub windows: Vec<WindowConfig>,
}

/// The empty config, with the same defaults an empty config file parses to: `sidebar_drag` and
/// `auto_update` on, digit keys jumping, everything else off, no windows.
impl Default for Config {
    fn default() -> (r: Self)
        ensures
            !r.dark_mode,
            !r.format_on_save,
            r.density == Density::Comfortable,
            r.sidebar_drag,
            r.auto_update,
            r.tab_digit_keys == TabDigitKeys::Jump,
            r.windows@.len() == 0,
    {
        Config {
            dark_mode: false,
            format_on_save: false,
            density: Density::Comfortable,
            sidebar_drag: true,
            auto_update: true,
            tab_digit_keys: TabDigitKeys::Jump,
            windows: Vec::new(),
        }
    }
}

/// One configured window.
#[derive(Debug, Clone, PartialEq)]
pub struct WindowConfig {
    pub title: String,
    pub width: u32,
    pub height: u32,
    pub open_on_launch: OpenOnLaunch,
    /// Optional per-window accent colour (`#rgb` or `#rrggbb`).
    pub colour: Option<String>,
    /// Loose (ungrouped) tabs. They render in a leading headerless section, before any group.
    pub tabs: Vec<Tab>,
    pub groups: Vec<Group>,
    pub roots: Vec<RawRoot>,
}

/// A named section of tabs.
#[derive(Debug, Clone, PartialEq)]
pub struct Group {
    pub name: String,
    pub tabs: Vec<Tab>,
}

/// A project-tree root: `dir` is scanned (to `depth`) for repos, each rendered as a discovered
/// tab. `name` defaults to the basename of `dir`.
#[derive(Debug, Clone, PartialEq)]
pub struct RawRoot {
    pub name: Option<String>,
    pub dir: String,
    pub depth: Option<u32>,
}

/// One doc repo.
#[derive(Debug, Clone, PartialEq)]
pub struct Tab {
    pub title: String,
    /// The doc repo path — tilde-expanded and canonicalized at resolve time.
    pub dir: String,
    /// Start this repo's server at launch.
    pub load_on_open: bool,
}

impl Tab {
    /// An owned copy.
    pub fn copy(&self) -> (r: Tab)
        ensures
            r == *self,
    {
        Tab { title: self.title.clone(), dir: self.dir.clone(), load_on_open: self.load_on_open }
    }
}

impl RawRoot {
    /// An owned copy.
    pub fn copy(&self) -> (r: RawRoot)
        ensures
            r == *self,
    {
        RawRoot { name: copy_opt_string(&self.name), dir: self.dir.clone(), depth: self.depth }
    }
}

/// Default for `sidebar_drag` and `auto_update` when the key is absent.
pub fn default_true() -> (r: bool)
    ensures
        r,
{
    true
}

/// Default window width when `width` is absent.
pub fn default_window_width() -> (r: u32)
    ensures
        r == 1500,
{
    1500
}

/// Default window height when `height` is absent.
pub fn default_window_height() -> (r: u32)
    ensures
        r == 1000,
{
    1000
}

/// Why a config was rejected.
#[derive(Debug)]
pub enum ConfigError {
    /// The config file could not be read (the I/O error's message).
    Io(String),
    /// The config file is not valid TOML for this schema (the parser's message).
    Parse(String),
    EmptyField(&'static str),
    DuplicateWindowTitle(String),
    DuplicateTabTitle { window: String, title: String },
    DuplicateGroupName { window: String, name: String },
    InvalidWindowSize { width: u32, height: u32 },
    InvalidColour { title: String, colour: String },
    EmptyRootDir { window: String },
    EmptyRootName { window: String },
    InvalidRootDepth { window: String, depth: u32 },
    DuplicateSection { window: String, name: String },
}

/// The text a `ConfigError` displays as, given the `{:?}` renderings of the window name it
/// carries (`qw`) and of the tab title or group or section name it carries (`qn`); variants
/// without such a field ignore them.
pub open spec fn error_message_with(e: ConfigError, qw: Seq<char>, qn: Seq<char>) -> Seq<char> {
    match e {
        ConfigError::Io(m) => "cannot read config: "@ + m@,
        ConfigError::Parse(m) => "invalid TOML: "@ + m@,
        ConfigError::EmptyField(f) => "empty "@ + f@,
        ConfigError::DuplicateWindowTitle(t) => "duplicate window title: "@ + t@,
        ConfigError::DuplicateTabTitle { .. } => "window "@ + qw + " has duplicate tab title: "@ + qn,
        ConfigError::DuplicateGroupName { .. } => "window "@ + qw + " has duplicate group name: "@ + qn,
        ConfigError::InvalidWindowSize { width, height } => "window size must be positive, got "@
            + decimal(width as nat) + "\u{d7}"@ + decimal(height as nat),
        ConfigError::InvalidColour { title, colour } => "window \""@ + title@
            + "\" has invalid colour: "@ + colour@,
        ConfigError::EmptyRootDir { .. } => "window "@ + qw + " has a root with an empty dir"@,
        ConfigError::EmptyRootName { .. } => "window "@ + qw + " has a root with an empty name"@,
        ConfigError::InvalidRootDepth { depth, .. } => "window "@ + qw
            + " has a root with invalid depth "@ + decimal(depth as nat),
        ConfigError::DuplicateSection { .. } => "window "@ + qw + " has duplicate section name: "@ + qn,
    }
}

/// The window name an error carries, if any.
pub open spec fn error_window(e: ConfigError) -> Seq<char> {
    match e {
        ConfigError::DuplicateTabTitle { window, .. } => window@,
        ConfigError::DuplicateGroupName { window, .. } => window@,
        ConfigError::EmptyRootDir { window } => window@,
        ConfigError::EmptyRootName { window } => window@,
        ConfigError::InvalidRootDepth { window, .. } => window@,
        ConfigError::DuplicateSection { window, .. } => window@,
        _ => Seq::empty(),
    }
}

/// The tab title or group or section name an error carries, if any.
pub open spec fn error_item(e: ConfigError) -> Seq<char> {
    match e {
        ConfigError::DuplicateTabTitle { title, .. } => title@,
        ConfigError::DuplicateGroupName { name, .. } => name@,
        ConfigError::DuplicateSection { name, .. } => name@,
        _ => Seq::empty(),
    }
}

/// The text a `ConfigError` displays as.
pub open spec fn error_message(e: ConfigError) -> Seq<char> {
    error_message_with(e, debug_quoted(error_window(e)), debug_quoted(error_item(e)))
}

impl ConfigError {
    /// The window name this error carries (empty when it carries none).
    fn window_str(&self) -> (r: &str)
        ensures
            r@ == error_window(*self),
    {
        match self {
            ConfigError::DuplicateTabTitle { window, .. } => window.as_str(),
            ConfigError::DuplicateGroupName { window, .. } => window.as_str(),
            ConfigError::EmptyRootDir { window } => window.as_str(),
            ConfigError::EmptyRootName { window } => window.as_str(),
            ConfigError::InvalidRootDepth { window, .. } => window.as_str(),
            ConfigError::DuplicateSection { window, .. } => window.as_str(),
            _ => {
                proof { reveal_strlit(""); }
                ""
            },
        }
    }

    /// The tab title or group or section name this error carries (empty when it carries none).
    fn item_str(&self) -> (r: &str)
        ensures
            r@ == error_item(*self),
    {
        match self {
            ConfigError::DuplicateTabTitle { title, .. } => title.as_str(),
            ConfigError::DuplicateGroupName { name, .. } => name.as_str(),
            ConfigError::DuplicateSection { name, .. } => name.as_str(),
            _ => {
                proof { reveal_strlit(""); }
                ""
            },
        }
    }

    /// The human-readable message for this error (what the app logs and the chrome shows).
    pub fn message(&self) -> (m: String)
        ensures
            m@ == error_message(*self),
    {
        let qw = debug_str(self.window_str());
        let qn = debug_str(self.item_str());
        self.message_with(qw.as_str(), qn.as_str())
    }

    /// The message for this error, given the `{:?}` renderings of the window name (`qw`) and of
    /// the tab title or group or section name (`qn`) it carries.
    pub fn message_with(&self, qw: &str, qn: &str) -> (m: String)
        ensures
            m@ == error_message_with(*self, qw@, qn@),
    {
        let mut v: Vec<char> = Vec::new();
        match self {
            ConfigError::Io(m) => {
                push_str(&mut v, "cannot read config: ");
                push_str(&mut v, m.as_str());
            },
            ConfigError::Parse(m) => {
                push_str(&mut v, "invalid TOML: ");
                push_str(&mut v, m.as_str());
            },
            ConfigError::EmptyField(f) => {
                push_str(&mut v, "empty ");
                push_str(&mut v, f);
            },
            ConfigError::DuplicateWindowTitle(t) => {
                push_str(&mut v, "duplicate window title: ");
                push_str(&mut v, t.as_str());
            },
            ConfigError::DuplicateTabTitle { .. } => {
                push_str(&mut v, "window ");
                push_str(&mut v, qw);
                push_str(&mut v, " has duplicate tab title: ");
                push_str(&mut v, qn);
            },
            ConfigError::DuplicateGroupName { .. } => {
                push_str(&mut v, "window ");
                push_str(&mut v, qw);
                push_str(&mut v, " has duplicate group name: ");
                push_str(&mut v, qn);
            },
            ConfigError::InvalidWindowSize { width, height } => {
                push_str(&mut v, "window size must be positive, got ");
                push_decimal(&mut v, *width as u64);
                push_str(&mut v, "\u{d7}");
                push_decimal(&mut v, *height as u64);
            },
            ConfigError::InvalidColour { title, colour } => {
                push_str(&mut v, "window \"");
                push_str(&mut v, title.as_str());
                push_str(&mut v, "\" has invalid colour: ");
                push_str(&mut v, colour.as_str());
            },
            ConfigError::EmptyRootDir { .. } => {
                push_str(&mut v, "window ");
                push_str(&mut v, qw);
                push_str(&mut v, " has a root with an empty dir");
            },
            ConfigError::EmptyRootName { .. } => {
                push_str(&mut v, "window ");
                push_str(&mut v, qw);
                push_str(&mut v, " has a root with an empty name");
            },
            ConfigError::InvalidRootDepth { depth, .. } => {
                push_str(&mut v, "window ");
                push_str(&mut v, qw);
                push_str(&mut v, " has a root with invalid depth ");
                push_decimal(&mut v, *depth as u64);
            },
            ConfigError::DuplicateSection { .. } => {
                push_str(&mut v, "window ");
                push_str(&mut v, qw);
                push_str(&mut v, " has duplicate section name: ");
                push_str(&mut v, qn);
            },
        }
        assert(v@ =~= error_message_with(*self, qw@, qn@));
        string_of(&v)
    }
}

/// A non-fatal config issue surfaced to the user without rejecting the config.
#[derive(Debug, Clone, PartialEq)]
pub struct Warning {
    pub window: String,
    pub message: String,
}

impl View for Warning {
    type V = (Seq<char>, Seq<char>);

    open spec fn view(&self) -> (Seq<char>, Seq<char>) {
        (self.window@, self.message@)
    }
}

/// Whether `c` is a hex digit, either case.
pub open spec fn is_hex_char(c: char) -> bool {
    ('0' <= c && c <= '9') || ('a' <= c && c <= 'f') || ('A' <= c && c <= 'F')
}

/// A `#rgb` or `#rrggbb` hex colour — the forms the chrome banner accepts.
pub open spec fn is_hex_colour_spec(s: Seq<char>) -> bool {
    &&& (s.len() == 4 || s.len() == 7)
    &&& s[0] == '#'
    &&& forall|i: int| 1 <= i < s.len() ==> is_hex_char(#[trigger] s[i])
}

/// True for a `#rgb` or `#rrggbb` hex colour.
pub fn is_hex_colour(s: &str) -> (r: bool)
    ensures
        r == is_hex_colour_spec(s@),
{
    let cs = chars_of(s);
    if cs.len() != 4 && cs.len() != 7 {
        return false;
    }
    if cs[0] != '#' {
        return false;
    }
    let mut i: usize = 1;
    while i < cs.len()
        invariant
            cs@ == s@,
            1 <= i <= cs@.len(),
            forall|k: int| 1 <= k < i ==> is_hex_char(#[trigger] cs@[k]),
        decreases cs@.len() - i,
    {
        let c = cs[i];
        if !(('0' <= c && c <= '9') || ('a' <= c && c <= 'f') || ('A' <= c && c <= 'F')) {
            return false;
        }
        i += 1;
    }
    true
}

/// The error `validate_tab` reports for a tab, if any: a blank title, else a blank dir.
pub open spec fn tab_field_error(title: Seq<char>, dir: Seq<char>) -> Option<ConfigError> {
    if is_blank(title) {
        Some(ConfigError::EmptyField("title"))
    } else if is_blank(dir) {
        Some(ConfigError::EmptyField("dir"))
    } else {
        None
    }
}

/// Per-tab field validation shared by loose and grouped tabs: a non-blank title, then a
/// non-blank dir. A missing or non-directory `dir` is deliberately not an error.
pub fn validate_tab(tab: &Tab) -> (r: Result<(), ConfigError>)
    ensures
        match tab_field_error(tab.title@, tab.dir@) {
            Some(e) => r == Err::<(), ConfigError>(e),
            None => r is Ok,
        },
{
    if str_is_blank(tab.title.as_str()) {
        return Err(ConfigError::EmptyField("title"));
    }
    if str_is_blank(tab.dir.as_str()) {
        return Err(ConfigError::EmptyField("dir"));
    }
    Ok(())
}

/// Joining one path onto another, as `Path::join` does on Unix, on the paths' bytes: `rest`
/// when it is absolute, else `base` and `rest` with one `/` between them (none added when `base`
/// is empty or already ends in `/`).
pub open spec fn spec_join(base: Seq<u8>, rest: Seq<u8>) -> Seq<u8> {
    if rest.len() > 0 && rest[0] == 47u8 {
        rest
    } else if base.len() == 0 || base.last() == 47u8 {
        base + rest
    } else {
        base + seq![47u8] + rest
    }
}

/// Join `rest` onto `base` (bytes of Unix paths).
pub fn path_join(base: &Vec<u8>, rest: &Vec<u8>) -> (r: Vec<u8>)
    ensures
        r@ == spec_join(base@, rest@),
{
    if rest.len() > 0 && rest[0] == 47u8 {
        return rest.clone();
    }
    let mut r = base.clone();
    if base.len() > 0 && base[base.len() - 1] != 47u8 {
        r.push(47u8);
    }
    let ghost head = r@;
    let mut i: usize = 0;
    while i < rest.len()
        invariant
            i <= rest@.len(),
            r@ == head + rest@.take(i as int),
        decreases rest@.len() - i,
    {
        r.push(rest[i]);
        assert(rest@.take(i + 1) =~= rest@.take(i as int).push(rest@[i as int]));
        i += 1;
    }
    assert(rest@.take(i as int) =~= rest@);
    r
}

/// `dirs::home_dir()`, as the bytes of the path (`OsString::into_encoded_bytes`, one for one).
/// What it returns depends on the environment.
#[verifier::external_body]
fn home_dir() -> (r: Option<Vec<u8>>) {
    match dirs::home_dir() {
        Some(p) => Some(p.into_os_string().into_encoded_bytes()),
        None => None,
    }
}

/// Tilde expansion of `dir` given the home directory's bytes: the trimmed `dir`'s UTF-8 bytes,
/// with a leading `~/` replaced by the home dir joined to the rest, and a bare `~` replaced by
/// the home dir. `.` stands in for an unknown home. A `~name` is left verbatim.
pub open spec fn spec_expand_tilde(dir: Seq<char>, home: Option<Seq<u8>>) -> Seq<u8> {
    let t = trim(dir);
    let h = match home {
        Some(h) => h,
        None => seq![46u8],
    };
    if t.len() >= 2 && t[0] == '~' && t[1] == '/' {
        spec_join(h, vstd::utf8::encode_utf8(t.skip(2)))
    } else if t == seq!['~'] {
        h
    } else {
        vstd::utf8::encode_utf8(t)
    }
}

/// The UTF-8 bytes of a char sequence.
fn utf8_of(chars: &Vec<char>) -> (r: Vec<u8>)
    ensures
        r@ == vstd::utf8::encode_utf8(chars@),
{
    let s = string_of(chars);
    let b = s.as_str().as_bytes();
    vstd::slice::slice_to_vec(b)
}

/// Expand a leading `~` in `dir` against the given home directory, giving the path's bytes. Not
/// canonicalization: a missing dir still yields a path.
pub fn expand_tilde_with(dir: &str, home: &Option<Vec<u8>>) -> (r: Vec<u8>)
    ensures
        r@ == spec_expand_tilde(
            dir@,
            match home {
                Some(h) => Some(h@),
                None => None,
            },
        ),
{
    let t = trimmed_chars(dir);
    let h = match home {
        Some(h) => h.clone(),
        None => vec![46u8],
    };
    if t.len() >= 2 && t[0] == '~' && t[1] == '/' {
        let mut rest: Vec<char> = Vec::new();
        let mut i: usize = 2;
        while i < t.len()
            invariant
                2 <= i <= t@.len(),
                rest@ == t@.subrange(2, i as int),
            decreases t@.len() - i,
        {
            rest.push(t[i]);
            assert(t@.subrange(2, i + 1) =~= t@.subrange(2, i as int).push(t@[i as int]));
            i += 1;
        }
        assert(rest@ =~= t@.skip(2));
        let rest_b = utf8_of(&rest);
        path_join(&h, &rest_b)
    } else if t.len() == 1 && t[0] == '~' {
        assert(t@ =~= seq!['~']);
        h
    } else {
        assert(t@.len() != 1 || t@[0] != '~' ==> t@ != seq!['~']);
        utf8_of(&t)
    }
}

/// Expand a leading `~` to the home dir, giving the path's bytes. Not canonicalization — a
/// missing dir must still produce a path (it warns, it doesn't error), so this never touches the
/// filesystem. The home dir comes from the environment, so the result is stated for whichever
/// home was found.
pub fn expand_tilde(dir: &str) -> (r: Vec<u8>)
    ensures
        exists|home: Option<Seq<u8>>| r@ == spec_expand_tilde(dir@, home),
{
    let home = home_dir();
    let r = expand_tilde_with(dir, &home);
    let ghost h = match home {
        Some(h) => Some(h@),
        None => None,
    };
    assert(r@ == spec_expand_tilde(dir@, h));
    r
}

} // verus!
