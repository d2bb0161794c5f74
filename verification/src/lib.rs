//! lector's library: the window/tab config and its validation, the stable window and tab labels
//! derived from it, the sidebar's tab state, and the text and URLs the app builds from them.
//!
//! - [`hash`]: the frozen FNV-1a/64 the labels are derived with.
//! - [`identity`]: window ids and label namespacing.
//! - [`config`]: the config model, its defaults and errors, tilde expansion.
//! - [`validate`]: config validation (errors and non-fatal warnings).
//! - [`views`]: resolving a window's tabs into ordered, stably-labelled rows.
//! - [`state`]: the app's tab state, sidebar rows and neighbour promotion.
//! - [`origin`]: a tab's loopback site and its navigation gate.
//! - [`servers`]: the registry of live site servers, by tab label.
//! - [`report`]: warning lines and the `validate` report.
//! - [`text`], [`keyed`]: character-level helpers and a small string-keyed map.

pub mod hash;
pub mod text;
pub mod identity;
pub mod config;
pub mod validate;
pub mod views;
pub mod keyed;
pub mod state;
pub mod origin;
pub mod report;
pub mod servers;

pub use config::{
    default_true, default_window_height, default_window_width, expand_tilde, is_hex_colour,
    validate_tab, Config, ConfigError, Density, Group, OpenOnLaunch, RawRoot, Tab, TabDigitKeys,
    Warning,
    WindowConfig,
};
pub use hash::fnv1a_64;
pub use identity::{detach_window_token, namespaced, window_id, window_of};
pub use origin::{is_own_origin, site_url};
pub use state::{
    neighbour_label, pick_live_neighbour, tab_dtos, AppState, Identity, LectorDetached, Redock,
    TabPayload, UnloadPlan,
};
pub use servers::Servers;
pub use validate::{validate, ResolvedRoot, RootCheck, RootError, WindowFacts};
pub use views::{dir_label, DiscoveredProject, TabView};
