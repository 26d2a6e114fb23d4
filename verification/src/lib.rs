//! Structured log lines: an ordered severity, a colour palette per severity,
//! a record builder with a deterministic rendering, and a registry that fans
//! every rendered line out to its subscribers.

pub mod builder;
pub mod colorscheme;
pub mod hub;
pub mod level;
pub mod logging;
pub mod recolor;
pub mod state;
pub mod text;
pub mod timestamp;

pub use builder::LogBuilder;
pub use colorscheme::{gruvbox_dark, ColorResolver, ColorScheme};
pub use hub::{Registry, Subscription};
pub use level::Level;
pub use logging::{compact, level_from_setting, log};
pub use state::{
    broadcast_log_line, global_level, log_line, log_line_at, log_lines, render_enabled,
    render_enabled_at, set_color_scheme, set_global_level, subscribe_logs, LogState,
};
pub use timestamp::Timestamp;
