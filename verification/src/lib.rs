//! Links that open a new issue, filled in from named templates.

pub mod config;
pub mod map;
pub mod placeholder;
pub mod report;
pub mod substitution;
pub mod template;
pub mod text;
pub mod url_encode;

pub use config::{
    generate_github_url, get_hyperlink_mode, init, init_handle, BugReportConfig,
    BugReportConfigBuilder, BugReportHandle, ConfigRegistry, HyperlinkMode,
};
pub use map::FxHashMap;
pub use placeholder::extract_placeholders;
pub use report::{create_terminal_hyperlink, supports_hyperlinks, NoOutput, Output};
pub use template::{IssueTemplate, TemplateFile};
