//! Bootstraps a smart-contract audit workspace: scope handling, signature
//! extraction and the text of the files written into the workspace.
pub mod report;
pub mod repo;
pub mod scope;
pub mod settings;
pub mod signatures;
pub mod text;
pub mod workflow;

pub use report::{notes_appendix, render_file_section, render_scope_line, ScopedFile};
pub use repo::{parse_repo_input, repo_dir_name, RepoTarget};
pub use settings::{secrets_file_content, ContentSettings, EnvSettings, Settings};
pub use scope::{
    accept_scope_line, collect_scope, load_scope, normalize_entries, render_scope, split_lines,
    strip_leading_dot_slash,
};
pub use signatures::{
    extract_signatures, is_state_changing_signature, select_state_changing, ExtractError,
    SIGNATURE_PATTERN,
};
pub use text::{chars_of, contains_seq};
pub use workflow::{advance, is_final_stage, Stage};
