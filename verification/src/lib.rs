//! Verified core of a tool that turns an mbox archive into one text file per
//! email: splitting the archive into messages, choosing each message's plain
//! text body, sanitising subjects into file names and filling the configured
//! file name pattern and file template.

pub mod cli;
pub mod config;
pub mod export;
pub mod mbox;
pub mod mime;
pub mod sanitise;
pub mod text;

pub use config::{Config, FallbacksConfig, OutputConfig, PathsConfig};
pub use cli::{parse_args, CliArgs, CliError};
pub use export::{prepare_export, render_email, ExportFile, ExportTally};
pub use mbox::{split_mbox, MboxSplitter, RawMessage};
pub use mime::{extract_plain_text, parse_message, MimeParseError, MimePart, ParsedEmail};
pub use sanitise::{sanitise_filename, sanitise_filename_default_length};
