//! Settings for one classification run: colour mode, log level, an optional
//! language filter, the display flag and the set of root paths to scan.
//!
//! The configuration is an explicit value built once at startup and handed
//! by reference into the engine; paths behave as a set, so adding a path
//! that is already present changes nothing.

use vstd::prelude::*;

use crate::text::contains_str;
use crate::text::seq_contains_chars;

verus! {

/// When to colour the program's output.
#[derive(Debug, Clone, Copy, PartialEq, Eq, Structural)]
pub enum Color {
    Always,
    Auto,
    Never,
}

impl Default for Color {
    /// The colour mode used when none is chosen.
    fn default() -> (r: Self)
        ensures
            r == Color::Auto,
    {
        Color::Auto
    }
}

/// How much diagnostic output to emit.
#[derive(Debug, Clone, Copy, PartialEq, Eq, Structural)]
pub enum LogLevel {
    Error,
    Warning,
    Info,
    Debug,
    Trace,
}

impl Default for LogLevel {
    /// The log level used when none is chosen.
    fn default() -> (r: Self)
        ensures
            r == LogLevel::Error,
    {
        LogLevel::Error
    }
}

/// Settings for one classification run.
#[derive(Debug)]
pub struct Config {
    pub color: Color,
    pub filename_only: bool,
    pub log_level: LogLevel,
    pub language: Option<String>,
    pub paths: Vec<String>,
}

impl Default for Config {
    /// A configuration with every setting at its default and no paths.
    fn default() -> (r: Self)
        ensures
            r.color == Color::Auto,
            r.filename_only == false,
            r.log_level == LogLevel::Error,
            r.language is None,
            r.paths@.len() == 0,
    {
        Config::new()
    }
}

impl Config {
    /// A configuration with every setting at its default and no paths.
    pub fn new() -> (r: Config)
        ensures
            r.color == Color::Auto,
            r.filename_only == false,
            r.log_level == LogLevel::Error,
            r.language is None,
            r.paths@.len() == 0,
    {
        Config {
            color: Color::Auto,
            filename_only: false,
            log_level: LogLevel::Error,
            language: None,
            paths: Vec::new(),
        }
    }

    /// Get when to output color.
    pub fn color(&self) -> (r: &Color)
        ensures
            *r == self.color,
    {
        &self.color
    }

    /// Set when to output color.
    pub fn set_color(self, val: Color) -> (r: Config)
        ensures
            r.color == val,
            r.filename_only == self.filename_only,
            r.log_level == self.log_level,
            r.language == self.language,
            r.paths == self.paths,
    {
        Config { color: val, ..self }
    }

    /// Get whether only the file name is displayed in the output.
    pub fn filename_only(&self) -> (r: bool)
        ensures
            r == self.filename_only,
    {
        self.filename_only
    }

    /// Set whether to display only the file name in the output.
    pub fn set_filename_only(self, val: bool) -> (r: Config)
        ensures
            r.filename_only == val,
            r.color == self.color,
            r.log_level == self.log_level,
            r.language == self.language,
            r.paths == self.paths,
    {
        Config { filename_only: val, ..self }
    }

    /// Get the logging level.
    pub fn log_level(&self) -> (r: &LogLevel)
        ensures
            *r == self.log_level,
    {
        &self.log_level
    }

    /// Set the logging level.
    pub fn set_log_level(self, val: LogLevel) -> (r: Config)
        ensures
            r.log_level == val,
            r.color == self.color,
            r.filename_only == self.filename_only,
            r.language == self.language,
            r.paths == self.paths,
    {
        Config { log_level: val, ..self }
    }

    /// Get the language for filtering output.
    pub fn language(&self) -> (r: &Option<String>)
        ensures
            *r == self.language,
    {
        &self.language
    }

    /// Set the language for filtering output.
    pub fn set_language(self, val: Option<String>) -> (r: Config)
        ensures
            r.language == val,
            r.color == self.color,
            r.filename_only == self.filename_only,
            r.log_level == self.log_level,
            r.paths == self.paths,
    {
        Config { language: val, ..self }
    }

    /// Get the paths to scan for language identification.
    pub fn paths(&self) -> (r: &Vec<String>)
        ensures
            *r == self.paths,
    {
        &self.paths
    }

    /// Add a path to scan for language identification; a path already
    /// present is not added again.
    pub fn add_path(self, val: String) -> (r: Config)
        ensures
            r.color == self.color,
            r.filename_only == self.filename_only,
            r.log_level == self.log_level,
            r.language == self.language,
            seq_contains_chars(self.paths.deep_view(), val@) ==> r.paths == self.paths,
            !seq_contains_chars(self.paths.deep_view(), val@) ==> r.paths@ == self.paths@.push(
                val,
            ),
    {
        if contains_str(&self.paths, val.as_str()) {
            self
        } else {
            let mut paths = self.paths;
            paths.push(val);
            Config { paths, ..self }
        }
    }

    /// Replace the paths to scan for language identification.
    pub fn set_paths(self, val: Vec<String>) -> (r: Config)
        ensures
            r.paths == val,
            r.color == self.color,
            r.filename_only == self.filename_only,
            r.log_level == self.log_level,
            r.language == self.language,
    {
        Config { paths: val, ..self }
    }
}

} // verus!
