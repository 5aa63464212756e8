//! Checks for a web front end that runs on WebF, an engine that knows only
//! a part of CSS, and the rules by which the Flutter app around it is
//! generated.
//!
//! The checks read the built stylesheets and the script sources of the
//! front end and report every CSS property that is not on the list of
//! supported properties, and every Tailwind utility that is forbidden:
//! - `normalize`, `allowlist`: the canonical form of a property name, and
//!   the test of a property against the list;
//! - `scan`, `declarations`, `spans`: the scanners that find declarations
//!   in a stylesheet and inline style objects in a script;
//! - `pattern`, `source`, `tailwind`, `dist`: what is looked for in a file,
//!   and in which order it is reported;
//! - `violation`, `position`, `report`, `check`: the findings, their place
//!   in the file, and the report on them.
//!
//! The rest serves the tools that generate the platform directories:
//! `config`, `env`, `expand` hold the configuration and fill it in;
//! `gradle`, `manifest`, `properties` edit the files of the Android
//! project; `command`, `handles` prepare and read what other programs are
//! given and print. `strings`, `lines`, `text`, `property_set` are the
//! helpers of all of them.

pub mod allowlist;
pub mod check;
pub mod command;
pub mod config;
pub mod declarations;
pub mod dist;
pub mod env;
pub mod expand;
pub mod gradle;
pub mod handles;
pub mod lines;
pub mod manifest;
pub mod normalize;
pub mod pattern;
pub mod position;
pub mod properties;
pub mod property_set;
pub mod report;
pub mod scan;
pub mod source;
pub mod spans;
pub mod strings;
pub mod tailwind;
pub mod text;
pub mod violation;
