//! Tools for repackaging Debian-format binary packages into bootstrap
//! filesystem images and related artifacts: a streaming deb decoder driving
//! a visitor protocol, a control document parser, a package index, and the
//! per-architecture assembly engines built on them.

pub mod apt_repo;
pub mod chars;
pub mod cmd_bootstraps;
pub mod cmd_checkrepo;
pub mod cmd_debinfo;
pub mod cmd_notfound;
pub mod cmd_package_apk;
pub mod deb_file;
pub mod errors;
pub mod fields;
pub mod lines;
