//! A module-resolution engine in the style of Node.js bundlers.
//!
//! Given an import specifier written in one source file, the engine determines
//! the single on-disk file that specifier refers to, tolerating hoisted,
//! nested and content-addressed (pnpm-style) `node_modules` layouts.
//!
//! Disk state is supplied explicitly as a [`fs_model::FileSystem`] value: the
//! set of existing files together with the parsed package descriptors found in
//! the tree. Every resolution step is a pure, verified function over that
//! value.

pub mod exports;
pub mod fs_model;
pub mod laws;
pub mod package;
pub mod paths;
pub mod prober;
pub mod resolvers;
pub mod text;
pub mod utils;
