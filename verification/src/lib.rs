//! Synthesis of AppStream component documents for packaged applications.
//!
//! A package ships desktop entries, loosely written metadata documents and
//! icons. This crate says what is made of them: which document belongs to
//! which desktop entry (`matcher`), which icon files are produced from which
//! sources (`icons`), and what the written component looks like
//! (`normalize`, `translation`). `find` puts these together.
//!
//! Nothing here reads or writes a file. A caller reads, hands over texts and
//! lists of paths, and writes what comes back. XML text is read and written
//! by the `xmltree` crate, through `xml`; everything else is verified code
//! over the tree type of `tree`.

pub mod create;
pub mod desktop;
pub mod find;
pub mod icons;
pub mod matcher;
pub mod names;
pub mod normalize;
pub mod outside;
pub mod overrides;
pub mod pkglist;
pub mod sequences;
pub mod text;
pub mod translation;
pub mod tree;
pub mod xml;
