use vstd::prelude::*;

pub mod bcd;
pub mod cd;
pub mod detect;
pub mod error;
pub mod ext234;
pub mod extract;
pub mod metadata;
pub mod options;
pub mod partitionfile;
pub mod snd;
pub mod squash;
pub mod squashfsfile;
pub mod file;
pub mod hdd;
pub mod hdr;
pub mod iso;
pub mod isofile;
pub mod json;
pub mod text;
pub mod trailers;
