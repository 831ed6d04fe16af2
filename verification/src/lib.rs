use vstd::prelude::*;

pub mod text;
pub mod chars;
pub mod schema;
pub mod bilingual;
pub mod sniffer;
pub mod keyed;
pub mod state;
pub mod download;
pub mod ytdlp;
pub mod proxy;
pub mod merge;
pub mod update;
pub mod capture;
pub mod web;
pub mod cert;

verus! {

} // verus!
