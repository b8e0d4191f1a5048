//! secondbrain: the verified core of a local journal of what happens on
//! the machine: the capture director's window tracking, the WhatsApp
//! extractor's message rendering, segmenting and watermarking, and the
//! menubar status icon.
use vstd::prelude::*;

pub mod assoc;
pub mod capture;
pub mod menubar;
pub mod models;
pub mod text;
pub mod whatsapp;

verus! {

} // verus!
