//! Row types of the secondbrain store: segments, extractions' segments,
//! notes and extractor watermarks.
use vstd::prelude::*;

verus! {

/// A stored segment: one stretch of time spent in one window or chat.
#[derive(Debug, Clone)]
pub struct Segment {
    pub id: i64,
    pub started_at: i64,
    pub ended_at: Option<i64>,
    pub app_bundle: String,
    pub app_name: String,
    pub window_title: Option<String>,
    pub url: Option<String>,
    pub monitor_id: Option<i64>,
    pub focused: bool,
}

/// A segment about to be inserted; the store assigns its id.
#[derive(Debug, Clone)]
pub struct NewSegment {
    pub started_at: i64,
    pub app_bundle: String,
    pub app_name: String,
    pub window_title: Option<String>,
    pub url: Option<String>,
    pub monitor_id: Option<i64>,
    pub focused: bool,
}

/// A synthesized note.
#[derive(Debug, Clone)]
pub struct Note {
    pub id: i64,
    pub slug: String,
    pub title: String,
    pub body_md: String,
    pub created_at: i64,
    pub updated_at: i64,
    pub source_segment_ids: Option<String>,
}

/// The last position an extractor has ingested up to.
#[derive(Debug, Clone)]
pub struct Watermark {
    pub extractor: String,
    pub watermark: i64,
    pub updated_at: i64,
}

} // verus!
