//! WhatsApp extractor logic: turning ChatStorage messages into segments and
//! extractions, and keeping the per-extractor watermark.
//!
//! Segment model: one segment per (chat, UTC day). Each message becomes an
//! extraction inside that segment with source `whatsapp`.
use vstd::prelude::*;
use chrono::TimeZone;
use crate::assoc::{assoc_map, distinct_keys, lemma_assoc_map, lemma_assoc_map_push};
use crate::models::NewSegment;
use crate::text::{contains_seq, contains_str, occurs_at, decimal_value, is_digit, lemma_nat_decimal_spells, i64_to_decimal, int_decimal, nat_decimal, u64_to_decimal};

verus! {

broadcast use vstd::string::group_string_axioms;

/// Name under which the extractor's watermark is stored.
pub const EXTRACTOR_NAME: &'static str = "whatsapp";

/// Bundle id recorded on WhatsApp segments.
pub const APP_BUNDLE: &'static str = "net.whatsapp.WhatsApp";

/// Application name recorded on WhatsApp segments.
pub const APP_NAME: &'static str = "WhatsApp";

/// Source tag of WhatsApp extractions.
pub const SOURCE: &'static str = "whatsapp";

/// Milliseconds in a day.
pub const DAY_MS: i64 = 86_400_000;

/// Apple Core Data reference date, 2001-01-01 00:00:00 UTC, in Unix seconds.
pub const APPLE_EPOCH_OFFSET_SECS: i64 = 978_307_200;

/// A message read from ChatStorage. Its date is carried twice: as
/// Apple-epoch microseconds (the watermark's unit) and as Unix
/// milliseconds.
#[derive(Debug, Clone)]
pub struct RawMessage {
    pub apple_us: i64,
    pub unix_ms: i64,
    pub text: Option<String>,
    pub is_from_me: bool,
    pub from_jid: Option<String>,
    pub to_jid: Option<String>,
    pub push_name: Option<String>,
    pub message_type: i64,
    pub stanza_id: Option<String>,
    pub chat_jid: Option<String>,
    pub chat_partner: Option<String>,
    pub is_group: bool,
}

/// Start of the UTC day that `unix_ms` falls in: the largest multiple of
/// `DAY_MS` at or below it.
pub open spec fn day_bucket(unix_ms: int) -> int {
    (unix_ms / (DAY_MS as int)) * DAY_MS
}

/// The earliest Unix millisecond whose UTC day starts within `i64`.
pub const EARLIEST_BUCKETED_MS: i64 = -9_223_372_036_828_800_000;

proof fn lemma_day_bucket(u: int)
    ensures
        day_bucket(u) <= u < day_bucket(u) + DAY_MS,
        day_bucket(u) % (DAY_MS as int) == 0,
        u >= EARLIEST_BUCKETED_MS ==> day_bucket(u) >= i64::MIN,
        u < EARLIEST_BUCKETED_MS ==> day_bucket(u) < i64::MIN,
{
    let d = DAY_MS as int;
    let q = u / d;
    let r = u % d;
    vstd::arithmetic::div_mod::lemma_fundamental_div_mod(u, d);
    assert(u == d * q + r && 0 <= r < d);
    assert(q * d == d * q) by (nonlinear_arith);
    vstd::arithmetic::div_mod::lemma_fundamental_div_mod_converse(q * d, d, q, 0);
    if u >= EARLIEST_BUCKETED_MS {
        assert(q >= -106_751_991_167) by (nonlinear_arith)
            requires
                u == q * d + r,
                r < d,
                d == 86_400_000,
                u >= -9_223_372_036_828_800_000,
        ;
        assert(q * d >= -106_751_991_167 * 86_400_000) by (nonlinear_arith)
            requires
                q >= -106_751_991_167,
                d == 86_400_000,
        ;
    } else {
        assert(q <= -106_751_991_168) by (nonlinear_arith)
            requires
                u == q * d + r,
                r >= 0,
                d == 86_400_000,
                u < -9_223_372_036_828_800_000,
        ;
        assert(q * d <= -106_751_991_168 * 86_400_000) by (nonlinear_arith)
            requires
                q <= -106_751_991_168,
                d == 86_400_000,
        ;
    }
}

/// Whether the start of `unix_ms`'s UTC day can be held in an `i64`.
pub fn day_bucket_in_range(unix_ms: i64) -> (b: bool)
    ensures
        b == (day_bucket(unix_ms as int) >= i64::MIN),
{
    proof {
        lemma_day_bucket(unix_ms as int);
    }
    unix_ms >= EARLIEST_BUCKETED_MS
}

/// The start of the UTC day that `unix_ms` falls in.
pub fn day_bucket_ms(unix_ms: i64) -> (day: i64)
    requires
        day_bucket(unix_ms as int) >= i64::MIN,
    ensures
        day == day_bucket(unix_ms as int),
        day % DAY_MS == 0,
        day <= unix_ms < day + DAY_MS,
{
    proof {
        lemma_day_bucket(unix_ms as int);
    }
    let ghost d = DAY_MS as int;
    if unix_ms >= 0 {
        let q = unix_ms / DAY_MS;
        proof {
            assert(q == (unix_ms as int) / d);
            assert(0 <= q * d <= unix_ms) by (nonlinear_arith)
                requires
                    q == (unix_ms as int) / d,
                    d > 0,
                    unix_ms >= 0,
            ;
        }
        q * DAY_MS
    } else {
        let a = -(unix_ms + 1);
        let q = a / DAY_MS;
        proof {
            let ai = a as int;
            assert(q == ai / d);
            vstd::arithmetic::div_mod::lemma_fundamental_div_mod(ai, d);
            let r = ai % d;
            assert(ai == d * q + r && 0 <= r < d);
            assert(unix_ms as int == (-q - 1) * d + (d - r - 1)) by (nonlinear_arith)
                requires
                    ai == d * q + r,
                    ai == -(unix_ms as int) - 1,
            ;
            vstd::arithmetic::div_mod::lemma_fundamental_div_mod_converse(unix_ms as int, d, -q - 1, d - r - 1);
        }
        (-q - 1) * DAY_MS
    }
}

/// The arrow that shows a message's direction.
pub open spec fn direction_arrow(is_from_me: bool) -> Seq<char> {
    if is_from_me {
        "→"@
    } else {
        "←"@
    }
}

/// Who sent a message: `me`, else the push name, else the sender's JID,
/// else `?`.
pub open spec fn speaker_of(msg: RawMessage) -> Seq<char> {
    if msg.is_from_me {
        "me"@
    } else {
        match msg.push_name {
            Some(p) => p@,
            None => match msg.from_jid {
                Some(f) => f@,
                None => "?"@,
            },
        }
    }
}

/// The placeholder word for a media-only message of WhatsApp message type
/// `t`, where the type has one.
pub open spec fn media_kind(t: i64) -> Option<Seq<char>> {
    if t == 0 {
        Some("text-empty"@)
    } else if t == 1 {
        Some("image"@)
    } else if t == 2 {
        Some("audio"@)
    } else if t == 3 {
        Some("video"@)
    } else if t == 4 {
        Some("contact"@)
    } else if t == 5 {
        Some("location"@)
    } else if t == 7 {
        Some("url"@)
    } else if t == 8 {
        Some("document"@)
    } else if t == 10 {
        Some("call"@)
    } else if t == 11 {
        Some("gif"@)
    } else if t == 14 {
        Some("deleted"@)
    } else if t == 15 {
        Some("sticker"@)
    } else {
        None
    }
}

/// Whether a message carries non-empty text.
pub open spec fn has_text(msg: RawMessage) -> bool {
    msg.text matches Some(t) && t@.len() > 0
}

/// The extraction text of a message: `<arrow> <speaker>: <text>` for a
/// message with text, else `[<kind>]`, else `[media: type <n>]`.
pub open spec fn rendered_text(msg: RawMessage) -> Seq<char> {
    if has_text(msg) {
        direction_arrow(msg.is_from_me) + " "@ + speaker_of(msg) + ": "@ + msg.text->0@
    } else {
        match media_kind(msg.message_type) {
            Some(k) => "["@ + k + "]"@,
            None => "[media: type "@ + int_decimal(msg.message_type as int) + "]"@,
        }
    }
}

fn media_kind_str(t: i64) -> (r: Option<&'static str>)
    ensures
        r matches Some(k) ==> media_kind(t) == Some(k@),
        r is None ==> media_kind(t) is None,
{
    if t == 0 {
        Some("text-empty")
    } else if t == 1 {
        Some("image")
    } else if t == 2 {
        Some("audio")
    } else if t == 3 {
        Some("video")
    } else if t == 4 {
        Some("contact")
    } else if t == 5 {
        Some("location")
    } else if t == 7 {
        Some("url")
    } else if t == 8 {
        Some("document")
    } else if t == 10 {
        Some("call")
    } else if t == 11 {
        Some("gif")
    } else if t == 14 {
        Some("deleted")
    } else if t == 15 {
        Some("sticker")
    } else {
        None
    }
}

fn speaker_string(msg: &RawMessage) -> (s: String)
    ensures
        s@ == speaker_of(*msg),
{
    if msg.is_from_me {
        String::from_str("me")
    } else {
        match &msg.push_name {
            Some(p) => p.clone(),
            None => match &msg.from_jid {
                Some(f) => f.clone(),
                None => String::from_str("?"),
            },
        }
    }
}

/// Renders a message to its extraction text. Media-only messages get a
/// short placeholder so that the row carries some signal.
pub fn render_text(msg: &RawMessage) -> (s: String)
    ensures
        s@ == rendered_text(*msg),
{
    if let Some(t) = &msg.text {
        if !t.as_str().is_empty() {
            let arrow = if msg.is_from_me {
                "→"
            } else {
                "←"
            };
            let speaker = speaker_string(msg);
            return String::from_str(arrow).concat(" ").concat(speaker.as_str()).concat(
                ": ",
            ).concat(t.as_str());
        }
    }
    match media_kind_str(msg.message_type) {
        Some(k) => String::from_str("[").concat(k).concat("]"),
        None => {
            let n = i64_to_decimal(msg.message_type);
            String::from_str("[media: type ").concat(n.as_str()).concat("]")
        },
    }
}

/// Whether a chat is a group: its JID is a group JID (`@g.us`), or its
/// session type is 1.
pub open spec fn is_group_chat_spec(chat_jid: Option<Seq<char>>, session_type: Option<i64>) -> bool {
    (chat_jid matches Some(j) && contains_seq(j, "@g.us"@)) || session_type == Some(1i64)
}

/// Whether a message's chat is a group chat.
pub fn is_group_chat(chat_jid: Option<&str>, session_type: Option<i64>) -> (b: bool)
    ensures
        b == is_group_chat_spec(
            match chat_jid {
                Some(j) => Some(j@),
                None => None,
            },
            session_type,
        ),
{
    let by_jid = match chat_jid {
        Some(j) => contains_str(j, "@g.us"),
        None => false,
    };
    by_jid || session_type == Some(1i64)
}


impl RawMessage {
    /// A message from the columns of a ChatStorage row, with its date
    /// already converted to Apple-epoch microseconds and Unix milliseconds.
    /// A missing `ZISFROMME` or `ZMESSAGETYPE` reads as 0; the chat is a
    /// group chat when its JID is a group JID or its session type is 1.
    pub fn from_columns(
        apple_us: i64,
        unix_ms: i64,
        text: Option<String>,
        is_from_me: Option<i64>,
        from_jid: Option<String>,
        to_jid: Option<String>,
        push_name: Option<String>,
        message_type: Option<i64>,
        stanza_id: Option<String>,
        chat_jid: Option<String>,
        chat_partner: Option<String>,
        session_type: Option<i64>,
    ) -> (m: RawMessage)
        ensures
            m.apple_us == apple_us,
            m.unix_ms == unix_ms,
            m.text == text,
            m.is_from_me == (is_from_me matches Some(f) && f != 0),
            m.from_jid == from_jid,
            m.to_jid == to_jid,
            m.push_name == push_name,
            m.message_type == (match message_type {
                Some(t) => t,
                None => 0,
            }),
            m.stanza_id == stanza_id,
            m.chat_jid == chat_jid,
            m.chat_partner == chat_partner,
            m.is_group == is_group_chat_spec(chat_jid.deep_view(), session_type),
    {
        let is_group = match &chat_jid {
            Some(j) => is_group_chat(Some(j.as_str()), session_type),
            None => is_group_chat(None, session_type),
        };
        RawMessage {
            apple_us,
            unix_ms,
            text,
            is_from_me: match is_from_me {
                Some(f) => f != 0,
                None => false,
            },
            from_jid,
            to_jid,
            push_name,
            message_type: match message_type {
                Some(t) => t,
                None => 0,
            },
            stanza_id,
            chat_jid,
            chat_partner,
            is_group,
        }
    }
}

/// The calendar date, `YYYY-MM-DD` in UTC, that chrono gives for a Unix
/// millisecond timestamp.
pub uninterp spec fn utc_date_label(unix_ms: int) -> Seq<char>;

/// Whether chrono can represent the instant `unix_ms`: it lies between
/// the start of January 1 of year -262143 and the end of December 31 of
/// year 262142, chrono's range of years.
pub open spec fn in_chrono_range(unix_ms: int) -> bool {
    -8_334_601_228_800_000 <= unix_ms <= 8_210_266_876_799_999
}

/// Formats `unix_ms` as a UTC date with chrono: `Utc.timestamp_millis_opt`,
/// then `format("%Y-%m-%d")`. The contract claims that there is a result
/// exactly when chrono's `DateTime::from_timestamp_millis` accepts the
/// timestamp, that is within chrono's years -262143 to 262142, and that the
/// result is then `utc_date_label(unix_ms)`.
#[verifier::external_body]
fn utc_date_of_millis(unix_ms: i64) -> (label: Option<String>)
    ensures
        label matches Some(l) ==> l@ == utc_date_label(unix_ms as int),
        label is Some <==> in_chrono_range(unix_ms as int),
{
    match chrono::Utc.timestamp_millis_opt(unix_ms).single() {
        Some(d) => Some(d.format("%Y-%m-%d").to_string()),
        None => None,
    }
}

/// The URL that identifies a chat's segments: `whatsapp://chat/<jid>`.
pub open spec fn chat_url(chat_jid: Seq<char>) -> Seq<char> {
    "whatsapp://chat/"@ + chat_jid
}

/// The title of a chat's day segment: `<partner> — <day>` when the chat
/// has a non-empty partner name, else `<jid> — <day>`.
pub open spec fn chat_day_title(chat_jid: Seq<char>, chat_partner: Option<Seq<char>>, day_label: Seq<char>) -> Seq<char> {
    match chat_partner {
        Some(p) => if p.len() > 0 {
            p + " — "@ + day_label
        } else {
            chat_jid + " — "@ + day_label
        },
        None => chat_jid + " — "@ + day_label,
    }
}

/// The day label used in a title: chrono's date where it gave one, else
/// the bucket's start in decimal milliseconds.
pub open spec fn day_label_or_millis(label: Option<Seq<char>>, day_start_ms: int) -> Seq<char> {
    match label {
        Some(l) => l,
        None => int_decimal(day_start_ms),
    }
}

/// Whether `seg` is the segment of chat `chat_jid` for the day starting at
/// `day_start_ms`, titled with `day_label`.
pub open spec fn is_chat_day_segment(
    seg: NewSegment,
    chat_jid: Seq<char>,
    chat_partner: Option<Seq<char>>,
    day_start_ms: int,
    day_label: Seq<char>,
) -> bool {
    &&& seg.started_at == day_start_ms
    &&& seg.app_bundle@ == APP_BUNDLE@
    &&& seg.app_name@ == APP_NAME@
    &&& seg.window_title.deep_view() == Some(chat_day_title(chat_jid, chat_partner, day_label))
    &&& seg.url.deep_view() == Some(chat_url(chat_jid))
    &&& seg.monitor_id is None
    &&& !seg.focused
}

/// The view of an optional string slice.
pub open spec fn opt_str_view(s: Option<&str>) -> Option<Seq<char>> {
    match s {
        Some(x) => Some(x@),
        None => None,
    }
}

/// The URL under which a chat's segments are stored.
pub fn chat_url_string(chat_jid: &str) -> (url: String)
    ensures
        url@ == chat_url(chat_jid@),
{
    String::from_str("whatsapp://chat/").concat(chat_jid)
}

/// The segment for chat `chat_jid` and the day starting at `day_start_ms`,
/// given the date label that chrono produced for that day (or `None` where
/// it produced none).
pub fn chat_day_segment_with_label(
    chat_jid: &str,
    chat_partner: Option<&str>,
    day_start_ms: i64,
    day_label: Option<String>,
) -> (seg: NewSegment)
    ensures
        is_chat_day_segment(
            seg,
            chat_jid@,
            opt_str_view(chat_partner),
            day_start_ms as int,
            day_label_or_millis(day_label.deep_view(), day_start_ms as int),
        ),
{
    let label = match day_label {
        Some(l) => l,
        None => i64_to_decimal(day_start_ms),
    };
    let name = match chat_partner {
        Some(p) => if !p.is_empty() {
            p
        } else {
            chat_jid
        },
        None => chat_jid,
    };
    let title = String::from_str(name).concat(" — ").concat(label.as_str());
    NewSegment {
        started_at: day_start_ms,
        app_bundle: String::from_str(APP_BUNDLE),
        app_name: String::from_str(APP_NAME),
        window_title: Some(title),
        url: Some(chat_url_string(chat_jid)),
        monitor_id: None,
        focused: false,
    }
}

/// The segment for chat `chat_jid` and the UTC day starting at
/// `day_start_ms`, titled `<partner or jid> — <YYYY-MM-DD>`, or with the
/// day's start in decimal milliseconds where chrono has no date for it.
pub fn chat_day_segment(chat_jid: &str, chat_partner: Option<&str>, day_start_ms: i64) -> (seg: NewSegment)
    ensures
        is_chat_day_segment(
            seg,
            chat_jid@,
            opt_str_view(chat_partner),
            day_start_ms as int,
            if in_chrono_range(day_start_ms as int) {
                utc_date_label(day_start_ms as int)
            } else {
                int_decimal(day_start_ms as int)
            },
        ),
{
    let label = utc_date_of_millis(day_start_ms);
    chat_day_segment_with_label(chat_jid, chat_partner, day_start_ms, label)
}

/// The end of the day that starts at `day_start_ms`.
pub fn day_end_ms(day_start_ms: i64) -> (end: i64)
    requires
        day_start_ms + DAY_MS <= i64::MAX,
    ensures
        end == day_start_ms + DAY_MS,
{
    day_start_ms + DAY_MS
}


/// What the caller does with a message after `SyncState::observe`.
#[derive(Debug)]
pub enum MessageStep {
    /// The message has no chat JID: nothing is written for it.
    Skip,
    /// The message belongs to the segment with this id, already known.
    Segment(i64),
    /// The segment of this chat and day must be found or created in the
    /// store, and its id handed back with `SyncState::segment_ready`.
    NeedSegment { chat_jid: String, day_start_ms: i64 },
}

/// The outcome of one sync run.
#[derive(Debug, Clone)]
pub struct SyncReport {
    pub messages_ingested: usize,
    pub segments_touched: usize,
    pub new_watermark_unix_ms: Option<i64>,
}

/// What a sync remembers of an observed message: its Apple-epoch
/// microseconds, its Unix milliseconds and its chat JID.
pub type ObservedMessage = (int, int, Option<Seq<char>>);

/// The abstract state of a sync run.
pub struct SyncView {
    /// The watermark stored before the run, in Apple-epoch microseconds.
    pub prev_watermark: Option<int>,
    /// The largest Apple-epoch microseconds seen so far, starting from the
    /// previous watermark.
    pub max_apple_us: Option<int>,
    /// The largest Unix milliseconds seen so far.
    pub max_unix_ms: Option<int>,
    /// The segment id of each (chat JID, day start) met so far.
    pub segments: Map<(Seq<char>, int), int>,
    /// The (chat JID, day start) whose segment the caller is looking up.
    pub pending: Option<(Seq<char>, int)>,
    /// Every message observed, in order.
    pub history: Seq<ObservedMessage>,
}

/// `a` raised to at least `b`.
pub open spec fn opt_max(a: Option<int>, b: int) -> Option<int> {
    match a {
        Some(x) => Some(if x >= b {
            x
        } else {
            b
        }),
        None => Some(b),
    }
}

/// The largest Apple-epoch microseconds among `h`, starting from `start`.
pub open spec fn max_apple_over(start: Option<int>, h: Seq<ObservedMessage>) -> Option<int>
    decreases h.len(),
{
    if h.len() == 0 {
        start
    } else {
        opt_max(max_apple_over(start, h.drop_last()), h.last().0)
    }
}

/// The largest Unix milliseconds among `h`, if `h` is not empty.
pub open spec fn max_unix_over(h: Seq<ObservedMessage>) -> Option<int>
    decreases h.len(),
{
    if h.len() == 0 {
        None
    } else {
        opt_max(max_unix_over(h.drop_last()), h.last().1)
    }
}

/// The (chat JID, day start) pairs of the messages in `h` that have a chat.
pub open spec fn chat_days(h: Seq<ObservedMessage>) -> Set<(Seq<char>, int)> {
    Set::new(
        |k: (Seq<char>, int)|
            exists|i: int| 0 <= i < h.len() && #[trigger] h[i].2 == Some(k.0) && day_bucket(h[i].1) == k.1,
    )
}

/// The watermark a run stores: the largest Apple-epoch microseconds seen,
/// where that differs from the watermark it started from.
pub open spec fn stored_watermark(prev: Option<int>, h: Seq<ObservedMessage>) -> Option<int> {
    let m = max_apple_over(prev, h);
    if m == prev {
        None
    } else {
        m
    }
}

/// What `observe` remembers of `msg`.
pub open spec fn observed_of(msg: RawMessage) -> ObservedMessage {
    (msg.apple_us as int, msg.unix_ms as int, msg.chat_jid.deep_view())
}

/// The running state of one WhatsApp sync: the watermarks seen so far and
/// the segment of each (chat, day) met so far.
pub struct SyncState {
    prev_watermark_apple_us: Option<i64>,
    max_seen_apple_us: Option<i64>,
    max_seen_unix_ms: Option<i64>,
    segments: Vec<(String, i64, i64)>,
    pending: Option<(String, i64)>,
    observed: usize,
    history: Ghost<Seq<ObservedMessage>>,
}

/// A cached segment as a ((chat JID, day start), segment id) pair.
pub open spec fn seg_entry(e: (String, i64, i64)) -> ((Seq<char>, int), int) {
    ((e.0@, e.1 as int), e.2 as int)
}

/// The cached segments as an association list.
pub open spec fn seg_entries(v: Seq<(String, i64, i64)>) -> Seq<((Seq<char>, int), int)> {
    v.map_values(|e: (String, i64, i64)| seg_entry(e))
}

impl View for SyncState {
    type V = SyncView;

    closed spec fn view(&self) -> SyncView {
        SyncView {
            prev_watermark: match self.prev_watermark_apple_us {
                Some(w) => Some(w as int),
                None => None,
            },
            max_apple_us: match self.max_seen_apple_us {
                Some(w) => Some(w as int),
                None => None,
            },
            max_unix_ms: match self.max_seen_unix_ms {
                Some(w) => Some(w as int),
                None => None,
            },
            segments: assoc_map(seg_entries(self.segments@)),
            pending: match self.pending {
                Some(p) => Some((p.0@, p.1 as int)),
                None => None,
            },
            history: self.history@,
        }
    }
}

impl SyncState {
    /// The state's internal consistency: the maxima are those of the
    /// history, the cached segments have distinct keys, and the cached and
    /// pending keys are exactly the chat days of the history.
    pub closed spec fn wf(&self) -> bool {
        &&& self@.max_apple_us == max_apple_over(self@.prev_watermark, self@.history)
        &&& self@.max_unix_ms == max_unix_over(self@.history)
        &&& distinct_keys(seg_entries(self.segments@))
        &&& self.observed == self@.history.len()
        &&& match self@.pending {
            Some(k) => !self@.segments.dom().contains(k) && chat_days(self@.history)
                == self@.segments.dom().insert(k),
            None => chat_days(self@.history) == self@.segments.dom(),
        }
    }

    /// A sync starting from the stored watermark `prev_watermark_apple_us`.
    pub fn new(prev_watermark_apple_us: Option<i64>) -> (s: Self)
        ensures
            s.wf(),
            s@.prev_watermark == (match prev_watermark_apple_us {
                Some(w) => Some(w as int),
                None => None::<int>,
            }),
            s@.max_apple_us == s@.prev_watermark,
            s@.max_unix_ms is None,
            s@.history == Seq::<ObservedMessage>::empty(),
            s@.segments == Map::<(Seq<char>, int), int>::empty(),
            s@.pending is None,
    {
        let s = SyncState {
            prev_watermark_apple_us,
            max_seen_apple_us: prev_watermark_apple_us,
            max_seen_unix_ms: None,
            segments: Vec::new(),
            pending: None,
            observed: 0,
            history: Ghost(Seq::empty()),
        };
        assert(chat_days(s@.history) =~= Set::empty());
        assert(s@.segments =~= Map::empty());
        s
    }

    /// Takes in the next fetched message. Every message advances the
    /// watermarks, including one that is skipped for want of a chat, so
    /// that skipped messages do not flow in again on the next run.
    pub fn observe(&mut self, msg: &RawMessage) -> (step: MessageStep)
        requires
            old(self).wf(),
            msg.chat_jid is Some ==> day_bucket(msg.unix_ms as int) >= i64::MIN,
            old(self)@.pending is None,
            old(self)@.history.len() < usize::MAX,
        ensures
            final(self).wf(),
            final(self)@.prev_watermark == old(self)@.prev_watermark,
            final(self)@.history == old(self)@.history.push(observed_of(*msg)),
            final(self)@.max_apple_us == opt_max(old(self)@.max_apple_us, msg.apple_us as int),
            final(self)@.max_unix_ms == opt_max(old(self)@.max_unix_ms, msg.unix_ms as int),
            final(self)@.segments == old(self)@.segments,
            match msg.chat_jid {
                None => step is Skip && final(self)@.pending is None,
                Some(j) => {
                    let k = (j@, day_bucket(msg.unix_ms as int));
                    if old(self)@.segments.dom().contains(k) {
                        step == MessageStep::Segment(old(self)@.segments[k] as i64)
                            && final(self)@.pending is None
                    } else {
                        &&& step matches MessageStep::NeedSegment { chat_jid: c, day_start_ms: d }
                        &&& c@ == j@
                        &&& d == k.1
                        &&& final(self)@.pending == Some(k)
                    }
                },
            },
    {
        let ghost old_h = self@.history;
        let ghost old_segments = self@.segments;
        let a = msg.apple_us;
        let u = msg.unix_ms;
        self.max_seen_apple_us = Some(
            match self.max_seen_apple_us {
                Some(w) => if w >= a {
                    w
                } else {
                    a
                },
                None => a,
            },
        );
        self.max_seen_unix_ms = Some(
            match self.max_seen_unix_ms {
                Some(w) => if w >= u {
                    w
                } else {
                    u
                },
                None => u,
            },
        );
        self.observed = self.observed + 1;
        self.history = Ghost(self.history@.push(observed_of(*msg)));
        let ghost new_h = self@.history;
        assert(new_h.drop_last() == old_h);
        proof {
            lemma_assoc_map(seg_entries(self.segments@));
        }
        match &msg.chat_jid {
            None => {
                assert(chat_days(new_h) =~= chat_days(old_h)) by {
                    assert forall|k: (Seq<char>, int)| chat_days(new_h).contains(k) implies chat_days(old_h).contains(k) by {
                        let i = choose|i: int| 0 <= i < new_h.len() && #[trigger] new_h[i].2 == Some(k.0) && day_bucket(new_h[i].1) == k.1;
                        assert(i < old_h.len());
                        assert(old_h[i] == new_h[i]);
                    }
                    assert forall|k: (Seq<char>, int)| chat_days(old_h).contains(k) implies chat_days(new_h).contains(k) by {
                        let i = choose|i: int| 0 <= i < old_h.len() && #[trigger] old_h[i].2 == Some(k.0) && day_bucket(old_h[i].1) == k.1;
                        assert(old_h[i] == new_h[i]);
                    }
                }
                MessageStep::Skip
            },
            Some(j) => {
                let day = day_bucket_ms(u);
                let ghost k = (j@, day as int);
                assert(chat_days(new_h) =~= chat_days(old_h).insert(k)) by {
                    assert forall|x: (Seq<char>, int)| chat_days(new_h).contains(x) implies chat_days(old_h).insert(k).contains(x) by {
                        let i = choose|i: int| 0 <= i < new_h.len() && #[trigger] new_h[i].2 == Some(x.0) && day_bucket(new_h[i].1) == x.1;
                        if i < old_h.len() {
                            assert(old_h[i] == new_h[i]);
                        }
                    }
                    assert forall|x: (Seq<char>, int)| chat_days(old_h).insert(k).contains(x) implies chat_days(new_h).contains(x) by {
                        if x == k {
                            assert(new_h[old_h.len() as int].2 == Some(x.0));
                        } else {
                            let i = choose|i: int| 0 <= i < old_h.len() && #[trigger] old_h[i].2 == Some(x.0) && day_bucket(old_h[i].1) == x.1;
                            assert(old_h[i] == new_h[i]);
                        }
                    }
                }
                let n = self.segments.len();
                let mut i: usize = 0;
                #[verifier::loop_isolation(false)]
                while i < n
                    invariant
                        n == self.segments@.len(),
                        i <= n,
                        k == (j@, day as int),
                        forall|m: int| 0 <= m < i ==> (#[trigger] seg_entries(self.segments@)[m]).0 != k,
                    decreases n - i,
                {
                    let e = &self.segments[i];
                    if e.1 == day && e.0 == *j {
                        assert(seg_entries(self.segments@)[i as int].0 == k);
                        let id = e.2;
                        assert(old_segments[k] == id as int);
                        assert(old_segments.dom().insert(k) =~= old_segments.dom());
                        return MessageStep::Segment(id);
                    }
                    i = i + 1;
                }
                assert(!old_segments.dom().contains(k));
                self.pending = Some((j.clone(), day));
                MessageStep::NeedSegment { chat_jid: j.clone(), day_start_ms: day }
            },
        }
    }

    /// Records the id of the segment that the last `observe` asked for.
    pub fn segment_ready(&mut self, segment_id: i64)
        requires
            old(self).wf(),
            old(self)@.pending is Some,
        ensures
            final(self).wf(),
            final(self)@.segments == old(self)@.segments.insert(old(self)@.pending->0, segment_id as int),
            final(self)@.pending is None,
            final(self)@.prev_watermark == old(self)@.prev_watermark,
            final(self)@.history == old(self)@.history,
            final(self)@.max_apple_us == old(self)@.max_apple_us,
            final(self)@.max_unix_ms == old(self)@.max_unix_ms,
    {
        let ghost old_v = self.segments@;
        match self.pending.take() {
            Some((jid, day)) => {
                proof {
                    lemma_assoc_map_push(seg_entries(old_v), (jid@, day as int), segment_id as int);
                }
                self.segments.push((jid, day, segment_id));
                proof {
                    assert(seg_entries(self.segments@) =~= seg_entries(old_v).push(((jid@, day as int), segment_id as int)));
                }
            },
            None => {},
        }
    }

    /// Ends the run: the watermark to store, if it changed, and the report.
    pub fn finish(&self) -> (res: (Option<i64>, SyncReport))
        requires
            self.wf(),
        ensures
            (match res.0 {
                Some(w) => Some(w as int),
                None => None::<int>,
            }) == stored_watermark(self@.prev_watermark, self@.history),
            (match res.0 {
                Some(w) => Some(w as int),
                None => None::<int>,
            }) == (if self@.max_apple_us == self@.prev_watermark {
                None
            } else {
                self@.max_apple_us
            }),
            res.1.messages_ingested == self@.history.len(),
            (match res.1.new_watermark_unix_ms {
                Some(w) => Some(w as int),
                None => None::<int>,
            }) == max_unix_over(self@.history),
            res.1.segments_touched == self@.segments.dom().len(),
            self@.pending is None ==> res.1.segments_touched == chat_days(self@.history).len(),
    {
        proof {
            lemma_assoc_map(seg_entries(self.segments@));
        }
        let store = match self.max_seen_apple_us {
            Some(w) => match self.prev_watermark_apple_us {
                Some(p) => if p == w {
                    None
                } else {
                    Some(w)
                },
                None => Some(w),
            },
            None => None,
        };
        let report = SyncReport {
            messages_ingested: self.observed,
            segments_touched: self.segments.len(),
            new_watermark_unix_ms: self.max_seen_unix_ms,
        };
        (store, report)
    }
}


/// The instant `unix_ms` in RFC 3339 form, as chrono writes a UTC time.
pub uninterp spec fn utc_rfc3339_label(unix_ms: int) -> Seq<char>;

/// Formats `unix_ms` with chrono: `Utc.timestamp_millis_opt`, then
/// `to_rfc3339`. The contract claims that there is a result exactly within
/// chrono's range, and that it is then `utc_rfc3339_label(unix_ms)`.
#[verifier::external_body]
fn utc_rfc3339_of_millis(unix_ms: i64) -> (label: Option<String>)
    ensures
        label matches Some(l) ==> l@ == utc_rfc3339_label(unix_ms as int),
        label is Some <==> in_chrono_range(unix_ms as int),
{
    match chrono::Utc.timestamp_millis_opt(unix_ms).single() {
        Some(d) => Some(d.to_rfc3339()),
        None => None,
    }
}

/// The line that reports a sync run:
/// `ingested <n> messages across <m> segments (watermark: <w>)`.
pub open spec fn summary_line(report: SyncReport, watermark: Seq<char>) -> Seq<char> {
    "ingested "@ + nat_decimal(report.messages_ingested as nat) + " messages across "@ + nat_decimal(
        report.segments_touched as nat,
    ) + " segments (watermark: "@ + watermark + ")"@
}

/// The watermark as the report shows it: the RFC 3339 time of the latest
/// message, or `<none>` where there is none or chrono has no time for it.
pub open spec fn watermark_shown(watermark_unix_ms: Option<i64>) -> Seq<char> {
    match watermark_unix_ms {
        Some(ms) => if in_chrono_range(ms as int) {
            utc_rfc3339_label(ms as int)
        } else {
            "<none>"@
        },
        None => "<none>"@,
    }
}

/// The report line of a sync run, given the watermark's time as chrono
/// wrote it (or `None` where it wrote none).
pub fn sync_summary_with_label(report: &SyncReport, watermark: Option<String>) -> (line: String)
    ensures
        line@ == summary_line(
            *report,
            match watermark {
                Some(w) => w@,
                None => "<none>"@,
            },
        ),
{
    let w = match watermark {
        Some(w) => w,
        None => String::from_str("<none>"),
    };
    let n = u64_to_decimal(report.messages_ingested as u64);
    let m = u64_to_decimal(report.segments_touched as u64);
    String::from_str("ingested ").concat(n.as_str()).concat(" messages across ").concat(m.as_str()).concat(
        " segments (watermark: ",
    ).concat(w.as_str()).concat(")")
}

/// The report line of a sync run.
pub fn sync_summary(report: &SyncReport) -> (line: String)
    ensures
        line@ == summary_line(*report, watermark_shown(report.new_watermark_unix_ms)),
{
    let label = match report.new_watermark_unix_ms {
        Some(ms) => utc_rfc3339_of_millis(ms),
        None => None,
    };
    sync_summary_with_label(report, label)
}

/// A chat is a group exactly when its JID holds `@g.us` or its session type
/// is 1: any other JID, such as a user's `@s.whatsapp.net` or a linked
/// device's `@lid`, with another session type is a one-to-one chat.
pub proof fn lemma_group_chats(jid: Option<Seq<char>>, session_type: Option<i64>)
    ensures
        is_group_chat_spec(jid, session_type) <==> (
            (jid matches Some(j) && exists|i: int| 0 <= i && i + 5 <= j.len() && #[trigger] j.subrange(i, i + 5) == "@g.us"@)
            || session_type == Some(1i64)),
{
    reveal_strlit("@g.us");
    if let Some(j) = jid {
        if contains_seq(j, "@g.us"@) {
            let i = choose|i: int| occurs_at(j, "@g.us"@, i);
            assert(j.subrange(i, i + 5) == "@g.us"@);
        }
        if exists|i: int| 0 <= i && i + 5 <= j.len() && #[trigger] j.subrange(i, i + 5) == "@g.us"@ {
            let i = choose|i: int| 0 <= i && i + 5 <= j.len() && #[trigger] j.subrange(i, i + 5) == "@g.us"@;
            assert(occurs_at(j, "@g.us"@, i));
        }
    }
}

/// The title of a chat's day segment names the chat partner whenever the
/// chat has a non-empty partner name, whatever the chat's JID (a group's
/// too); the JID stands in only when the name is missing or empty.
pub proof fn lemma_day_title_names_partner(
    chat_jid: Seq<char>,
    other_jid: Seq<char>,
    chat_partner: Option<Seq<char>>,
    day_label: Seq<char>,
)
    ensures
        chat_partner matches Some(p) && p.len() > 0 ==> chat_day_title(chat_jid, chat_partner, day_label)
            == chat_partner->0 + " — "@ + day_label,
        chat_partner matches Some(p) && p.len() > 0 ==> chat_day_title(chat_jid, chat_partner, day_label)
            == chat_day_title(other_jid, chat_partner, day_label),
        !(chat_partner matches Some(p) && p.len() > 0) ==> chat_day_title(chat_jid, chat_partner, day_label)
            == chat_jid + " — "@ + day_label,
        forall|seg: NewSegment, day: int|
            #[trigger] is_chat_day_segment(seg, chat_jid, chat_partner, day, day_label)
                ==> seg.window_title.deep_view() == Some(
                if chat_partner matches Some(p) && p.len() > 0 {
                    chat_partner->0
                } else {
                    chat_jid
                } + " — "@ + day_label,
            ),
{
}

/// A message with non-empty text renders as `<arrow> <speaker>: <text>`,
/// whatever its message type (a captioned image or a link too): the arrow
/// is `→` for a message from me and `←` otherwise, the speaker `me`, else
/// the push name, else the sender's JID, else `?`. Only a message without
/// text, or with empty text, renders as a bracketed placeholder.
pub proof fn lemma_text_messages_render_their_text(msg: RawMessage, other_type: i64)
    ensures
        msg.text matches Some(t) && t@.len() > 0 ==> rendered_text(msg) == (if msg.is_from_me {
            "→"@
        } else {
            "←"@
        }) + " "@ + (if msg.is_from_me {
            "me"@
        } else if msg.push_name is Some {
            msg.push_name->0@
        } else if msg.from_jid is Some {
            msg.from_jid->0@
        } else {
            "?"@
        }) + ": "@ + msg.text->0@,
        msg.text matches Some(t) && t@.len() > 0 ==> rendered_text(RawMessage { message_type: other_type, ..msg })
            == rendered_text(msg),
        msg.text matches Some(t) && t@.len() > 0 ==> rendered_text(msg)[0] == '→' || rendered_text(msg)[0] == '←',
        !(msg.text matches Some(t) && t@.len() > 0) ==> rendered_text(msg)[0] == '[',
{
    reveal_strlit("→");
    reveal_strlit("←");
    reveal_strlit("[");
    reveal_strlit("[media: type ");
}

/// The report line is `ingested <a> messages across <b> segments
/// (watermark: <w>)` where `<a>` and `<b>` are strings of decimal digits
/// that spell the number of messages ingested and of segments touched,
/// whatever their size.
pub proof fn lemma_summary_reports_counts(report: SyncReport, watermark: Seq<char>)
    ensures
        exists|a: Seq<char>, b: Seq<char>|
            {
                &&& summary_line(report, watermark) == "ingested "@ + a + " messages across "@ + b
                    + " segments (watermark: "@ + watermark + ")"@
                &&& a.len() > 0 && forall|i: int| 0 <= i < a.len() ==> is_digit(#[trigger] a[i])
                &&& b.len() > 0 && forall|i: int| 0 <= i < b.len() ==> is_digit(#[trigger] b[i])
                &&& decimal_value(a) == report.messages_ingested
                &&& decimal_value(b) == report.segments_touched
            },
{
    let a = nat_decimal(report.messages_ingested as nat);
    let b = nat_decimal(report.segments_touched as nat);
    lemma_nat_decimal_spells(report.messages_ingested as nat);
    lemma_nat_decimal_spells(report.segments_touched as nat);
    assert(summary_line(report, watermark) == "ingested "@ + a + " messages across "@ + b
        + " segments (watermark: "@ + watermark + ")"@);
}

/// The watermark a sync stores never moves backwards; it is at or above the
/// date of every message the run observed, so that the next run, which
/// fetches only messages newer than it, does not ingest them again; and it
/// moves whenever the run observed a message newer than the previous one.
pub proof fn lemma_watermark_advances(prev: Option<int>, h: Seq<ObservedMessage>)
    ensures
        (prev is Some || h.len() > 0) <==> max_apple_over(prev, h) is Some,
        prev matches Some(p) ==> max_apple_over(prev, h)->0 >= p,
        forall|i: int| 0 <= i < h.len() ==> max_apple_over(prev, h)->0 >= (#[trigger] h[i]).0,
        stored_watermark(prev, h) matches Some(w) ==> (prev matches Some(p) ==> w > p),
        (exists|i: int| 0 <= i < h.len() && (prev matches Some(p) ==> (#[trigger] h[i]).0 > p))
            ==> stored_watermark(prev, h) is Some,
    decreases h.len(),
{
    if h.len() > 0 {
        let w = h.drop_last();
        lemma_watermark_advances(prev, w);
        assert forall|i: int| 0 <= i < h.len() implies max_apple_over(prev, h)->0 >= (#[trigger] h[i]).0 by {
            if i < h.len() - 1 {
                assert(h[i] == w[i]);
            }
        }
    }
    if exists|i: int| 0 <= i < h.len() && (prev matches Some(p) ==> (#[trigger] h[i]).0 > p) {
        let i = choose|i: int| 0 <= i < h.len() && (prev matches Some(p) ==> (#[trigger] h[i]).0 > p);
        assert(max_apple_over(prev, h)->0 >= h[i].0);
    }
}

/// The Unix-milliseconds watermark a run reports is the latest date among
/// the messages it observed, and there is one exactly when it observed any.
pub proof fn lemma_unix_watermark_is_latest(h: Seq<ObservedMessage>)
    ensures
        h.len() > 0 <==> max_unix_over(h) is Some,
        forall|i: int| 0 <= i < h.len() ==> max_unix_over(h)->0 >= (#[trigger] h[i]).1,
        h.len() > 0 ==> exists|i: int| 0 <= i < h.len() && max_unix_over(h)->0 == (#[trigger] h[i]).1,
    decreases h.len(),
{
    if h.len() > 0 {
        let w = h.drop_last();
        lemma_unix_watermark_is_latest(w);
        assert forall|i: int| 0 <= i < h.len() implies max_unix_over(h)->0 >= (#[trigger] h[i]).1 by {
            if i < h.len() - 1 {
                assert(h[i] == w[i]);
            }
        }
        if w.len() > 0 && max_unix_over(h) == max_unix_over(w) {
            let i = choose|i: int| 0 <= i < w.len() && max_unix_over(w)->0 == (#[trigger] w[i]).1;
            assert(h[i] == w[i]);
        } else {
            assert(max_unix_over(h)->0 == h[h.len() - 1].1);
        }
    }
}

} // verus!
