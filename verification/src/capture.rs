//! Decisions of the text-only capture loop: which OCR text is worth
//! keeping, which window segments are open, when a window's text has
//! changed, and which segments close when their windows disappear.
use vstd::prelude::*;
use std::collections::hash_map::DefaultHasher;
use std::hash::Hasher;
use vstd::std_specs::hash::DefaultHasherAdditionalSpecFns;
use crate::assoc::{assoc_map, distinct_keys, lemma_assoc_map, lemma_assoc_map_push, lemma_assoc_map_update};
use crate::models::NewSegment;
use crate::text::{trim, trim_seq};

verus! {

broadcast use vstd::string::group_string_axioms;

/// Source tag of OCR extractions.
pub const SOURCE_OCR: &'static str = "ocr";

/// Minimum length, in UTF-8 bytes, of OCR text worth persisting; shorter
/// text is mostly title-bar noise.
pub const MIN_TEXT_LEN: usize = 8;

/// Per-window key: (process id, window name, monitor id). The same window
/// across sweeps gets the same key.
pub type WindowKey = (i32, String, u32);

/// The abstract value of a window key.
pub type WindowKeyView = (i32, Seq<char>, u32);

/// The abstract value of a window key.
pub open spec fn key_view(k: WindowKey) -> WindowKeyView {
    (k.0, k.1@, k.2)
}

/// Open segment and last-seen text hash of an active window.
#[derive(Clone, Copy)]
struct ActiveWindow {
    segment_id: i64,
    last_text_hash: u64,
}

/// The segments that are currently open, one per window key. A segment
/// lives as long as its window keeps appearing in successive sweeps.
pub struct SegmentTracker {
    open: Vec<(WindowKey, ActiveWindow)>,
}

spec fn entry_view(e: (WindowKey, ActiveWindow)) -> (WindowKeyView, (i64, u64)) {
    (key_view(e.0), (e.1.segment_id, e.1.last_text_hash))
}

spec fn entries_view(v: Seq<(WindowKey, ActiveWindow)>) -> Seq<(WindowKeyView, (i64, u64))> {
    v.map_values(|e: (WindowKey, ActiveWindow)| entry_view(e))
}

impl View for SegmentTracker {
    /// Each open window's key, mapped to its segment id and the hash of the
    /// last text recorded for it.
    type V = Map<WindowKeyView, (i64, u64)>;

    closed spec fn view(&self) -> Map<WindowKeyView, (i64, u64)> {
        assoc_map(entries_view(self.open@))
    }
}

/// Whether the window `k` of an open segment has gone from monitor
/// `monitor_id`: it belongs to that monitor and was not seen in the sweep.
pub open spec fn is_stale(k: WindowKeyView, monitor_id: u32, seen: Seq<WindowKeyView>) -> bool {
    k.2 == monitor_id && !seen.contains(k)
}

/// The tracker, as a map, after `record_text(k, text_hash)`, with what
/// that call returns.
pub open spec fn after_record(m: Map<WindowKeyView, (i64, u64)>, k: WindowKeyView, text_hash: u64) -> (Option<i64>, Map<WindowKeyView, (i64, u64)>) {
    if m.dom().contains(k) && m[k].1 != text_hash {
        (Some(m[k].0), m.insert(k, (m[k].0, text_hash)))
    } else {
        (None, m)
    }
}

/// The tracker, as a map, after closing the stale segments of monitor
/// `monitor_id` given the keys `seen` in a sweep.
pub open spec fn after_close(m: Map<WindowKeyView, (i64, u64)>, monitor_id: u32, seen: Seq<WindowKeyView>) -> Map<WindowKeyView, (i64, u64)> {
    Map::new(|k: WindowKeyView| m.dom().contains(k) && !is_stale(k, monitor_id, seen), |k: WindowKeyView| m[k])
}

/// The abstract values of a list of window keys.
pub open spec fn keys_view(keys: Seq<WindowKey>) -> Seq<WindowKeyView> {
    keys.map_values(|k: WindowKey| key_view(k))
}

fn same_key(a: &WindowKey, b: &WindowKey) -> (r: bool)
    ensures
        r == (key_view(*a) == key_view(*b)),
{
    a.0 == b.0 && a.2 == b.2 && a.1 == b.1
}

fn clone_key(k: &WindowKey) -> (r: WindowKey)
    ensures
        key_view(r) == key_view(*k),
{
    (k.0, k.1.clone(), k.2)
}

impl SegmentTracker {
    /// No window key is open twice.
    pub closed spec fn wf(&self) -> bool {
        distinct_keys(entries_view(self.open@))
    }

    /// A tracker with no open segment.
    pub fn new() -> (t: Self)
        ensures
            t.wf(),
            t@ == Map::<WindowKeyView, (i64, u64)>::empty(),
    {
        let t = SegmentTracker { open: Vec::new() };
        assert(entries_view(t.open@) =~= Seq::empty());
        t
    }

    fn find(&self, key: &WindowKey) -> (r: Option<usize>)
        requires
            self.wf(),
        ensures
            match r {
                Some(i) => i < self.open@.len() && key_view(self.open@[i as int].0) == key_view(*key),
                None => !self@.dom().contains(key_view(*key)),
            },
    {
        proof {
            lemma_assoc_map(entries_view(self.open@));
        }
        let n = self.open.len();
        let mut i: usize = 0;
        while i < n
            invariant
                n == self.open@.len(),
                i <= n,
                forall|j: int| 0 <= j < i ==> key_view(#[trigger] self.open@[j].0) != key_view(*key),
            decreases n - i,
        {
            if same_key(&self.open[i].0, key) {
                return Some(i);
            }
            i = i + 1;
        }
        proof {
            let ev = entries_view(self.open@);
            if self@.dom().contains(key_view(*key)) {
                let j = choose|j: int| 0 <= j < ev.len() && (#[trigger] ev[j]).0 == key_view(*key);
                assert(ev[j] == entry_view(self.open@[j]));
            }
        }
        None
    }

    /// Whether a segment is open for `key`.
    pub fn is_open(&self, key: &WindowKey) -> (b: bool)
        requires
            self.wf(),
        ensures
            b == self@.dom().contains(key_view(*key)),
    {
        proof {
            lemma_assoc_map(entries_view(self.open@));
        }
        match self.find(key) {
            Some(i) => {
                assert(entries_view(self.open@)[i as int].0 == key_view(*key));
                true
            },
            None => false,
        }
    }

    /// Records that segment `segment_id` was opened for `key`; no text has
    /// been recorded for it yet (its last hash is 0).
    pub fn open(&mut self, key: WindowKey, segment_id: i64)
        requires
            old(self).wf(),
            !old(self)@.dom().contains(key_view(key)),
        ensures
            final(self).wf(),
            final(self)@ == old(self)@.insert(key_view(key), (segment_id, 0u64)),
    {
        let ghost old_open = self.open@;
        let entry = (key, ActiveWindow { segment_id, last_text_hash: 0 });
        self.open.push(entry);
        proof {
            lemma_assoc_map_push(entries_view(old_open), key_view(key), (segment_id, 0u64));
            assert(entries_view(self.open@) =~= entries_view(old_open).push(entry_view(entry)));
        }
    }

    /// Records the hash of the text just read from `key`'s window. When it
    /// differs from the last one recorded, the new hash is kept and the
    /// segment id returned: the text is new and is to be stored. When it is
    /// the same, or no segment is open for `key`, nothing changes.
    pub fn record_text(&mut self, key: &WindowKey, text_hash: u64) -> (seg: Option<i64>)
        requires
            old(self).wf(),
        ensures
            final(self).wf(),
            (seg, final(self)@) == after_record(old(self)@, key_view(*key), text_hash),
    {
        let ghost old_open = self.open@;
        proof {
            lemma_assoc_map(entries_view(old_open));
        }
        match self.find(key) {
            None => None,
            Some(i) => {
                let active = self.open[i].1;
                proof {
                    assert(entries_view(old_open)[i as int] == entry_view(old_open[i as int]));
                }
                if active.last_text_hash == text_hash {
                    None
                } else {
                    let k = clone_key(&self.open[i].0);
                    let entry = (k, ActiveWindow { segment_id: active.segment_id, last_text_hash: text_hash });
                    self.open.set(i, entry);
                    proof {
                        let ev = entries_view(old_open);
                        lemma_assoc_map_update(ev, i as int, (active.segment_id, text_hash));
                        assert(entries_view(self.open@) =~= ev.update(i as int, (ev[i as int].0, (active.segment_id, text_hash))));
                    }
                    Some(active.segment_id)
                }
            },
        }
    }

    /// Closes the segments of the windows of monitor `monitor_id` that were
    /// not among `seen` in this sweep, and returns their segment ids, each
    /// once. Segments of other monitors, and of windows seen, stay open.
    pub fn close_stale(&mut self, monitor_id: u32, seen: &Vec<WindowKey>) -> (closed: Vec<i64>)
        requires
            old(self).wf(),
        ensures
            final(self).wf(),
            final(self)@ == after_close(old(self)@, monitor_id, keys_view(seen@)),
            exists|ks: Seq<WindowKeyView>|
                {
                    &&& ks.no_duplicates()
                    &&& ks.to_set() == old(self)@.dom().filter(|k: WindowKeyView| is_stale(k, monitor_id, keys_view(seen@)))
                    &&& closed@ == ks.map_values(|k: WindowKeyView| old(self)@[k].0)
                },
    {
        let ghost old_open = self.open@;
        let ghost ev = entries_view(old_open);
        let ghost sv = keys_view(seen@);
        proof {
            lemma_assoc_map(ev);
        }
        let n = self.open.len();
        let mut kept: Vec<(WindowKey, ActiveWindow)> = Vec::new();
        let mut closed: Vec<i64> = Vec::new();
        let ghost mut ks: Seq<WindowKeyView> = Seq::empty();
        let mut i: usize = 0;
        while i < n
            invariant
                n == old_open.len(),
                i <= n,
                self.open@ == old_open,
                ev == entries_view(old_open),
                sv == keys_view(seen@),
                distinct_keys(ev),
                distinct_keys(entries_view(kept@)),
                forall|k: WindowKeyView|
                    assoc_map(entries_view(kept@)).dom().contains(k) <==> exists|j: int|
                        0 <= j < i && (#[trigger] ev[j]).0 == k && !is_stale(k, monitor_id, sv),
                forall|j: int|
                    0 <= j < i && !is_stale((#[trigger] ev[j]).0, monitor_id, sv) ==> assoc_map(
                        entries_view(kept@),
                    )[ev[j].0] == ev[j].1,
                ks.no_duplicates(),
                forall|k: WindowKeyView|
                    ks.contains(k) <==> exists|j: int| 0 <= j < i && (#[trigger] ev[j]).0 == k && is_stale(k, monitor_id, sv),
                closed@ == ks.map_values(|k: WindowKeyView| assoc_map(ev)[k].0),
            decreases n - i,
        {
            proof {
                lemma_assoc_map(ev);
            }
            let entry = &self.open[i];
            let mut present = false;
            let m = seen.len();
            let mut j: usize = 0;
            while j < m
                invariant
                    m == seen@.len(),
                    j <= m,
                    sv == keys_view(seen@),
                    present == exists|x: int| 0 <= x < j && sv[x] == key_view(entry.0),
                decreases m - j,
            {
                assert(sv[j as int] == key_view(seen@[j as int]));
                if same_key(&seen[j], &entry.0) {
                    present = true;
                }
                j = j + 1;
            }
            assert(present == sv.contains(key_view(entry.0)));
            assert(ev[i as int] == entry_view(*entry));
            let ghost k = key_view(entry.0);
            if entry.0.2 == monitor_id && !present {
                let ghost prev_ks = ks;
                proof {
                    assert(!ks.contains(k)) by {
                        if ks.contains(k) {
                            let j = choose|j: int| 0 <= j < i && (#[trigger] ev[j]).0 == k && is_stale(k, monitor_id, sv);
                        }
                    }
                    ks = ks.push(k);
                    assert(ks.drop_last() =~= prev_ks);
                }
                closed.push(entry.1.segment_id);
                proof {
                    assert(assoc_map(ev)[ev[i as int].0] == ev[i as int].1);
                    assert(closed@ =~= ks.map_values(|k: WindowKeyView| assoc_map(ev)[k].0));
                    let old_ks = ks.drop_last();
                    assert forall|x: WindowKeyView| ks.contains(x) <==> (old_ks.contains(x) || x == k) by {
                        if ks.contains(x) {
                            let p = choose|p: int| 0 <= p < ks.len() && ks[p] == x;
                            if p < old_ks.len() {
                                assert(old_ks[p] == x);
                            }
                        }
                        if old_ks.contains(x) {
                            let p = choose|p: int| 0 <= p < old_ks.len() && old_ks[p] == x;
                            assert(ks[p] == x);
                        }
                        if x == k {
                            assert(ks[ks.len() - 1] == x);
                        }
                    }
                    assert forall|x: WindowKeyView| ks.contains(x) <==> exists|j: int| 0 <= j < i + 1 && (#[trigger] ev[j]).0 == x && is_stale(x, monitor_id, sv) by {
                        if x == k {
                            assert(ev[i as int].0 == x);
                        } else if exists|j: int| 0 <= j < i + 1 && (#[trigger] ev[j]).0 == x && is_stale(x, monitor_id, sv) {
                            let j = choose|j: int| 0 <= j < i + 1 && (#[trigger] ev[j]).0 == x && is_stale(x, monitor_id, sv);
                            assert(j < i);
                            assert(old_ks.contains(x));
                        }
                    }
                    assert forall|x: WindowKeyView| assoc_map(entries_view(kept@)).dom().contains(x) <==> exists|j: int|
                        0 <= j < i + 1 && (#[trigger] ev[j]).0 == x && !is_stale(x, monitor_id, sv) by {
                        if exists|j: int| 0 <= j < i + 1 && (#[trigger] ev[j]).0 == x && !is_stale(x, monitor_id, sv) {
                            let j = choose|j: int| 0 <= j < i + 1 && (#[trigger] ev[j]).0 == x && !is_stale(x, monitor_id, sv);
                            if j == i {
                                assert(x == k);
                            }
                        }
                    }
                }
            } else {
                let copy = (clone_key(&entry.0), entry.1);
                proof {
                    assert(!assoc_map(entries_view(kept@)).dom().contains(k)) by {
                        if assoc_map(entries_view(kept@)).dom().contains(k) {
                            let j = choose|j: int| 0 <= j < i && (#[trigger] ev[j]).0 == k && !is_stale(k, monitor_id, sv);
                            assert(ev[j].0 != ev[i as int].0);
                        }
                    }
                    lemma_assoc_map_push(entries_view(kept@), k, ev[i as int].1);
                }
                let ghost old_kept = kept@;
                kept.push(copy);
                proof {
                    assert(entries_view(kept@) =~= entries_view(old_kept).push((k, ev[i as int].1)));
                    assert forall|x: WindowKeyView| ks.contains(x) <==> exists|j: int| 0 <= j < i + 1 && (#[trigger] ev[j]).0 == x && is_stale(x, monitor_id, sv) by {
                        if exists|j: int| 0 <= j < i + 1 && (#[trigger] ev[j]).0 == x && is_stale(x, monitor_id, sv) {
                            let j = choose|j: int| 0 <= j < i + 1 && (#[trigger] ev[j]).0 == x && is_stale(x, monitor_id, sv);
                            if j == i {
                                assert(x == k);
                            }
                        }
                    }
                    assert forall|j: int|
                        0 <= j < i + 1 && !is_stale((#[trigger] ev[j]).0, monitor_id, sv) implies assoc_map(
                            entries_view(kept@),
                        )[ev[j].0] == ev[j].1 by {
                        if j < i {
                            assert(ev[j].0 != ev[i as int].0);
                        }
                    }
                }
            }
            i = i + 1;
        }
        self.open = kept;
        proof {
            let newm = assoc_map(entries_view(self.open@));
            let want = after_close(assoc_map(ev), monitor_id, sv);
            assert forall|k: WindowKeyView| newm.dom().contains(k) <==> want.dom().contains(k) by {
                if newm.dom().contains(k) {
                    let j = choose|j: int| 0 <= j < n && (#[trigger] ev[j]).0 == k && !is_stale(k, monitor_id, sv);
                }
                if want.dom().contains(k) {
                    let j = choose|j: int| 0 <= j < ev.len() && (#[trigger] ev[j]).0 == k;
                }
            }
            assert forall|k: WindowKeyView| #[trigger] newm.dom().contains(k) implies newm[k] == want[k] by {
                let j = choose|j: int| 0 <= j < n && (#[trigger] ev[j]).0 == k && !is_stale(k, monitor_id, sv);
            }
            assert(newm =~= want);
            let stale = assoc_map(ev).dom().filter(|k: WindowKeyView| is_stale(k, monitor_id, sv));
            assert forall|k: WindowKeyView| ks.to_set().contains(k) <==> stale.contains(k) by {
                if stale.contains(k) {
                    let j = choose|j: int| 0 <= j < ev.len() && (#[trigger] ev[j]).0 == k;
                }
            }
            assert(ks.to_set() =~= stale);
        }
        closed
    }
}

/// The hash of an OCR text that tells whether a window's text changed:
/// std's `DefaultHasher` over the text's UTF-8 bytes followed by the byte
/// 0xff, which is what hashing a `str` feeds it.
pub fn hash_text(s: &str) -> (h: u64)
    ensures
        h == DefaultHasher::spec_finish(seq![vstd::utf8::encode_utf8(s@), seq![0xffu8]]),
{
    let mut hasher = DefaultHasher::new();
    let bytes = s.as_bytes();
    hasher.write(bytes);
    let end: Vec<u8> = vec![0xffu8];
    assert(end@ =~= seq![0xffu8]);
    hasher.write(end.as_slice());
    assert(hasher@ =~~= seq![vstd::utf8::encode_utf8(s@), seq![0xffu8]]);
    hasher.finish()
}

/// The OCR text of a window as it is stored: trimmed of Unicode whitespace,
/// and only where at least `MIN_TEXT_LEN` bytes remain.
pub fn prepare_ocr_text(text: &str) -> (kept: Option<String>)
    ensures
        match kept {
            Some(t) => t@ == trim_seq(text@) && vstd::utf8::encode_utf8(trim_seq(text@)).len() >= MIN_TEXT_LEN,
            None => vstd::utf8::encode_utf8(trim_seq(text@)).len() < MIN_TEXT_LEN,
        },
{
    let trimmed = trim(text);
    if trimmed.as_bytes().len() < MIN_TEXT_LEN {
        None
    } else {
        Some(String::from_str(trimmed))
    }
}

/// The segment opened for a newly seen window: it starts now, records the
/// application name as both bundle and name, the window name as title, and
/// the monitor.
pub fn window_segment(now_ms: i64, app_name: &str, window_name: &str, monitor_id: u32, focused: bool) -> (seg: NewSegment)
    ensures
        seg.started_at == now_ms,
        seg.app_bundle@ == app_name@,
        seg.app_name@ == app_name@,
        seg.window_title.deep_view() == Some(window_name@),
        seg.url is None,
        seg.monitor_id == Some(monitor_id as i64),
        seg.focused == focused,
{
    NewSegment {
        started_at: now_ms,
        app_bundle: String::from_str(app_name),
        app_name: String::from_str(app_name),
        window_title: Some(String::from_str(window_name)),
        url: None,
        monitor_id: Some(monitor_id as i64),
        focused,
    }
}

/// What the capture loop does next.
#[derive(Debug)]
pub enum CaptureStep {
    /// Sweep every monitor once.
    Sweep,
    /// Sleep this many milliseconds, then ask again.
    Sleep { ms: u64 },
}

/// How long the loop waits, while paused, before looking at the pause
/// switch again.
pub const PAUSE_POLL_MS: u64 = 500;

/// How long the loop waits after a failed run before it starts again.
pub const RESTART_DELAY_MS: u64 = 5000;

/// The capture loop's next step, asked before every tick: while capture is
/// paused it waits and looks again; after a run that failed it waits before
/// starting again; otherwise it sweeps.
pub fn capture_step(recording: bool, last_run_failed: bool) -> (s: CaptureStep)
    ensures
        !recording ==> s == (CaptureStep::Sleep { ms: 500 }),
        recording && last_run_failed ==> s == (CaptureStep::Sleep { ms: 5000 }),
        recording && !last_run_failed ==> s is Sweep,
{
    if !recording {
        CaptureStep::Sleep { ms: PAUSE_POLL_MS }
    } else if last_run_failed {
        CaptureStep::Sleep { ms: RESTART_DELAY_MS }
    } else {
        CaptureStep::Sweep
    }
}

/// How long the capture loop sleeps after a tick that took `elapsed`, when
/// ticks are `interval` apart: the rest of the interval, or nothing when
/// the tick overran it.
pub fn tick_pause(elapsed_nanos: u128, interval_nanos: u128) -> (pause: Option<u128>)
    ensures
        elapsed_nanos < interval_nanos ==> pause == Some((interval_nanos - elapsed_nanos) as u128),
        elapsed_nanos >= interval_nanos ==> pause is None,
{
    if elapsed_nanos < interval_nanos {
        Some(interval_nanos - elapsed_nanos)
    } else {
        None
    }
}


/// The same text read twice in a row from a window is stored once: the
/// second `record_text` returns nothing and changes nothing.
pub proof fn lemma_repeated_text_stored_once(m: Map<WindowKeyView, (i64, u64)>, k: WindowKeyView, text_hash: u64)
    ensures
        after_record(after_record(m, k, text_hash).1, k, text_hash) == (None::<i64>, after_record(m, k, text_hash).1),
{
}

/// Once a segment is opened for a window, the first text read from it is
/// stored in that segment, unless its hash is 0, the hash an opened segment
/// starts with.
pub proof fn lemma_first_text_after_open(m: Map<WindowKeyView, (i64, u64)>, k: WindowKeyView, segment_id: i64, text_hash: u64)
    requires
        text_hash != 0,
    ensures
        after_record(m.insert(k, (segment_id, 0u64)), k, text_hash).0 == Some(segment_id),
{
}

/// Recording text never opens or closes a segment, and never moves a
/// window to another segment.
pub proof fn lemma_record_keeps_segments(m: Map<WindowKeyView, (i64, u64)>, k: WindowKeyView, text_hash: u64)
    ensures
        after_record(m, k, text_hash).1.dom() == m.dom(),
        forall|x: WindowKeyView| #[trigger] m.dom().contains(x) ==> after_record(m, k, text_hash).1[x].0 == m[x].0,
{
    assert(after_record(m, k, text_hash).1.dom() =~= m.dom());
}

/// A sweep closes every stale segment: after it, no window of that monitor
/// that was not seen still has a segment open, and sweeping again with the
/// same windows closes nothing more.
pub proof fn lemma_close_stale_complete(m: Map<WindowKeyView, (i64, u64)>, monitor_id: u32, seen: Seq<WindowKeyView>)
    ensures
        forall|k: WindowKeyView| #[trigger] after_close(m, monitor_id, seen).dom().contains(k) ==> !is_stale(k, monitor_id, seen),
        after_close(after_close(m, monitor_id, seen), monitor_id, seen) == after_close(m, monitor_id, seen),
        forall|k: WindowKeyView| m.dom().contains(k) && seen.contains(k) ==> #[trigger] after_close(m, monitor_id, seen).dom().contains(k),
        forall|k: WindowKeyView| m.dom().contains(k) && k.2 != monitor_id ==> #[trigger] after_close(m, monitor_id, seen).dom().contains(k),
{
    assert(after_close(after_close(m, monitor_id, seen), monitor_id, seen) =~= after_close(m, monitor_id, seen));
}


/// Closing stale segments leaves every window it keeps exactly as it was:
/// same segment, same last text. So the unchanged text of a window that
/// stays open is not stored again after a sweep.
pub proof fn lemma_close_keeps_open_windows(
    m: Map<WindowKeyView, (i64, u64)>,
    monitor_id: u32,
    seen: Seq<WindowKeyView>,
    k: WindowKeyView,
    text_hash: u64,
)
    ensures
        forall|x: WindowKeyView| #[trigger] after_close(m, monitor_id, seen).dom().contains(x) ==> after_close(m, monitor_id, seen)[x] == m[x],
        after_close(m, monitor_id, seen).dom().subset_of(m.dom()),
        ({
            let recorded = after_record(m, k, text_hash).1;
            let swept = after_close(recorded, monitor_id, seen);
            swept.dom().contains(k) ==> after_record(swept, k, text_hash).0 is None
        }),
{
}

} // verus!
