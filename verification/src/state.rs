//! The shared state and the decisions made over it.
//!
//! [`AppState`] couples the history store with the snapshot: the single
//! last-observed clipboard text.  The snapshot exists only to suppress
//! duplicate and self-triggered detection; it is not persisted.  The change
//! detector's loop and the UI-triggered write-back both run through the
//! decision functions here: a host process performs the clipboard reads and
//! writes, hands the sampled values in, and carries the returned actions
//! out, keeping exclusive access to the state around each call.

use vstd::prelude::*;

use crate::clip::{Clip, Rec, rec_of};
use crate::database::{
    Database, StoreError, matching, recent_model, recs, sorted_desc, sources_ok, upsert_model,
    wf_rows,
};
use crate::text::{is_blank, is_blank_str};

verus! {

/// The row cap of the recency listing the UI renders.  It bounds rendering
/// cost only; rows beyond it remain stored.
pub const DEFAULT_LIMIT: u32 = 1000;

/// The mathematical value of the shared state: the store's rows and the
/// last observed clipboard text, if any.
#[verifier::ext_equal]
pub struct StateModel {
    /// The rows of the history store.
    pub history: Seq<Rec>,
    /// The last observed clipboard text.
    pub snapshot: Option<Seq<char>>,
}

/// The text a sampled clipboard reading stands for.
pub open spec fn opt_text(o: Option<String>) -> Option<Seq<char>> {
    match o {
        Option::Some(s) => Option::Some(s@),
        Option::None => Option::None,
    }
}

/// The detector's Compare decision: a sample is captured exactly when the
/// clipboard held text, the text is not blank, and it differs from the
/// snapshot.  A reading with no text and a blank reading never advance the
/// cycle; an unchanged reading ends it without side effects.
pub open spec fn captures(snapshot: Option<Seq<char>>, sample: Option<Seq<char>>) -> bool {
    match sample {
        Option::Some(s) => !is_blank(s) && snapshot != Option::Some(s),
        Option::None => false,
    }
}

/// What seeding the snapshot from the startup clipboard reading leaves in
/// it: the reading, when it holds non-blank text; the old snapshot
/// otherwise.
pub open spec fn seeded(snapshot: Option<Seq<char>>, initial: Option<Seq<char>>) -> Option<
    Seq<char>,
> {
    match initial {
        Option::Some(t) => if !is_blank(t) {
            Option::Some(t)
        } else {
            snapshot
        },
        Option::None => snapshot,
    }
}

/// What a write-back did.
#[derive(Clone, Copy, Debug, PartialEq, Eq, Structural)]
pub enum WriteBack {
    /// The text was recorded and the caller must now place it on the system
    /// clipboard.
    Applied,
    /// Blank or unchanged text: nothing was recorded and the clipboard is
    /// left alone.
    Skipped,
}

/// The shared state: the store and the snapshot slot.  A host wraps one
/// value of this in its lock and passes it to every handler.
pub struct AppState {
    /// The history store.
    pub db: Database,
    /// The last observed clipboard text, used to tell real changes from
    /// re-reads of known content.
    pub last_clipboard_content: Option<String>,
}

impl View for AppState {
    type V = StateModel;

    open spec fn view(&self) -> StateModel {
        StateModel {
            history: self.db@,
            snapshot: opt_text(self.last_clipboard_content),
        }
    }
}

impl AppState {
    /// The state invariant: the store's rows are well formed.
    pub open spec fn wf(&self) -> bool {
        wf_rows(self@.history)
    }

    /// A fresh state: empty store, no snapshot.
    pub fn new() -> (s: AppState)
        ensures
            s@.history == Seq::<Rec>::empty(),
            s@.snapshot is None,
            s.wf(),
    {
        AppState { db: Database::new(), last_clipboard_content: Option::None }
    }

    /// Seeds the snapshot from the clipboard's content at startup, so the
    /// text already sitting there is not re-ingested as a change.  A reading
    /// without text, or with blank text, leaves the snapshot alone.
    pub fn initialize_snapshot(&mut self, initial: Option<String>)
        ensures
            final(self)@.history == old(self)@.history,
            final(self)@.snapshot == seeded(old(self)@.snapshot, opt_text(initial)),
            old(self).wf() ==> final(self).wf(),
    {
        match initial {
            Option::Some(t) => {
                if !is_blank_str(t.as_str()) {
                    self.last_clipboard_content = Option::Some(t);
                }
            },
            Option::None => {},
        }
    }

    /// The detector's Compare step: whether the sampled clipboard reading
    /// is a real change that must be persisted.  Reads the state only.
    pub fn should_capture(&self, sample: &Option<String>) -> (b: bool)
        ensures
            b == captures(self@.snapshot, opt_text(*sample)),
    {
        match sample {
            Option::None => false,
            Option::Some(text) => {
                if is_blank_str(text.as_str()) {
                    false
                } else {
                    match &self.last_clipboard_content {
                        Option::None => true,
                        Option::Some(last) => !(*last == *text),
                    }
                }
            },
        }
    }

    /// The Persist and UpdateSnapshot steps: builds the record from the
    /// text, the resolved source label and the capture time, upserts it,
    /// and sets the snapshot to the text, so the next Compare sees this
    /// write as unchanged.  Never fails.
    pub fn commit_capture(&mut self, text: String, source: String, now: i64) -> (r: Result<
        (),
        StoreError,
    >)
        requires
            old(self).wf(),
            !is_blank(text@),
        ensures
            final(self).wf(),
            final(self)@.history == upsert_model(
                old(self)@.history,
                rec_of(text@, now as int, source@),
            ),
            final(self)@.snapshot == Option::Some(text@),
            r is Ok,
    {
        let snap = text.clone();
        let clip = Clip::new(text, source, now);
        let r = self.db.upsert(clip);
        self.last_clipboard_content = Option::Some(snap);
        r
    }

    /// One detector cycle after Sample: persists the reading and refreshes
    /// the snapshot exactly when Compare decides the reading is a real
    /// change, and otherwise leaves the state untouched.  The caller hands
    /// in the resolved source label (empty when the resolver failed) and
    /// emits its change notification exactly when `captured` comes back
    /// true.
    pub fn detector_cycle(&mut self, sample: Option<String>, source: String, now: i64) -> (captured:
        bool)
        requires
            old(self).wf(),
        ensures
            final(self).wf(),
            captured == captures(old(self)@.snapshot, opt_text(sample)),
            captured ==> (opt_text(sample) matches Some(t) && final(self)@.history == upsert_model(
                old(self)@.history,
                rec_of(t, now as int, source@),
            ) && final(self)@.snapshot == Option::Some(t)),
            !captured ==> final(self)@ == old(self)@,
    {
        let proceed = self.should_capture(&sample);
        if proceed {
            match sample {
                Option::Some(text) => {
                    let _ = self.commit_capture(text, source, now);
                    true
                },
                Option::None => unreached(),
            }
        } else {
            false
        }
    }

    /// The write-back path, triggered by a UI selection.  Blank text is a
    /// no-op success; text equal to the snapshot is already the clipboard's
    /// content and is skipped, so the write is not re-ingested; otherwise
    /// the text is recorded through the same builder and store path the
    /// detector uses and the snapshot is set before the caller touches the
    /// system clipboard.  On `Applied` the caller then writes the text to
    /// the system clipboard, still holding its lock on this state.
    pub fn update_clipboard_on_click(&mut self, clip_text: String, source: String, now: i64) -> (r:
        Result<WriteBack, StoreError>)
        requires
            old(self).wf(),
        ensures
            final(self).wf(),
            r is Ok,
            is_blank(clip_text@) ==> final(self)@ == old(self)@ && r == Ok::<
                WriteBack,
                StoreError,
            >(WriteBack::Skipped),
            !is_blank(clip_text@) && old(self)@.snapshot == Option::Some(clip_text@)
                ==> final(self)@ == old(self)@ && r == Ok::<WriteBack, StoreError>(
                WriteBack::Skipped,
            ),
            !is_blank(clip_text@) && old(self)@.snapshot != Option::Some(clip_text@)
                ==> final(self)@.history == upsert_model(
                old(self)@.history,
                rec_of(clip_text@, now as int, source@),
            ) && r == Ok::<WriteBack, StoreError>(WriteBack::Applied),
            !is_blank(clip_text@) ==> final(self)@.snapshot == Option::Some(clip_text@),
    {
        if is_blank_str(clip_text.as_str()) {
            return Ok(WriteBack::Skipped);
        }
        let same = match &self.last_clipboard_content {
            Option::Some(last) => *last == clip_text,
            Option::None => false,
        };
        if same {
            Ok(WriteBack::Skipped)
        } else {
            let _ = self.commit_capture(clip_text, source, now);
            Ok(WriteBack::Applied)
        }
    }

    /// The rows the UI lists: the `DEFAULT_LIMIT` most recent, newest
    /// first.
    pub fn get_all_clips(&self) -> (r: Result<Vec<Clip>, StoreError>)
        requires
            self.wf(),
        ensures
            r matches Ok(clips) && recs(clips@) == recent_model(
                self@.history,
                DEFAULT_LIMIT as int,
            ),
            r matches Ok(clips) ==> sorted_desc(recs(clips@)),
    {
        self.db.get_all_clips(DEFAULT_LIMIT)
    }

    /// The search the UI runs: a blank term together with a blank source
    /// filter degrades to the recency listing; anything else filters the
    /// table.
    pub fn on_search(&self, term: String, source_app_filter: String) -> (r: Result<
        Vec<Clip>,
        StoreError,
    >)
        requires
            self.wf(),
        ensures
            is_blank(term@) && is_blank(source_app_filter@) ==> (r matches Ok(clips) && recs(
                clips@,
            ) == recent_model(self@.history, DEFAULT_LIMIT as int)),
            !(is_blank(term@) && is_blank(source_app_filter@)) ==> (r matches Ok(clips) && recs(
                clips@,
            ) == matching(self@.history, term@, source_app_filter@)),
            r matches Ok(clips) ==> sorted_desc(recs(clips@)),
    {
        if is_blank_str(term.as_str()) && is_blank_str(source_app_filter.as_str()) {
            self.db.get_all_clips(DEFAULT_LIMIT)
        } else {
            self.db.search(term, source_app_filter)
        }
    }

    /// The distinct non-empty source labels, for the UI's filter choices.
    pub fn get_unique_source_apps(&self) -> (r: Result<Vec<String>, StoreError>)
        ensures
            r matches Ok(labels) && sources_ok(self@.history, labels@),
    {
        Ok(self.db.get_all_sources())
    }
}

/// Law: an unchanged sample is not captured.  When the snapshot already
/// holds the sampled text — because the previous cycle stored it, or
/// because a write-back placed it there — the cycle ends without an upsert,
/// so sampling the same content twice in a row records it once.
pub proof fn lemma_unchanged_sample_ignored(snapshot: Option<Seq<char>>, s: Seq<char>)
    requires
        snapshot == Option::Some(s),
    ensures
        !captures(snapshot, Option::Some(s)),
{
}

/// Law: a write-back suppresses its own detection.  After the write-back
/// path applies a text, the snapshot holds that text, so a detector sample
/// that reads the same text back from the system clipboard is treated as
/// unchanged: no duplicate upsert, no duplicate change notification.
pub proof fn lemma_write_back_suppresses_detection(m: StateModel, t: Seq<char>)
    requires
        m.snapshot == Option::Some(t),
    ensures
        !captures(m.snapshot, Option::Some(t)),
{
}

/// Law: a blank or absent sample is never captured: no record is built and
/// the detector cycle leaves the state — the snapshot included —
/// unchanged.
pub proof fn lemma_blank_sample_ignored(snapshot: Option<Seq<char>>, s: Seq<char>)
    requires
        is_blank(s),
    ensures
        !captures(snapshot, Option::Some(s)),
        !captures(snapshot, Option::None),
{
}

} // verus!
