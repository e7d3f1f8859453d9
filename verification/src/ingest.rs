//! Decisions taken before a document is recognized again.

use vstd::prelude::*;

verus! {

/// Where a document's pixels are.
#[derive(Clone, Copy, Debug, PartialEq, Eq, Structural)]
pub enum ImageSlot {
    Loaded,
    OnDisk,
    Missing,
}

/// What a retry does about the pixels it needs.
#[derive(Clone, Copy, Debug, PartialEq, Eq)]
pub enum MissingPixels {
    Run,
    LoadPng,
    Fail(&'static str),
}

/// Recognize at once with pixels in memory, load the image first when it is
/// on disk, and fail with a reason when it is gone or the snip is.
pub fn missing_pixels_action(slot: Option<ImageSlot>) -> (a: MissingPixels)
    ensures
        slot == Some(ImageSlot::Loaded) ==> a == MissingPixels::Run,
        slot == Some(ImageSlot::OnDisk) ==> a == MissingPixels::LoadPng,
        slot == Some(ImageSlot::Missing) ==> (a matches MissingPixels::Fail(m) && m@
            == "Original image is missing"@),
        slot is None ==> (a matches MissingPixels::Fail(m) && m@ == "Snip is gone"@),
{
    match slot {
        Some(ImageSlot::Loaded) => MissingPixels::Run,
        Some(ImageSlot::OnDisk) => MissingPixels::LoadPng,
        Some(ImageSlot::Missing) => MissingPixels::Fail("Original image is missing"),
        None => MissingPixels::Fail("Snip is gone"),
    }
}

/// The ink strokes to recognize with: those in memory win; else what was
/// read from disk, whose error is passed on rather than recognizing the
/// page without its ink.
pub fn resolve_ink_traces<T, E>(ram: Option<T>, disk: Option<Result<Option<T>, E>>) -> (r: Result<
    Option<T>,
    E,
>)
    ensures
        ram is Some ==> r == Ok::<Option<T>, E>(ram),
        ram is None ==> r == match disk {
            None => Ok(None),
            Some(d) => d,
        },
{
    if let Some(traces) = ram {
        return Ok(Some(traces));
    }
    match disk {
        None => Ok(None),
        Some(d) => d,
    }
}

/// What recognition leaves on its document.
#[derive(Clone, Copy, Debug, PartialEq, Eq, Structural)]
pub enum OcrDocUpdate {
    /// Nothing: the app is shutting down or the snip is gone.
    Untouched,
    /// The text came back: the status becomes ready; the blocks shown are
    /// replaced by the recognized ones unless the user's raw text stands.
    Ready { replace_blocks: bool },
    /// Recognition failed: the status becomes failed with the error.
    Failed,
}

/// The steps after a recognition job comes back.
#[derive(Clone, Copy, Debug, PartialEq, Eq, Structural)]
pub struct OcrCompletion {
    pub doc: OcrDocUpdate,
    /// The job is taken off the queue (always).
    pub finish_job: bool,
    /// The rest of the follow-up runs: the idle engine release is scheduled,
    /// the intake item is finished with `ready`, the document persisted and
    /// the next job started.
    pub follow_up: bool,
    /// The document is ready.
    pub ready: bool,
    /// The selected document is copied to the clipboard.
    pub autocopy: bool,
}

pub open spec fn ocr_completion_spec(
    shutting_down: bool,
    has_doc: bool,
    ok: bool,
    has_raw_text: bool,
    autocopy: bool,
    selected: bool,
) -> OcrCompletion {
    if shutting_down {
        OcrCompletion {
            doc: OcrDocUpdate::Untouched,
            finish_job: true,
            follow_up: false,
            ready: false,
            autocopy: false,
        }
    } else {
        let ready = has_doc && ok;
        OcrCompletion {
            doc: if !has_doc {
                OcrDocUpdate::Untouched
            } else if ok {
                OcrDocUpdate::Ready { replace_blocks: !has_raw_text }
            } else {
                OcrDocUpdate::Failed
            },
            finish_job: true,
            follow_up: true,
            ready,
            autocopy: ready && autocopy && selected,
        }
    }
}

/// What happens when the recognition of a snip returns: while shutting down
/// only the job is finished; otherwise the snip (if still there) becomes
/// ready or failed, the follow-up runs, and a ready snip that is selected
/// is copied when auto-copy is on.
pub fn ocr_completion(
    shutting_down: bool,
    has_doc: bool,
    ok: bool,
    has_raw_text: bool,
    autocopy: bool,
    selected: bool,
) -> (c: OcrCompletion)
    ensures
        c == ocr_completion_spec(shutting_down, has_doc, ok, has_raw_text, autocopy, selected),
{
    if shutting_down {
        return OcrCompletion {
            doc: OcrDocUpdate::Untouched,
            finish_job: true,
            follow_up: false,
            ready: false,
            autocopy: false,
        };
    }
    let ready = has_doc && ok;
    let doc = if !has_doc {
        OcrDocUpdate::Untouched
    } else if ok {
        OcrDocUpdate::Ready { replace_blocks: !has_raw_text }
    } else {
        OcrDocUpdate::Failed
    };
    OcrCompletion { doc, finish_job: true, follow_up: true, ready, autocopy: ready && autocopy && selected }
}

} // verus!
