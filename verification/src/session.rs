//! Small pieces of session state: the capture flow, search generations and
//! the toast line.

use vstd::prelude::*;

verus! {

/// `x.wrapping_add(1)` on a generation counter.
pub open spec fn next_gen(x: u64) -> u64 {
    vstd::wrapping::u64_specs::wrapping_add(x, 1)
}

// ------------------------------------------------------------ capture

/// Where the capture flow is.
#[derive(Clone, Copy, Debug, PartialEq, Eq, Structural)]
pub enum Capture {
    Idle,
    Grabbing,
}

/// The capture status, whether the main window was hidden for it, and
/// whether a clipboard read is in flight.
pub struct CaptureView {
    pub grabbing: bool,
    pub hidden: bool,
    pub clipboard_loading: bool,
}

pub struct CaptureSession {
    status: Capture,
    hidden: bool,
    clipboard_loading: bool,
}

impl View for CaptureSession {
    type V = CaptureView;

    closed spec fn view(&self) -> CaptureView {
        CaptureView {
            grabbing: self.status == Capture::Grabbing,
            hidden: self.hidden,
            clipboard_loading: self.clipboard_loading,
        }
    }
}

/// The state after `push_hide`.
pub open spec fn push_hide_spec(v: CaptureView) -> CaptureView {
    CaptureView { hidden: true, ..v }
}

/// The state after `pop_hide`, and what it returns.
pub open spec fn pop_hide_spec(v: CaptureView) -> (CaptureView, bool) {
    (CaptureView { hidden: false, ..v }, v.hidden)
}

/// The state after `force_show`.
pub open spec fn force_show_spec(v: CaptureView) -> CaptureView {
    CaptureView { hidden: false, ..v }
}

impl CaptureSession {
    /// Idle, shown, no clipboard read.
    pub fn new() -> (s: Self)
        ensures
            !s@.grabbing,
            !s@.hidden,
            !s@.clipboard_loading,
    {
        CaptureSession { status: Capture::Idle, hidden: false, clipboard_loading: false }
    }

    pub fn is_grabbing(&self) -> (b: bool)
        ensures
            b == self@.grabbing,
    {
        match self.status {
            Capture::Grabbing => true,
            Capture::Idle => false,
        }
    }

    pub fn set(&mut self, next: Capture)
        ensures
            final(self)@ == (CaptureView { grabbing: next == Capture::Grabbing, ..old(self)@ }),
    {
        self.status = next;
    }

    /// Notes that the main window was hidden for a capture.
    pub fn push_hide(&mut self)
        ensures
            final(self)@ == push_hide_spec(old(self)@),
    {
        self.hidden = true;
    }

    /// Whether the window was hidden for a capture; the note is taken away.
    pub fn pop_hide(&mut self) -> (was: bool)
        ensures
            (final(self)@, was) == pop_hide_spec(old(self)@),
    {
        let was = self.hidden;
        self.hidden = false;
        was
    }

    /// Forgets a pending hide without restoring anything.
    pub fn force_show(&mut self)
        ensures
            final(self)@ == force_show_spec(old(self)@),
    {
        self.hidden = false;
    }

    pub fn clipboard_loading(&self) -> (b: bool)
        ensures
            b == self@.clipboard_loading,
    {
        self.clipboard_loading
    }

    pub fn set_clipboard_loading(&mut self, loading: bool)
        ensures
            final(self)@ == (CaptureView { clipboard_loading: loading, ..old(self)@ }),
    {
        self.clipboard_loading = loading;
    }
}

/// After any number of `push_hide` calls, the first `pop_hide` reports the
/// hide and a second one reports nothing: the window is restored once.
pub proof fn lemma_hide_restores_once(v: CaptureView, pushes: nat)
    requires
        pushes >= 1,
    ensures
        ({
            let hidden = pushes_spec(v, pushes);
            let (after, first) = pop_hide_spec(hidden);
            let (_, second) = pop_hide_spec(after);
            first && !second
        }),
    decreases pushes,
{
    if pushes > 1 {
        lemma_hide_restores_once(v, (pushes - 1) as nat);
    }
}

/// `n` calls of `push_hide` from `v`.
pub open spec fn pushes_spec(v: CaptureView, n: nat) -> CaptureView
    decreases n,
{
    if n == 0 {
        v
    } else {
        push_hide_spec(pushes_spec(v, (n - 1) as nat))
    }
}

/// `force_show` cancels a pending hide: the next `pop_hide` reports nothing.
pub proof fn lemma_force_show_cancels_hide(v: CaptureView)
    ensures
        !pop_hide_spec(force_show_spec(push_hide_spec(v))).1,
{
}

/// Whether the capture flow hides the main window, and whether it must wait
/// for the window to be iconified before grabbing the screen.
#[derive(Clone, Copy, Debug, PartialEq, Eq)]
pub struct HidePlan {
    pub push_hide: bool,
    pub await_iconify: bool,
}

/// The window is hidden when the preference asks for it; there is only
/// something to iconify when a main window exists.
pub fn capture_hide_plan(hide_pref: bool, has_window: bool) -> (p: HidePlan)
    ensures
        p.push_hide == hide_pref,
        p.await_iconify == (hide_pref && has_window),
{
    HidePlan { push_hide: hide_pref, await_iconify: hide_pref && has_window }
}

// ------------------------------------------------------------ search

/// The live search query and the generation of the filter run for it.
pub struct SearchFilter {
    pub query: String,
    pub gen: u64,
}

impl SearchFilter {
    pub fn new() -> (s: Self)
        ensures
            s.query@ == Seq::<char>::empty(),
            s.gen == 0,
    {
        SearchFilter { query: String::new(), gen: 0 }
    }

    /// Starts a new filter generation and returns it.
    pub fn bump(&mut self) -> (g: u64)
        ensures
            g == next_gen(old(self).gen),
            final(self).gen == g,
            final(self).query == old(self).query,
    {
        self.gen = self.gen.wrapping_add(1);
        self.gen
    }
}

// ------------------------------------------------------------ toast

/// The message on screen, if any, and the generation of the last `show`.
pub struct ToastView {
    pub message: Option<Seq<char>>,
    pub generation: u64,
}

pub struct ToastState {
    message: Option<String>,
    generation: u64,
}

impl View for ToastState {
    type V = ToastView;

    closed spec fn view(&self) -> ToastView {
        ToastView {
            message: match self.message {
                Some(m) => Some(m@),
                None => None,
            },
            generation: self.generation,
        }
    }
}

/// The state after `show(m)`, and the generation it returns.
pub open spec fn show_spec(v: ToastView, m: Seq<char>) -> (ToastView, u64) {
    (ToastView { message: Some(m), generation: next_gen(v.generation) }, next_gen(v.generation))
}

/// The state after `clear(g)`, and whether it cleared: only the message of
/// the latest `show` is cleared, and only once.
pub open spec fn clear_spec(v: ToastView, g: u64) -> (ToastView, bool) {
    if v.generation != g || v.message is None {
        (v, false)
    } else {
        (ToastView { message: None, ..v }, true)
    }
}

impl ToastState {
    pub fn new() -> (t: Self)
        ensures
            t@.message is None,
            t@.generation == 0,
    {
        ToastState { message: None, generation: 0 }
    }

    /// The message on screen.
    pub fn message(&self) -> (m: Option<&str>)
        ensures
            match self@.message {
                Some(s) => m is Some && m.unwrap()@ == s,
                None => m is None,
            },
    {
        match &self.message {
            Some(s) => Some(s.as_str()),
            None => None,
        }
    }

    /// Shows `message`; the returned generation is what `clear` must be given.
    pub fn show(&mut self, message: String) -> (g: u64)
        ensures
            (final(self)@, g) == show_spec(old(self)@, message@),
    {
        self.message = Some(message);
        self.generation = self.generation.wrapping_add(1);
        self.generation
    }

    /// Clears the message if `generation` is that of the latest `show`.
    pub fn clear(&mut self, generation: u64) -> (cleared: bool)
        ensures
            (final(self)@, cleared) == clear_spec(old(self)@, generation),
    {
        if self.generation != generation || self.message.is_none() {
            return false;
        }
        self.message = None;
        true
    }
}

/// A timer started for an older message never clears a newer one: after two
/// `show` calls, the first generation does not clear and the second does.
pub proof fn lemma_stale_generation_keeps_message(v: ToastView, m1: Seq<char>, m2: Seq<char>)
    ensures
        ({
            let (v1, g1) = show_spec(v, m1);
            let (v2, g2) = show_spec(v1, m2);
            &&& !clear_spec(v2, g1).1
            &&& clear_spec(v2, g1).0 == v2
            &&& clear_spec(v2, g2).1
            &&& clear_spec(v2, g2).0.message is None
        }),
{
}

/// A message is cleared at most once: a second `clear` with the same
/// generation reports nothing.
pub proof fn lemma_clear_once(v: ToastView, g: u64)
    ensures
        !clear_spec(clear_spec(v, g).0, g).1,
{
}

// ------------------------------------------------------------ list selection

/// `i` is the first place `id` stands in `ids`.
pub open spec fn first_at(ids: Seq<u128>, id: u128, i: int) -> bool {
    &&& 0 <= i < ids.len()
    &&& ids[i] == id
    &&& forall|j: int| 0 <= j < i ==> ids[j] != id
}

/// Where a move starts: the selected document's first place in the list,
/// or the top when nothing listed is selected.
pub open spec fn start_index(ids: Seq<u128>, selected: Option<u128>) -> int {
    match selected {
        Some(id) => if exists|i: int| first_at(ids, id, i) {
            choose|i: int| first_at(ids, id, i)
        } else {
            0
        },
        None => 0,
    }
}

/// `i` held to `0 ..= len - 1`.
pub open spec fn clamp_index(i: int, len: int) -> int {
    if i < 0 {
        0
    } else if i > len - 1 {
        len - 1
    } else {
        i
    }
}

fn position_of(ids: &[u128], id: u128) -> (r: Option<usize>)
    ensures
        match r {
            Some(i) => first_at(ids@, id, i as int),
            None => forall|j: int| 0 <= j < ids@.len() ==> ids@[j] != id,
        },
{
    let mut i: usize = 0;
    while i < ids.len()
        invariant
            i <= ids@.len(),
            forall|j: int| 0 <= j < i ==> ids@[j] != id,
        decreases ids@.len() - i,
    {
        if ids[i] == id {
            return Some(i);
        }
        i += 1;
    }
    None
}

/// The document a move by `delta` rows selects in the visible list: from the
/// selected one (or the top), held to the list's ends; nothing in an empty
/// list.
pub fn select_delta(visible: &[u128], selected: Option<u128>, delta: isize) -> (next: Option<u128>)
    ensures
        visible@.len() == 0 ==> next is None,
        visible@.len() > 0 ==> next == Some(
            visible@[clamp_index(start_index(visible@, selected) + delta, visible@.len() as int)],
        ),
{
    if visible.len() == 0 {
        return None;
    }
    let idx: usize = match selected {
        Some(id) => match position_of(visible, id) {
            Some(i) => {
                proof {
                    let c = choose|k: int| first_at(visible@, id, k);
                    assert(first_at(visible@, id, i as int));
                    if c < i {
                        assert(visible@[c] == id);
                    }
                    if i < c {
                        assert(visible@[i as int] == id);
                    }
                }
                i
            },
            None => {
                assert(!exists|k: int| first_at(visible@, id, k));
                0
            },
        },
        None => 0,
    };
    assert(idx as int == start_index(visible@, selected));
    let last: i128 = visible.len() as i128 - 1;
    let target: i128 = idx as i128 + delta as i128;
    let next: i128 = if target < 0 {
        0
    } else if target > last {
        last
    } else {
        target
    };
    Some(visible[next as usize])
}

// ------------------------------------------------------------ file intake

/// Whether files dropped on the window are being read.
pub struct FileIntakeSession {
    pub loading: bool,
}

impl FileIntakeSession {
    pub fn new() -> (s: Self)
        ensures
            !s.loading,
    {
        FileIntakeSession { loading: false }
    }
}

} // verus!
