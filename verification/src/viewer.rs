//! Decisions of the interactive pattern viewer: which key does what, which
//! pattern is selected, and when a pattern generation is started.

use vstd::prelude::*;

verus! {

/// A key press, as far as the viewer tells keys apart.
#[derive(Debug, Clone, Copy, PartialEq, Eq)]
pub enum Key {
    Char(char),
    Up,
    Down,
    Left,
    Right,
    Tab,
    Esc,
    Other,
}

/// What the viewer does in answer to a key.
#[derive(Debug, Clone, Copy, PartialEq, Eq)]
pub enum Action {
    Quit,
    PrevPattern,
    NextPattern,
    NextFocus,
    /// Adjust the focused setting one small step down.
    StepDown,
    /// Adjust the focused setting one small step up.
    StepUp,
    /// Adjust the focused setting one large step down.
    JumpDown,
    /// Adjust the focused setting one large step up.
    JumpUp,
    ZoomIn,
    ZoomOut,
    ResetView,
    PanUp,
    PanDown,
    PanLeft,
    PanRight,
    Nothing,
}

/// The key bindings of the viewer.
pub open spec fn binding(key: Key) -> Action {
    match key {
        Key::Esc => Action::Quit,
        Key::Up => Action::PrevPattern,
        Key::Down => Action::NextPattern,
        Key::Tab => Action::NextFocus,
        Key::Left => Action::StepDown,
        Key::Right => Action::StepUp,
        Key::Other => Action::Nothing,
        Key::Char(c) => {
            if c == 'q' {
                Action::Quit
            } else if c == 'k' {
                Action::PrevPattern
            } else if c == 'j' {
                Action::NextPattern
            } else if c == 'h' {
                Action::StepDown
            } else if c == 'l' {
                Action::StepUp
            } else if c == '[' {
                Action::JumpDown
            } else if c == ']' {
                Action::JumpUp
            } else if c == '+' || c == '=' {
                Action::ZoomIn
            } else if c == '-' || c == '_' {
                Action::ZoomOut
            } else if c == '0' || c == 'r' {
                Action::ResetView
            } else if c == 'w' {
                Action::PanUp
            } else if c == 's' {
                Action::PanDown
            } else if c == 'a' {
                Action::PanLeft
            } else if c == 'd' {
                Action::PanRight
            } else {
                Action::Nothing
            }
        },
    }
}

/// The action bound to a key.
pub fn key_action(key: Key) -> (r: Action)
    ensures
        r == binding(key),
{
    match key {
        Key::Esc => Action::Quit,
        Key::Up => Action::PrevPattern,
        Key::Down => Action::NextPattern,
        Key::Tab => Action::NextFocus,
        Key::Left => Action::StepDown,
        Key::Right => Action::StepUp,
        Key::Other => Action::Nothing,
        Key::Char(c) => {
            if c == 'q' {
                Action::Quit
            } else if c == 'k' {
                Action::PrevPattern
            } else if c == 'j' {
                Action::NextPattern
            } else if c == 'h' {
                Action::StepDown
            } else if c == 'l' {
                Action::StepUp
            } else if c == '[' {
                Action::JumpDown
            } else if c == ']' {
                Action::JumpUp
            } else if c == '+' || c == '=' {
                Action::ZoomIn
            } else if c == '-' || c == '_' {
                Action::ZoomOut
            } else if c == '0' || c == 'r' {
                Action::ResetView
            } else if c == 'w' {
                Action::PanUp
            } else if c == 's' {
                Action::PanDown
            } else if c == 'a' {
                Action::PanLeft
            } else if c == 'd' {
                Action::PanRight
            } else {
                Action::Nothing
            }
        },
    }
}

/// The selection after moving down a list of `len` patterns: the next one,
/// wrapping from the last to the first; the first when nothing is selected.
pub open spec fn next_selection(selected: Option<usize>, len: nat) -> int {
    match selected {
        Some(i) => (i + 1) % (len as int),
        None => 0,
    }
}

/// The selection after moving up: the previous one, wrapping from the first
/// to the last; the first when nothing is selected.
pub open spec fn prev_selection(selected: Option<usize>, len: nat) -> int {
    match selected {
        Some(i) => if i == 0 { len - 1 } else { i - 1 },
        None => 0,
    }
}

/// Index of the pattern selected after moving down.
pub fn next_index(selected: Option<usize>, len: usize) -> (r: usize)
    requires
        selected is Some ==> len > 0,
        selected matches Some(i) ==> i < usize::MAX,
    ensures
        r == next_selection(selected, len as nat),
{
    match selected {
        Some(i) => (i + 1) % len,
        None => 0,
    }
}

/// Index of the pattern selected after moving up.
pub fn prev_index(selected: Option<usize>, len: usize) -> (r: usize)
    requires
        selected == Some(0usize) ==> len > 0,
    ensures
        r == prev_selection(selected, len as nat),
{
    match selected {
        Some(i) => {
            if i == 0 {
                len - 1
            } else {
                i - 1
            }
        },
        None => 0,
    }
}

/// Moving down and then up a list comes back to where it started, and so
/// does moving up and then down.
pub proof fn moving_down_then_up_returns(i: usize, len: usize)
    requires
        i < len,
    ensures
        prev_selection(Some(next_selection(Some(i), len as nat) as usize), len as nat) == i,
        next_selection(Some(prev_selection(Some(i), len as nat) as usize), len as nat) == i,
{
    if i + 1 < len {
        vstd::arithmetic::div_mod::lemma_small_mod((i + 1) as nat, len as nat);
    } else {
        vstd::arithmetic::div_mod::lemma_mod_self_0(len as int);
    }
    if i == 0 {
        vstd::arithmetic::div_mod::lemma_mod_self_0(len as int);
    } else {
        vstd::arithmetic::div_mod::lemma_small_mod(i as nat, len as nat);
    }
}

/// From a selection inside a non-empty list, moving down or up stays inside it.
pub proof fn selection_stays_in_list(selected: Option<usize>, len: usize)
    requires
        len > 0,
        selected matches Some(i) ==> i < len,
    ensures
        0 <= next_selection(selected, len as nat) < len,
        0 <= prev_selection(selected, len as nat) < len,
{
}

/// The focused setting after Tab: spacing (0) and angle (1) take turns.
pub fn next_focus(focus: usize) -> (r: usize)
    requires
        focus < usize::MAX,
    ensures
        r == (focus + 1) % 2,
{
    (focus + 1) % 2
}

/// The frame of the loading spinner after `frame`: eight frames in a cycle.
pub fn next_spinner_frame(frame: usize) -> (r: usize)
    requires
        frame < usize::MAX,
    ensures
        r == (frame + 1) % 8,
{
    (frame + 1) % 8
}

/// Whether a pattern generation is running, and whether another was asked
/// for while it ran.
#[derive(Debug, Clone, Copy, PartialEq, Eq)]
pub struct GenerationState {
    pub is_loading: bool,
    pub needs_regenerate: bool,
}

/// The state after a request, and whether a generation starts: one starts
/// only when none is running; otherwise the request is remembered.
pub open spec fn after_request(s: GenerationState) -> (GenerationState, bool) {
    if s.is_loading {
        (GenerationState { is_loading: true, needs_regenerate: true }, false)
    } else {
        (GenerationState { is_loading: true, needs_regenerate: false }, true)
    }
}

/// The state after the running generation delivered its result, and whether
/// a remembered request starts now.
pub open spec fn after_finish(s: GenerationState) -> (GenerationState, bool) {
    if s.needs_regenerate {
        (GenerationState { is_loading: true, needs_regenerate: false }, true)
    } else {
        (GenerationState { is_loading: false, needs_regenerate: false }, false)
    }
}

impl GenerationState {
    /// Nothing running, nothing pending.
    pub fn new() -> (r: Self)
        ensures
            !r.is_loading,
            !r.needs_regenerate,
    {
        GenerationState { is_loading: false, needs_regenerate: false }
    }

    /// A new generation is asked for (the selection or a setting changed).
    /// Returns whether it starts now; while one is running it is deferred.
    pub fn request(&mut self) -> (start: bool)
        ensures
            (*final(self), start) == after_request(*old(self)),
    {
        if self.is_loading {
            self.needs_regenerate = true;
            return false;
        }
        self.needs_regenerate = false;
        self.is_loading = true;
        true
    }

    /// The running generation delivered its result. Returns whether a
    /// deferred one starts now.
    pub fn finish(&mut self) -> (start: bool)
        ensures
            (*final(self), start) == after_finish(*old(self)),
    {
        self.is_loading = false;
        if self.needs_regenerate {
            self.request()
        } else {
            false
        }
    }
}

/// A request made while a generation runs is not lost: when that generation
/// finishes, a new one starts; and however many requests come in meanwhile,
/// only one starts then.
pub proof fn deferred_request_starts_on_finish(s: GenerationState)
    requires
        s.is_loading,
    ensures
        !after_request(s).1,
        !after_request(after_request(s).0).1,
        after_finish(after_request(s).0).1,
        after_finish(after_request(after_request(s).0).0) == after_finish(after_request(s).0),
{
}

/// A generation starts only when none is running, and afterwards one is
/// running.
pub proof fn at_most_one_generation(s: GenerationState)
    ensures
        after_request(s).1 ==> !s.is_loading,
        after_request(s).0.is_loading,
        after_finish(s).1 ==> after_finish(s).0.is_loading,
        !after_finish(s).1 ==> !after_finish(s).0.is_loading,
{
}

} // verus!
