use crate::cli::attach::{KeyCode, KeyPress};
use crate::daemon::session::SessionId;
use crate::protocol::types::SessionInfo;
use crate::text::{chars_of, push_char, string_of};
use vstd::prelude::*;
use vstd::slice::slice_subrange;

verus! {

/// What typed text goes to, if anything.
#[derive(Debug, Clone, Copy, PartialEq, Eq, Structural)]
pub enum InputMode {
    Normal,
    Rename,
    Send,
}

/// The state of the interactive session browser.
pub struct App {
    pub sessions: Vec<SessionInfo>,
    pub selected: usize,
    pub should_quit: bool,
    pub preview_raw: String,
    pub input_mode: InputMode,
    pub input_buffer: String,
    pub hide_snagged: bool,
}

/// The sessions shown: all of them, or, when taken-over sessions are
/// hidden, those nobody has taken over.
pub open spec fn visible(ss: Seq<SessionInfo>, hide_snagged: bool) -> Seq<SessionInfo>
    decreases ss.len(),
{
    if ss.len() == 0 {
        Seq::empty()
    } else {
        let v = visible(ss.drop_last(), hide_snagged);
        if !hide_snagged || ss.last().snagged_by is None {
            v.push(ss.last())
        } else {
            v
        }
    }
}

/// The selection after moving down from `s` in a list of `n`: the next
/// one, from the last back to the first.
pub open spec fn next_index(s: int, n: int) -> int {
    if n > 0 {
        (s + 1) % n
    } else {
        s
    }
}

/// The selection after moving up from `s` in a list of `n`: the one
/// before, from the first round to the last.
pub open spec fn prev_index(s: int, n: int) -> int {
    if n > 0 {
        if s > 0 {
            s - 1
        } else {
            n - 1
        }
    } else {
        s
    }
}

/// Moving down then up, or up then down, comes back to the same session.
pub proof fn lemma_selection_moves_undo(s: int, n: int)
    requires
        0 <= s < n,
    ensures
        prev_index(next_index(s, n), n) == s,
        next_index(prev_index(s, n), n) == s,
        0 <= next_index(s, n) < n,
        0 <= prev_index(s, n) < n,
{
    if s + 1 < n {
        assert((s + 1) % n == s + 1) by {
            vstd::arithmetic::div_mod::lemma_small_mod((s + 1) as nat, n as nat);
        }
    } else {
        assert((s + 1) % n == 0) by {
            vstd::arithmetic::div_mod::lemma_mod_self_0(n);
        }
    }
    if s > 0 {
        assert(s % n == s) by {
            vstd::arithmetic::div_mod::lemma_small_mod(s as nat, n as nat);
        }
    } else {
        assert(n % n == 0) by {
            vstd::arithmetic::div_mod::lemma_mod_self_0(n);
        }
    }
}

/// What the browser asks of the outside world after a key press.
pub enum TuiAction {
    /// Nothing.
    Nothing,
    /// Reload the preview of the selected session.
    RefreshPreview,
    /// Leave the browser for the session, and come back after detaching.
    Attach(SessionId),
    /// Spawn a new session.
    NewSession,
    /// Kill the session.
    Kill(SessionId),
    /// Rename the session.
    Rename { target: SessionId, new_name: String },
    /// Send a line of input to the session.
    Send { target: SessionId, input: String },
    /// Reload the list of sessions and the preview.
    Refresh,
}

impl App {
    /// The visible sessions, in order.
    pub open spec fn shown(&self) -> Seq<SessionInfo> {
        visible(self.sessions@, self.hide_snagged)
    }

    /// An empty browser: no session, nothing selected or typed.
    pub fn new() -> (a: Self)
        ensures
            a.sessions@.len() == 0,
            a.selected == 0,
            !a.should_quit,
            a.preview_raw@ == Seq::<char>::empty(),
            a.input_mode == InputMode::Normal,
            a.input_buffer@ == Seq::<char>::empty(),
            !a.hide_snagged,
    {
        App {
            sessions: Vec::new(),
            selected: 0,
            should_quit: false,
            preview_raw: String::new(),
            input_mode: InputMode::Normal,
            input_buffer: String::new(),
            hide_snagged: false,
        }
    }

    /// The sessions shown, filtered by the toggle that hides the ones
    /// someone has taken over.
    pub fn visible_sessions(&self) -> (r: Vec<&SessionInfo>)
        ensures
            r@.len() == self.shown().len(),
            forall|i: int| 0 <= i < r@.len() ==> *r@[i] == self.shown()[i],
    {
        let mut r: Vec<&SessionInfo> = Vec::new();
        let mut i: usize = 0;
        while i < self.sessions.len()
            invariant
                i <= self.sessions@.len(),
                r@.len() == visible(self.sessions@.take(i as int), self.hide_snagged).len(),
                forall|k: int|
                    0 <= k < r@.len() ==> *r@[k] == visible(
                        self.sessions@.take(i as int),
                        self.hide_snagged,
                    )[k],
            decreases self.sessions@.len() - i,
        {
            assert(self.sessions@.take(i + 1).drop_last() =~= self.sessions@.take(i as int));
            let s = &self.sessions[i];
            if !self.hide_snagged || s.snagged_by.is_none() {
                r.push(s);
            }
            i = i + 1;
        }
        assert(self.sessions@.take(i as int) =~= self.sessions@);
        r
    }

    /// Number of visible sessions.
    fn visible_count(&self) -> (n: usize)
        ensures
            n == self.shown().len(),
    {
        self.visible_sessions().len()
    }

    /// Moves the selection down, wrapping round.
    pub fn select_next(&mut self)
        requires
            old(self).shown().len() > 0 ==> old(self).selected < usize::MAX,
        ensures
            final(self).selected == next_index(old(self).selected as int, old(self).shown().len() as int),
            *final(self) == (App { selected: final(self).selected, ..*old(self) }),
    {
        let count = self.visible_count();
        if count > 0 {
            self.selected = (self.selected + 1) % count;
        }
    }

    /// Moves the selection up, wrapping round.
    pub fn select_prev(&mut self)
        ensures
            final(self).selected == prev_index(old(self).selected as int, old(self).shown().len() as int),
            *final(self) == (App { selected: final(self).selected, ..*old(self) }),
    {
        let count = self.visible_count();
        if count > 0 {
            self.selected = match self.selected.checked_sub(1) {
                Some(p) => p,
                None => count - 1,
            };
        }
    }

    /// The selected session, if the selection is on a visible one.
    pub fn selected_session(&self) -> (r: Option<&SessionInfo>)
        ensures
            match r {
                Some(s) => self.selected < self.shown().len() && *s == self.shown()[self.selected as int],
                None => self.selected >= self.shown().len(),
            },
    {
        let visible = self.visible_sessions();
        if self.selected < visible.len() {
            Some(visible[self.selected])
        } else {
            None
        }
    }

    /// The ID of the selected session.
    pub fn selected_id(&self) -> (r: Option<String>)
        ensures
            match r {
                Some(id) => self.selected < self.shown().len() && id@ == self.shown()[self.selected as int].id@,
                None => self.selected >= self.shown().len(),
            },
    {
        match self.selected_session() {
            Some(s) => Some(s.id.clone()),
            None => None,
        }
    }

    /// Shows or hides the sessions someone has taken over, keeping the
    /// selection within the list.
    pub fn toggle_hide_snagged(&mut self)
        ensures
            final(self).hide_snagged == !old(self).hide_snagged,
            final(self).selected == if old(self).selected >= final(self).shown().len()
                && final(self).shown().len() > 0 {
                final(self).shown().len() - 1
            } else {
                old(self).selected as int
            },
            *final(self) == (App {
                hide_snagged: final(self).hide_snagged,
                selected: final(self).selected,
                ..*old(self)
            }),
    {
        self.hide_snagged = !self.hide_snagged;
        let count = self.visible_count();
        if self.selected >= count && count > 0 {
            self.selected = count - 1;
        }
    }

    /// Starts typing for `mode`, with an empty buffer.
    pub fn enter_input_mode(&mut self, mode: InputMode)
        ensures
            final(self).input_mode == mode,
            final(self).input_buffer@ == Seq::<char>::empty(),
            *final(self) == (App {
                input_mode: final(self).input_mode,
                input_buffer: final(self).input_buffer,
                ..*old(self)
            }),
    {
        self.input_mode = mode;
        self.input_buffer = String::new();
    }

    /// Stops typing, dropping what was typed.
    pub fn cancel_input(&mut self)
        ensures
            final(self).input_mode == InputMode::Normal,
            final(self).input_buffer@ == Seq::<char>::empty(),
            *final(self) == (App {
                input_mode: final(self).input_mode,
                input_buffer: final(self).input_buffer,
                ..*old(self)
            }),
    {
        self.input_mode = InputMode::Normal;
        self.input_buffer = String::new();
    }

    /// Takes a fresh list of sessions, keeping the selection within it.
    pub fn set_sessions(&mut self, sessions: Vec<SessionInfo>)
        ensures
            final(self).sessions == sessions,
            final(self).selected == if old(self).selected >= sessions@.len() && sessions@.len() > 0 {
                sessions@.len() - 1
            } else {
                old(self).selected as int
            },
            *final(self) == (App { sessions: final(self).sessions, selected: final(self).selected, ..*old(self) }),
    {
        let n = sessions.len();
        self.sessions = sessions;
        if self.selected >= n && n > 0 {
            self.selected = n - 1;
        }
    }
}


/// `s` without its last character, if any.
pub open spec fn drop_last_char(s: Seq<char>) -> Seq<char> {
    if s.len() > 0 {
        s.drop_last()
    } else {
        s
    }
}

impl App {
    /// Handles a key press while browsing: quits on `q`, Escape or
    /// Control-C; moves the selection with the arrows, `j` and `k`; attaches
    /// on Enter; spawns on `n`; kills on `x`; starts renaming on `r` and
    /// sending on `s` (with a session selected); hides or shows taken-over
    /// sessions on `h`. Returns what must be done next.
    pub fn handle_normal_key(&mut self, key: KeyPress) -> (r: TuiAction)
        requires
            (key.code == KeyCode::Down || key.code == KeyCode::Char('j')) && old(self).shown().len() > 0
                ==> old(self).selected < usize::MAX,
        ensures
            final(self).sessions == old(self).sessions,
            match key.code {
                KeyCode::Char('q') | KeyCode::Esc => r is Nothing && *final(self) == (App {
                    should_quit: true,
                    ..*old(self)
                }),
                KeyCode::Char('c') if key.ctrl => r is Nothing && *final(self) == (App {
                    should_quit: true,
                    ..*old(self)
                }),
                KeyCode::Down | KeyCode::Char('j') => r is RefreshPreview && final(self).selected
                    == next_index(old(self).selected as int, old(self).shown().len() as int)
                    && *final(self) == (App { selected: final(self).selected, ..*old(self) }),
                KeyCode::Up | KeyCode::Char('k') => r is RefreshPreview && final(self).selected
                    == prev_index(old(self).selected as int, old(self).shown().len() as int)
                    && *final(self) == (App { selected: final(self).selected, ..*old(self) }),
                KeyCode::Enter => *final(self) == *old(self) && if old(self).selected < old(
                    self,
                ).shown().len() {
                    r matches TuiAction::Attach(id) && id@ == old(self).shown()[old(self).selected as int].id@
                } else {
                    r is Nothing
                },
                KeyCode::Char('n') => r is NewSession && *final(self) == *old(self),
                KeyCode::Char('x') => *final(self) == *old(self) && if old(self).selected < old(
                    self,
                ).shown().len() {
                    r matches TuiAction::Kill(id) && id@ == old(self).shown()[old(self).selected as int].id@
                } else {
                    r is Nothing
                },
                KeyCode::Char('r') => r is Nothing && if old(self).selected < old(self).shown().len() {
                    final(self).input_mode == InputMode::Rename && final(self).input_buffer@
                        == Seq::<char>::empty() && *final(self) == (App {
                        input_mode: final(self).input_mode,
                        input_buffer: final(self).input_buffer,
                        ..*old(self)
                    })
                } else {
                    *final(self) == *old(self)
                },
                KeyCode::Char('s') => r is Nothing && if old(self).selected < old(self).shown().len() {
                    final(self).input_mode == InputMode::Send && final(self).input_buffer@
                        == Seq::<char>::empty() && *final(self) == (App {
                        input_mode: final(self).input_mode,
                        input_buffer: final(self).input_buffer,
                        ..*old(self)
                    })
                } else {
                    *final(self) == *old(self)
                },
                KeyCode::Char('h') => r is Nothing && final(self).hide_snagged == !old(self).hide_snagged
                    && final(self).selected == if old(self).selected >= final(self).shown().len()
                    && final(self).shown().len() > 0 {
                    final(self).shown().len() - 1
                } else {
                    old(self).selected as int
                } && *final(self) == (App {
                    hide_snagged: final(self).hide_snagged,
                    selected: final(self).selected,
                    ..*old(self)
                }),
                _ => r is Nothing && *final(self) == *old(self),
            },
    {
        match key.code {
            KeyCode::Char('q') | KeyCode::Esc => {
                self.should_quit = true;
                TuiAction::Nothing
            },
            KeyCode::Char('c') if key.ctrl => {
                self.should_quit = true;
                TuiAction::Nothing
            },
            KeyCode::Down | KeyCode::Char('j') => {
                self.select_next();
                TuiAction::RefreshPreview
            },
            KeyCode::Up | KeyCode::Char('k') => {
                self.select_prev();
                TuiAction::RefreshPreview
            },
            KeyCode::Enter => match self.selected_id() {
                Some(id) => TuiAction::Attach(id),
                None => TuiAction::Nothing,
            },
            KeyCode::Char('n') => TuiAction::NewSession,
            KeyCode::Char('x') => match self.selected_id() {
                Some(id) => TuiAction::Kill(id),
                None => TuiAction::Nothing,
            },
            KeyCode::Char('r') => {
                if self.selected_session().is_some() {
                    self.enter_input_mode(InputMode::Rename);
                }
                TuiAction::Nothing
            },
            KeyCode::Char('s') => {
                if self.selected_session().is_some() {
                    self.enter_input_mode(InputMode::Send);
                }
                TuiAction::Nothing
            },
            KeyCode::Char('h') => {
                self.toggle_hide_snagged();
                TuiAction::Nothing
            },
            _ => TuiAction::Nothing,
        }
    }

    /// Handles a key press while typing: Escape cancels; Enter ends the
    /// typing and, when something was typed and a session is selected,
    /// asks for the rename or the send; Backspace deletes; other
    /// characters are typed.
    pub fn handle_input_key(&mut self, key: KeyPress) -> (r: TuiAction)
        ensures
            final(self).sessions == old(self).sessions,
            final(self).selected == old(self).selected,
            final(self).hide_snagged == old(self).hide_snagged,
            final(self).should_quit == old(self).should_quit,
            final(self).preview_raw == old(self).preview_raw,
            match key.code {
                KeyCode::Esc => r is Nothing && final(self).input_mode == InputMode::Normal
                    && final(self).input_buffer@ == Seq::<char>::empty(),
                KeyCode::Enter => {
                    &&& final(self).input_mode == InputMode::Normal
                    &&& final(self).input_buffer@ == Seq::<char>::empty()
                    &&& if old(self).input_buffer@.len() == 0 || old(self).selected >= old(
                        self,
                    ).shown().len() {
                        r is Nothing
                    } else {
                        let id = old(self).shown()[old(self).selected as int].id@;
                        match old(self).input_mode {
                            InputMode::Rename => r matches TuiAction::Rename { target, new_name }
                                && target@ == id && new_name@ == old(self).input_buffer@,
                            InputMode::Send => r matches TuiAction::Send { target, input }
                                && target@ == id && input@ == old(self).input_buffer@,
                            InputMode::Normal => r is Refresh,
                        }
                    }
                },
                KeyCode::Backspace => r is Nothing && final(self).input_mode == old(self).input_mode
                    && final(self).input_buffer@ == drop_last_char(old(self).input_buffer@),
                KeyCode::Char(c) => r is Nothing && final(self).input_mode == old(self).input_mode
                    && final(self).input_buffer@ == old(self).input_buffer@.push(c),
                _ => r is Nothing && *final(self) == *old(self),
            },
    {
        match key.code {
            KeyCode::Esc => {
                self.cancel_input();
                TuiAction::Nothing
            },
            KeyCode::Enter => {
                let typed = chars_of(self.input_buffer.as_str());
                let input = string_of(typed.as_slice());
                let mode = self.input_mode;
                self.cancel_input();
                if typed.len() == 0 {
                    return TuiAction::Nothing;
                }
                match self.selected_id() {
                    Some(id) => match mode {
                        InputMode::Rename => TuiAction::Rename { target: id, new_name: input },
                        InputMode::Send => TuiAction::Send { target: id, input },
                        InputMode::Normal => TuiAction::Refresh,
                    },
                    None => TuiAction::Nothing,
                }
            },
            KeyCode::Backspace => {
                let typed = chars_of(self.input_buffer.as_str());
                if typed.len() > 0 {
                    let kept = string_of(slice_subrange(typed.as_slice(), 0, typed.len() - 1));
                    self.input_buffer = kept;
                }
                TuiAction::Nothing
            },
            KeyCode::Char(c) => {
                push_char(&mut self.input_buffer, c);
                TuiAction::Nothing
            },
            _ => TuiAction::Nothing,
        }
    }

    /// Shows `text` (the selected session's recent output) in the preview.
    pub fn set_preview(&mut self, text: String)
        ensures
            *final(self) == (App { preview_raw: text, ..*old(self) }),
    {
        self.preview_raw = text;
    }
}

} // verus!
