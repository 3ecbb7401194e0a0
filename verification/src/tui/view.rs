use crate::cli::output::{
    after_last_slash, byte_prefix, byte_prefix_of, fg_or_idle, home_view, pad_right,
    prefix_defined, push_padded, short_shell, shorten_path, shortened_path, shortening_defined,
};
use crate::protocol::types::SessionInfo;
use crate::text::{push_str, same_text};
use crate::tui::app::{App, InputMode};
use vstd::prelude::*;

verus! {

/// How a line of the session list is drawn.
#[derive(Clone, Copy, PartialEq, Eq, Structural)]
pub enum RowStyle {
    /// The selected session: highlighted.
    Selected,
    /// A session someone has taken over.
    Snagged,
    /// A session whose shell has ended: dimmed.
    Ended,
    /// Any other session.
    Plain,
}

/// How the line for session `s` is drawn.
pub fn row_style(s: &SessionInfo, selected: bool) -> (r: RowStyle)
    ensures
        r == if selected {
            RowStyle::Selected
        } else if s.snagged_by is Some {
            RowStyle::Snagged
        } else if s.state@ != "running"@ {
            RowStyle::Ended
        } else {
            RowStyle::Plain
        },
{
    if selected {
        RowStyle::Selected
    } else if s.snagged_by.is_some() {
        RowStyle::Snagged
    } else if !same_text(s.state.as_str(), "running") {
        RowStyle::Ended
    } else {
        RowStyle::Plain
    }
}

/// The text of the line for session `s` in the browser's list.
pub open spec fn row_text(s: SessionInfo, selected: bool, home: Option<Seq<char>>) -> Seq<char> {
    (if selected {
        "\u{25b8} "@
    } else {
        "  "@
    }) + byte_prefix(s.id@, 8) + "  "@ + pad_right(
        match s.name {
            Some(n) => n@,
            None => "-"@,
        },
        10,
    ) + " "@ + pad_right(after_last_slash(s.shell@), 6) + " "@ + pad_right(
        shortened_path(s.cwd@, home, 30),
        25,
    ) + " "@ + fg_or_idle(s) + (if s.registered {
        " [R]"@
    } else {
        Seq::empty()
    }) + match s.snagged_by {
        Some(by) => " \u{2190} "@ + by@,
        None => Seq::empty(),
    }
}

/// The text of the line for session `s` in the browser's list: marker,
/// short ID, name, shell, working directory, foreground process, and
/// whether it registered itself and who has taken it over.
pub fn row_text_of(s: &SessionInfo, selected: bool, home: Option<&str>) -> (r: String)
    requires
        prefix_defined(s.id@, 8),
        shortening_defined(s.cwd@, home_view(home), 30),
    ensures
        r@ == row_text(*s, selected, home_view(home)),
{
    let mut t = String::new();
    if selected {
        push_str(&mut t, "\u{25b8} ");
    } else {
        push_str(&mut t, "  ");
    }
    let id_short = byte_prefix_of(s.id.as_str(), 8);
    push_str(&mut t, id_short.as_str());
    push_str(&mut t, "  ");
    match &s.name {
        Some(n) => push_padded(&mut t, n.as_str(), 10),
        None => push_padded(&mut t, "-", 10),
    }
    push_str(&mut t, " ");
    let sh = short_shell(s.shell.as_str());
    push_padded(&mut t, sh.as_str(), 6);
    push_str(&mut t, " ");
    let cwd = shorten_path(s.cwd.as_str(), home, 30);
    push_padded(&mut t, cwd.as_str(), 25);
    push_str(&mut t, " ");
    match &s.fg_process {
        Some(f) => push_str(&mut t, f.as_str()),
        None => push_str(&mut t, "idle"),
    }
    if s.registered {
        push_str(&mut t, " [R]");
    }
    match &s.snagged_by {
        Some(by) => {
            push_str(&mut t, " \u{2190} ");
            push_str(&mut t, by.as_str());
        },
        None => {},
    }
    assert(t@ =~= row_text(*s, selected, home_view(home)));
    t
}

/// The title of the preview pane.
pub open spec fn preview_title_text(app: App) -> Seq<char> {
    if app.selected < app.shown().len() {
        let s = app.shown()[app.selected as int];
        " Preview ("@ + match s.name {
            Some(n) => n@,
            None => byte_prefix(s.id@, 8),
        } + ") "@
    } else {
        " Preview "@
    }
}

/// The title of the preview pane: names the selected session.
pub fn preview_title(app: &App) -> (r: String)
    requires
        app.selected < app.shown().len() ==> prefix_defined(app.shown()[app.selected as int].id@, 8),
    ensures
        r@ == preview_title_text(*app),
{
    let mut t = String::new();
    match app.selected_session() {
        Some(s) => {
            push_str(&mut t, " Preview (");
            match &s.name {
                Some(n) => push_str(&mut t, n.as_str()),
                None => {
                    let id_short = byte_prefix_of(s.id.as_str(), 8);
                    push_str(&mut t, id_short.as_str());
                },
            }
            push_str(&mut t, ") ");
        },
        None => push_str(&mut t, " Preview "),
    }
    t
}

/// The status bar: the keys while browsing, the text typed otherwise.
pub open spec fn status_text_of(app: App) -> Seq<char> {
    match app.input_mode {
        InputMode::Normal => " [n]ew [x]kill [r]ename [s]end [Enter]attach "@ + (if app.hide_snagged {
            "[h]show snagged"@
        } else {
            "[h]hide snagged"@
        }) + " [q]uit"@,
        InputMode::Rename => " Rename: "@ + app.input_buffer@ + "  [Enter]confirm [Esc]cancel"@,
        InputMode::Send => " Send command: "@ + app.input_buffer@ + "  [Enter]confirm [Esc]cancel"@,
    }
}

/// The status bar's text.
pub fn status_text(app: &App) -> (r: String)
    ensures
        r@ == status_text_of(*app),
{
    let mut t = String::new();
    match app.input_mode {
        InputMode::Normal => {
            push_str(&mut t, " [n]ew [x]kill [r]ename [s]end [Enter]attach ");
            if app.hide_snagged {
                push_str(&mut t, "[h]show snagged");
            } else {
                push_str(&mut t, "[h]hide snagged");
            }
            push_str(&mut t, " [q]uit");
        },
        InputMode::Rename => {
            push_str(&mut t, " Rename: ");
            push_str(&mut t, app.input_buffer.as_str());
            push_str(&mut t, "  [Enter]confirm [Esc]cancel");
        },
        InputMode::Send => {
            push_str(&mut t, " Send command: ");
            push_str(&mut t, app.input_buffer.as_str());
            push_str(&mut t, "  [Enter]confirm [Esc]cancel");
        },
    }
    t
}

/// How many lines of the preview to skip so that its last lines fill a
/// pane `height` rows tall (two of them borders).
pub fn preview_skip(total_lines: usize, height: u16) -> (r: usize)
    ensures
        r == if total_lines > (if height >= 2 { height - 2 } else { 0 }) {
            total_lines - (if height >= 2 { height - 2 } else { 0 })
        } else {
            0
        },
{
    let available = height.saturating_sub(2) as usize;
    total_lines.saturating_sub(available)
}

} // verus!
