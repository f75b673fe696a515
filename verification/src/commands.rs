//! What the keys do: the key tables of the split view's log pane, of a selection in it, and
//! of the standalone viewer with and without a selection.

use crate::keys::{Key, KeyCode};
use crate::selection::{SelectionMode, WordMotion};
use vstd::prelude::*;

verus! {

/// A row of the view.
#[derive(Debug, Clone, Copy, PartialEq, Eq, Structural)]
pub enum ScreenPosition {
    Top,
    Middle,
    Bottom,
}

/// What a key asks for.
#[derive(Debug, Clone, Copy, PartialEq, Eq, Structural)]
pub enum Command {
    Ignore,
    Quit,
    /// Tell how to quit.
    QuitHint,
    Select(SelectionMode),
    Paste,
    /// One row down, or up.
    Row { forward: bool },
    /// Move the view by one row, keeping the cursor in place as far as possible.
    View { forward: bool },
    /// One character to the right, or to the left.
    Column { forward: bool },
    Word(WordMotion),
    Page { forward: bool },
    HalfPage { forward: bool },
    /// To the end of the row, or to its start.
    LineEdge { to_end: bool },
    /// To the end of the log, or to its start.
    FileEdge { to_end: bool },
    Screen(ScreenPosition),
    Follow,
    StopFollow,
    Reload,
    Search,
    /// Repeat the last search.
    Repeat { forward: bool },
    Help,
    /// Give the selection up.
    Cancel,
    /// Copy the selection.
    Copy,
}

// Keys that several tables share
// ------------------------------

pub open spec fn asks_page_down(key: Key) -> bool {
    key.code == KeyCode::PageDown || key.plain(' ') || key.plain('f') || key.control('f')
}

pub open spec fn asks_half_page_down(key: Key) -> bool {
    key.plain('d') || key.control('d')
}

pub open spec fn asks_half_page_up(key: Key) -> bool {
    key.plain('u') || key.control('u')
}

pub open spec fn asks_left(key: Key) -> bool {
    key.code == KeyCode::Left || key.plain('h')
}

pub open spec fn asks_right(key: Key) -> bool {
    key.code == KeyCode::Right || key.plain('l')
}

pub open spec fn asks_up(key: Key) -> bool {
    key.code == KeyCode::Up || key.plain('k')
}

pub open spec fn asks_down(key: Key) -> bool {
    key.code == KeyCode::Down || key.plain('j') || key.control('n')
}

pub open spec fn asks_start(key: Key) -> bool {
    key.code == KeyCode::Home || key.plain('g')
}

pub open spec fn asks_end(key: Key) -> bool {
    key.code == KeyCode::End || key.types('G')
}

pub open spec fn asks_copy(key: Key) -> bool {
    key.plain('y') || key.types('Y')
}

/// The motions that the log pane and a selection in the split view have in common.
pub open spec fn motion_binding(key: Key) -> Command {
    if asks_down(key) {
        Command::Row { forward: true }
    } else if asks_up(key) {
        Command::Row { forward: false }
    } else if key.control('e') {
        Command::View { forward: true }
    } else if key.control('y') {
        Command::View { forward: false }
    } else if asks_left(key) {
        Command::Column { forward: false }
    } else if asks_right(key) {
        Command::Column { forward: true }
    } else if key.plain('w') {
        Command::Word(WordMotion::ForwardStart)
    } else if key.plain('e') {
        Command::Word(WordMotion::ForwardEnd)
    } else if key.plain('b') {
        Command::Word(WordMotion::BackwardStart)
    } else if asks_page_down(key) {
        Command::Page { forward: true }
    } else if key.code == KeyCode::PageUp || key.control('b') {
        Command::Page { forward: false }
    } else if asks_half_page_down(key) {
        Command::HalfPage { forward: true }
    } else if asks_half_page_up(key) {
        Command::HalfPage { forward: false }
    } else if key.plain('0') {
        Command::LineEdge { to_end: false }
    } else if key.types('$') {
        Command::LineEdge { to_end: true }
    } else if asks_start(key) {
        Command::FileEdge { to_end: false }
    } else if asks_end(key) {
        Command::FileEdge { to_end: true }
    } else if key.types('H') {
        Command::Screen(ScreenPosition::Top)
    } else if key.types('M') {
        Command::Screen(ScreenPosition::Middle)
    } else if key.types('L') {
        Command::Screen(ScreenPosition::Bottom)
    } else {
        Command::Ignore
    }
}

/// The keys that the log pane and the standalone viewer have in common.
pub open spec fn viewer_binding(key: Key) -> Command {
    if key.plain('v') {
        Command::Select(SelectionMode::Character)
    } else if key.types('V') {
        Command::Select(SelectionMode::Line)
    } else if key.types('F') {
        Command::Follow
    } else if key.control('c') {
        Command::StopFollow
    } else if key.plain('r') {
        Command::Reload
    } else if key.plain('/') {
        Command::Search
    } else if key.plain('n') {
        Command::Repeat { forward: true }
    } else if key.types('N') {
        Command::Repeat { forward: false }
    } else if key.types('?') {
        Command::Help
    } else {
        Command::Ignore
    }
}

/// The keys of the log pane.
pub open spec fn left_binding(key: Key) -> Command {
    if key.plain('p') || (key.types('P') && (key.modifiers.none()
        || key.modifiers.only_shift())) {
        Command::Paste
    } else if key.types('q') || key.types('Q') {
        Command::QuitHint
    } else if key.code == KeyCode::Enter {
        Command::Row { forward: true }
    } else if viewer_binding(key) != Command::Ignore {
        viewer_binding(key)
    } else {
        motion_binding(key)
    }
}

/// The keys of a selection in the split view.
pub open spec fn selection_binding(key: Key) -> Command {
    if key.code == KeyCode::Esc {
        Command::Cancel
    } else if asks_copy(key) {
        Command::Copy
    } else {
        motion_binding(key)
    }
}

/// The keys of the standalone viewer.
pub open spec fn pager_binding(key: Key) -> Command {
    if key.types('q') || key.types('Q') {
        Command::Quit
    } else if key.code == KeyCode::Enter || asks_down(key) || key.control('e') {
        Command::Row { forward: true }
    } else if asks_up(key) || key.control('y') {
        Command::Row { forward: false }
    } else if asks_page_down(key) {
        Command::Page { forward: true }
    } else if key.code == KeyCode::PageUp || key.plain('b') || key.control('b') {
        Command::Page { forward: false }
    } else if asks_half_page_down(key) {
        Command::HalfPage { forward: true }
    } else if asks_half_page_up(key) {
        Command::HalfPage { forward: false }
    } else if asks_start(key) {
        Command::FileEdge { to_end: false }
    } else if asks_end(key) {
        Command::FileEdge { to_end: true }
    } else if key.plain('h') {
        Command::Help
    } else {
        viewer_binding(key)
    }
}

/// The keys of a selection in the standalone viewer.
pub open spec fn pager_selection_binding(key: Key) -> Command {
    if key.code == KeyCode::Esc {
        Command::Cancel
    } else if asks_copy(key) {
        Command::Copy
    } else if asks_down(key) || key.control('e') {
        Command::Row { forward: true }
    } else if asks_up(key) || key.control('y') {
        Command::Row { forward: false }
    } else if asks_left(key) {
        Command::Column { forward: false }
    } else if asks_right(key) {
        Command::Column { forward: true }
    } else if asks_page_down(key) {
        Command::Page { forward: true }
    } else if key.code == KeyCode::PageUp || key.plain('b') || key.control('b') {
        Command::Page { forward: false }
    } else if asks_half_page_down(key) {
        Command::HalfPage { forward: true }
    } else if asks_half_page_up(key) {
        Command::HalfPage { forward: false }
    } else if key.plain('0') {
        Command::LineEdge { to_end: false }
    } else if key.types('$') {
        Command::LineEdge { to_end: true }
    } else if asks_start(key) {
        Command::FileEdge { to_end: false }
    } else if asks_end(key) {
        Command::FileEdge { to_end: true }
    } else {
        Command::Ignore
    }
}

// The tables in code
// ------------------

fn page_down(key: Key) -> (r: bool)
    ensures
        r == asks_page_down(key),
{
    key.code == KeyCode::PageDown || key.is_plain(' ') || key.is_plain('f') || key.is_control('f')
}

fn half_page_down(key: Key) -> (r: bool)
    ensures
        r == asks_half_page_down(key),
{
    key.is_plain('d') || key.is_control('d')
}

fn half_page_up(key: Key) -> (r: bool)
    ensures
        r == asks_half_page_up(key),
{
    key.is_plain('u') || key.is_control('u')
}

fn to_the_left(key: Key) -> (r: bool)
    ensures
        r == asks_left(key),
{
    key.code == KeyCode::Left || key.is_plain('h')
}

fn to_the_right(key: Key) -> (r: bool)
    ensures
        r == asks_right(key),
{
    key.code == KeyCode::Right || key.is_plain('l')
}

fn up(key: Key) -> (r: bool)
    ensures
        r == asks_up(key),
{
    key.code == KeyCode::Up || key.is_plain('k')
}

fn down(key: Key) -> (r: bool)
    ensures
        r == asks_down(key),
{
    key.code == KeyCode::Down || key.is_plain('j') || key.is_control('n')
}

fn to_the_start(key: Key) -> (r: bool)
    ensures
        r == asks_start(key),
{
    key.code == KeyCode::Home || key.is_plain('g')
}

fn to_the_end(key: Key) -> (r: bool)
    ensures
        r == asks_end(key),
{
    key.code == KeyCode::End || key.is_char('G')
}

fn copies(key: Key) -> (r: bool)
    ensures
        r == asks_copy(key),
{
    key.is_plain('y') || key.is_char('Y')
}

fn motion_command(key: Key) -> (r: Command)
    ensures
        r == motion_binding(key),
{
    if down(key) {
        Command::Row { forward: true }
    } else if up(key) {
        Command::Row { forward: false }
    } else if key.is_control('e') {
        Command::View { forward: true }
    } else if key.is_control('y') {
        Command::View { forward: false }
    } else if to_the_left(key) {
        Command::Column { forward: false }
    } else if to_the_right(key) {
        Command::Column { forward: true }
    } else if key.is_plain('w') {
        Command::Word(WordMotion::ForwardStart)
    } else if key.is_plain('e') {
        Command::Word(WordMotion::ForwardEnd)
    } else if key.is_plain('b') {
        Command::Word(WordMotion::BackwardStart)
    } else if page_down(key) {
        Command::Page { forward: true }
    } else if key.code == KeyCode::PageUp || key.is_control('b') {
        Command::Page { forward: false }
    } else if half_page_down(key) {
        Command::HalfPage { forward: true }
    } else if half_page_up(key) {
        Command::HalfPage { forward: false }
    } else if key.is_plain('0') {
        Command::LineEdge { to_end: false }
    } else if key.is_char('$') {
        Command::LineEdge { to_end: true }
    } else if to_the_start(key) {
        Command::FileEdge { to_end: false }
    } else if to_the_end(key) {
        Command::FileEdge { to_end: true }
    } else if key.is_char('H') {
        Command::Screen(ScreenPosition::Top)
    } else if key.is_char('M') {
        Command::Screen(ScreenPosition::Middle)
    } else if key.is_char('L') {
        Command::Screen(ScreenPosition::Bottom)
    } else {
        Command::Ignore
    }
}

fn viewer_command(key: Key) -> (r: Command)
    ensures
        r == viewer_binding(key),
{
    if key.is_plain('v') {
        Command::Select(SelectionMode::Character)
    } else if key.is_char('V') {
        Command::Select(SelectionMode::Line)
    } else if key.is_char('F') {
        Command::Follow
    } else if key.is_control('c') {
        Command::StopFollow
    } else if key.is_plain('r') {
        Command::Reload
    } else if key.is_plain('/') {
        Command::Search
    } else if key.is_plain('n') {
        Command::Repeat { forward: true }
    } else if key.is_char('N') {
        Command::Repeat { forward: false }
    } else if key.is_char('?') {
        Command::Help
    } else {
        Command::Ignore
    }
}

/// What a key asks for in the log pane.
pub fn left_command(key: Key) -> (r: Command)
    ensures
        r == left_binding(key),
{
    if key.is_plain('p') || (key.is_char('P') && (key.modifiers.is_none()
        || key.modifiers.is_only_shift())) {
        return Command::Paste;
    }
    if key.is_char('q') || key.is_char('Q') {
        return Command::QuitHint;
    }
    if key.code == KeyCode::Enter {
        return Command::Row { forward: true };
    }
    let command: Command = viewer_command(key);
    if command != Command::Ignore {
        command
    } else {
        motion_command(key)
    }
}

/// What a key asks for while something is selected in the split view.
pub fn selection_command(key: Key) -> (r: Command)
    ensures
        r == selection_binding(key),
{
    if key.code == KeyCode::Esc {
        Command::Cancel
    } else if copies(key) {
        Command::Copy
    } else {
        motion_command(key)
    }
}

/// What a key asks for in the standalone viewer.
pub fn pager_command(key: Key) -> (r: Command)
    ensures
        r == pager_binding(key),
{
    if key.is_char('q') || key.is_char('Q') {
        Command::Quit
    } else if key.code == KeyCode::Enter || down(key) || key.is_control('e') {
        Command::Row { forward: true }
    } else if up(key) || key.is_control('y') {
        Command::Row { forward: false }
    } else if page_down(key) {
        Command::Page { forward: true }
    } else if key.code == KeyCode::PageUp || key.is_plain('b') || key.is_control('b') {
        Command::Page { forward: false }
    } else if half_page_down(key) {
        Command::HalfPage { forward: true }
    } else if half_page_up(key) {
        Command::HalfPage { forward: false }
    } else if to_the_start(key) {
        Command::FileEdge { to_end: false }
    } else if to_the_end(key) {
        Command::FileEdge { to_end: true }
    } else if key.is_plain('h') {
        Command::Help
    } else {
        viewer_command(key)
    }
}

/// What a key asks for while something is selected in the standalone viewer.
pub fn pager_selection_command(key: Key) -> (r: Command)
    ensures
        r == pager_selection_binding(key),
{
    if key.code == KeyCode::Esc {
        Command::Cancel
    } else if copies(key) {
        Command::Copy
    } else if down(key) || key.is_control('e') {
        Command::Row { forward: true }
    } else if up(key) || key.is_control('y') {
        Command::Row { forward: false }
    } else if to_the_left(key) {
        Command::Column { forward: false }
    } else if to_the_right(key) {
        Command::Column { forward: true }
    } else if page_down(key) {
        Command::Page { forward: true }
    } else if key.code == KeyCode::PageUp || key.is_plain('b') || key.is_control('b') {
        Command::Page { forward: false }
    } else if half_page_down(key) {
        Command::HalfPage { forward: true }
    } else if half_page_up(key) {
        Command::HalfPage { forward: false }
    } else if key.is_plain('0') {
        Command::LineEdge { to_end: false }
    } else if key.is_char('$') {
        Command::LineEdge { to_end: true }
    } else if to_the_start(key) {
        Command::FileEdge { to_end: false }
    } else if to_the_end(key) {
        Command::FileEdge { to_end: true }
    } else {
        Command::Ignore
    }
}

// Laws
// ----

/// A selection is moved by the same keys as the cursor of the log pane. The exceptions are
/// the keys with a meaning of their own: those that copy or give up the selection, and
/// enter.
pub proof fn selections_move_like_the_cursor(key: Key)
    requires
        !asks_copy(key),
        key.code != KeyCode::Esc,
        key.code != KeyCode::Enter,
    ensures
        selection_binding(key) != Command::Ignore ==> selection_binding(key) == left_binding(key),
{
}

} // verus!
