//! Navigation state of the dashboard: the active tab, the selected process
//! and the visible windows of the process table and of the timeline.
use vstd::prelude::*;
use crate::process::ProcessSortMode;

verus! {

/// The three views of the dashboard.
#[derive(Debug, Clone, Copy, PartialEq, Eq, Structural)]
pub enum ActiveTab {
    Telemetry,
    Battery,
    Chronicle,
}

/// The tab that follows `t` when cycling.
pub open spec fn next_tab(t: ActiveTab) -> ActiveTab {
    match t {
        ActiveTab::Telemetry => ActiveTab::Battery,
        ActiveTab::Battery => ActiveTab::Chronicle,
        ActiveTab::Chronicle => ActiveTab::Telemetry,
    }
}

/// The position of a tab in the tab bar.
pub open spec fn tab_position(t: ActiveTab) -> usize {
    match t {
        ActiveTab::Telemetry => 0,
        ActiveTab::Battery => 1,
        ActiveTab::Chronicle => 2,
    }
}

impl ActiveTab {
    /// The next tab: Telemetry, then Battery, then Chronicle, then Telemetry.
    pub fn cycled(self) -> (r: ActiveTab)
        ensures
            r == next_tab(self),
    {
        match self {
            ActiveTab::Telemetry => ActiveTab::Battery,
            ActiveTab::Battery => ActiveTab::Chronicle,
            ActiveTab::Chronicle => ActiveTab::Telemetry,
        }
    }

    /// The position of the tab in the tab bar.
    pub fn position(self) -> (r: usize)
        ensures
            r == tab_position(self),
    {
        match self {
            ActiveTab::Telemetry => 0,
            ActiveTab::Battery => 1,
            ActiveTab::Chronicle => 2,
        }
    }
}

/// Cycling three times comes back to the same tab, and each step moves one
/// place to the right in the tab bar, wrapping around.
pub proof fn lemma_cycle_returns(t: ActiveTab)
    ensures
        next_tab(next_tab(next_tab(t))) == t,
        next_tab(t) != t,
        tab_position(next_tab(t)) == (tab_position(t) + 1) % 3,
{
}

/// The selection after moving down a list of `len` items, wrapping to the top.
pub open spec fn next_index_spec(selected: usize, len: usize) -> usize {
    if len == 0 {
        selected
    } else {
        ((selected + 1) % (len as int)) as usize
    }
}

/// The selection after moving up a list of `len` items, wrapping to the bottom.
pub open spec fn prev_index_spec(selected: usize, len: usize) -> usize {
    if len == 0 {
        selected
    } else if selected == 0 {
        (len - 1) as usize
    } else {
        (selected - 1) as usize
    }
}

/// Moves the selection one item down, from the last item to the first.
pub fn next_process(selected: usize, len: usize) -> (r: usize)
    requires
        len == 0 || selected < usize::MAX,
    ensures
        r == next_index_spec(selected, len),
{
    if len > 0 {
        (selected + 1) % len
    } else {
        selected
    }
}

/// Moves the selection one item up, from the first item to the last.
pub fn prev_process(selected: usize, len: usize) -> (r: usize)
    ensures
        r == prev_index_spec(selected, len),
{
    if len > 0 {
        if selected == 0 {
            len - 1
        } else {
            selected - 1
        }
    } else {
        selected
    }
}

/// Within a non-empty list, moving down then up, or up then down, returns to
/// the same item, and the selection stays within the list.
pub proof fn lemma_next_prev_inverse(selected: usize, len: usize)
    requires
        selected < len,
    ensures
        prev_index_spec(next_index_spec(selected, len), len) == selected,
        next_index_spec(prev_index_spec(selected, len), len) == selected,
        next_index_spec(selected, len) < len,
        prev_index_spec(selected, len) < len,
{
    if selected + 1 < len {
        vstd::arithmetic::div_mod::lemma_small_mod((selected + 1) as nat, len as nat);
    } else {
        vstd::arithmetic::div_mod::lemma_mod_self_0(len as int);
    }
    if selected > 0 {
        vstd::arithmetic::div_mod::lemma_small_mod(selected as nat, len as nat);
    } else {
        vstd::arithmetic::div_mod::lemma_mod_self_0(len as int);
    }
}

/// The first row shown of a table with room for `capacity` rows, so that the
/// selected row is the last one shown once the selection leaves the first page.
pub open spec fn visible_offset_spec(selected: usize, capacity: usize) -> usize {
    if selected >= capacity {
        (selected - capacity + 1) as usize
    } else {
        0
    }
}

/// The first row shown of the process table.
pub fn visible_offset(selected: usize, capacity: usize) -> (r: usize)
    requires
        capacity >= 1,
    ensures
        r == visible_offset_spec(selected, capacity),
        r <= selected < r + capacity,
{
    if selected >= capacity {
        selected - capacity + 1
    } else {
        0
    }
}

/// The scroll position of the timeline clamped so that a full page of the
/// `len` entries stays in view.
pub open spec fn clamp_scroll_spec(len: usize, visible: usize, scroll: usize) -> usize {
    let shown = if visible <= len {
        visible
    } else {
        len
    };
    let max_scroll = (len - shown) as usize;
    if scroll <= max_scroll {
        scroll
    } else {
        max_scroll
    }
}

/// Clamps the timeline's scroll position to the entries there are.
pub fn clamp_scroll(len: usize, visible: usize, scroll: usize) -> (r: usize)
    ensures
        r == clamp_scroll_spec(len, visible, scroll),
        r <= scroll,
        r <= len,
        r + (if visible <= len {
            visible
        } else {
            len
        }) <= len,
{
    let max_scroll = len.saturating_sub(if visible <= len {
        visible
    } else {
        len
    });
    if scroll <= max_scroll {
        scroll
    } else {
        max_scroll
    }
}

/// A key press, as far as the dashboard tells keys apart.
#[derive(Debug, Clone, Copy, PartialEq, Eq, Structural)]
pub enum Key {
    Char(char),
    Esc,
    Enter,
    Backspace,
    Tab,
    Up,
    Down,
    Other,
}

/// The interaction state of the dashboard: the active tab, whether the
/// search field or the kill confirmation has the keyboard, and the scroll
/// position of the timeline.
#[derive(Debug, Clone, Copy, PartialEq, Eq, Structural)]
pub struct Screen {
    pub active_tab: ActiveTab,
    pub is_searching: bool,
    pub show_kill_modal: bool,
    pub scroll_offset: usize,
}

/// What the dashboard does after a key press, besides the change of state.
#[derive(Debug, Clone, Copy, PartialEq, Eq, Structural)]
pub enum KeyAction {
    Nothing,
    Quit,
    Export,
    KillSelected,
    ToggleSort,
    SetSort(ProcessSortMode),
    NextProcess,
    PrevProcess,
    SearchPush(char),
    SearchPop,
}

/// The screen with another tab active and the timeline scrolled to the top.
pub open spec fn with_tab(s: Screen, tab: ActiveTab) -> Screen {
    Screen { active_tab: tab, scroll_offset: 0, ..s }
}

/// The state after a key press while the search field is open: Esc or
/// Enter closes it, and typing or erasing scrolls the timeline to the top.
pub open spec fn search_screen(s: Screen, key: Key) -> Screen {
    match key {
        Key::Esc | Key::Enter => Screen { is_searching: false, ..s },
        Key::Backspace | Key::Char(_) => Screen { scroll_offset: 0, ..s },
        _ => s,
    }
}

/// The state after a key press while the kill confirmation is open: `y`,
/// `Y`, Enter, `n`, `N` and Esc close it.
pub open spec fn kill_screen(s: Screen, key: Key) -> Screen {
    match key {
        Key::Char('y') | Key::Char('Y') | Key::Enter | Key::Char('n') | Key::Char('N')
        | Key::Esc => Screen { show_kill_modal: false, ..s },
        _ => s,
    }
}

/// The state after a navigation key press: Tab and `1`-`3` switch tabs, `/`
/// opens the search on the Chronicle tab, `K` asks to kill on the Telemetry
/// tab, and Down/`j` and Up/`k` scroll the timeline on the Chronicle tab.
pub open spec fn nav_screen(s: Screen, key: Key) -> Screen {
    match key {
        Key::Tab => with_tab(s, next_tab(s.active_tab)),
        Key::Char('1') => with_tab(s, ActiveTab::Telemetry),
        Key::Char('2') => with_tab(s, ActiveTab::Battery),
        Key::Char('3') => with_tab(s, ActiveTab::Chronicle),
        Key::Char('/') => if s.active_tab == ActiveTab::Chronicle {
            Screen { is_searching: true, ..s }
        } else {
            s
        },
        Key::Char('K') => if s.active_tab == ActiveTab::Telemetry {
            Screen { show_kill_modal: true, ..s }
        } else {
            s
        },
        Key::Down | Key::Char('j') => if s.active_tab == ActiveTab::Chronicle {
            Screen {
                scroll_offset: if s.scroll_offset < usize::MAX {
                    (s.scroll_offset + 1) as usize
                } else {
                    usize::MAX
                },
                ..s
            }
        } else {
            s
        },
        Key::Up | Key::Char('k') => if s.active_tab == ActiveTab::Chronicle {
            Screen {
                scroll_offset: if s.scroll_offset > 0 {
                    (s.scroll_offset - 1) as usize
                } else {
                    0
                },
                ..s
            }
        } else {
            s
        },
        _ => s,
    }
}

/// The state after a key press: the search field takes every key while it
/// is open, then the kill confirmation, and otherwise the key navigates.
pub open spec fn next_screen(s: Screen, key: Key) -> Screen {
    if s.is_searching {
        search_screen(s, key)
    } else if s.show_kill_modal {
        kill_screen(s, key)
    } else {
        nav_screen(s, key)
    }
}

/// The action of a key press while the search field is open: typing edits
/// the search.
pub open spec fn search_action(key: Key) -> KeyAction {
    match key {
        Key::Backspace => KeyAction::SearchPop,
        Key::Char(c) => KeyAction::SearchPush(c),
        _ => KeyAction::Nothing,
    }
}

/// The action of a key press while the kill confirmation is open: `y`, `Y`
/// or Enter confirm the kill.
pub open spec fn kill_action(key: Key) -> KeyAction {
    match key {
        Key::Char('y') | Key::Char('Y') | Key::Enter => KeyAction::KillSelected,
        _ => KeyAction::Nothing,
    }
}

/// The action of a navigation key press: `q` or Esc quit, `e` exports, `s`,
/// `c` and `m` sort the process table and Down/`j`, Up/`k` move the process
/// selection on the Telemetry tab.
pub open spec fn nav_action(s: Screen, key: Key) -> KeyAction {
    match key {
        Key::Char('q') | Key::Esc => KeyAction::Quit,
        Key::Char('e') => KeyAction::Export,
        Key::Char('s') => if s.active_tab == ActiveTab::Telemetry {
            KeyAction::ToggleSort
        } else {
            KeyAction::Nothing
        },
        Key::Char('c') => if s.active_tab == ActiveTab::Telemetry {
            KeyAction::SetSort(ProcessSortMode::Cpu)
        } else {
            KeyAction::Nothing
        },
        Key::Char('m') => if s.active_tab == ActiveTab::Telemetry {
            KeyAction::SetSort(ProcessSortMode::Ram)
        } else {
            KeyAction::Nothing
        },
        Key::Down | Key::Char('j') => if s.active_tab == ActiveTab::Telemetry {
            KeyAction::NextProcess
        } else {
            KeyAction::Nothing
        },
        Key::Up | Key::Char('k') => if s.active_tab == ActiveTab::Telemetry {
            KeyAction::PrevProcess
        } else {
            KeyAction::Nothing
        },
        _ => KeyAction::Nothing,
    }
}

/// The action of a key press, by the mode that has the keyboard.
pub open spec fn key_action(s: Screen, key: Key) -> KeyAction {
    if s.is_searching {
        search_action(key)
    } else if s.show_kill_modal {
        kill_action(key)
    } else {
        nav_action(s, key)
    }
}

fn switch_tab(screen: &mut Screen, tab: ActiveTab)
    ensures
        *final(screen) == with_tab(*old(screen), tab),
{
    screen.active_tab = tab;
    screen.scroll_offset = 0;
}

impl Screen {
    /// Moves to the next tab and scrolls the timeline to the top; the search
    /// field and the kill confirmation stay as they are.
    pub fn cycle_tab(&mut self)
        ensures
            *final(self) == cycled_screen(*old(self)),
    {
        let next = self.active_tab.cycled();
        self.active_tab = next;
        self.scroll_offset = 0;
    }
}

/// Applies a key press while the search field is open.
pub fn handle_search_key(screen: &mut Screen, key: Key) -> (action: KeyAction)
    ensures
        *final(screen) == search_screen(*old(screen), key),
        action == search_action(key),
{
    match key {
        Key::Esc | Key::Enter => {
            screen.is_searching = false;
            KeyAction::Nothing
        },
        Key::Backspace => {
            screen.scroll_offset = 0;
            KeyAction::SearchPop
        },
        Key::Char(c) => {
            screen.scroll_offset = 0;
            KeyAction::SearchPush(c)
        },
        _ => KeyAction::Nothing,
    }
}

/// Applies a key press while the kill confirmation is open.
pub fn handle_kill_modal_key(screen: &mut Screen, key: Key) -> (action: KeyAction)
    ensures
        *final(screen) == kill_screen(*old(screen), key),
        action == kill_action(key),
{
    match key {
        Key::Char('y') | Key::Char('Y') | Key::Enter => {
            screen.show_kill_modal = false;
            KeyAction::KillSelected
        },
        Key::Char('n') | Key::Char('N') | Key::Esc => {
            screen.show_kill_modal = false;
            KeyAction::Nothing
        },
        _ => KeyAction::Nothing,
    }
}

/// Applies a navigation key press.
pub fn handle_navigation_key(screen: &mut Screen, key: Key) -> (action: KeyAction)
    ensures
        *final(screen) == nav_screen(*old(screen), key),
        action == nav_action(*old(screen), key),
        old(screen).active_tab == ActiveTab::Telemetry && (key == Key::Up || key == Key::Char('k'))
            ==> action == KeyAction::PrevProcess,
        old(screen).active_tab == ActiveTab::Telemetry && (key == Key::Down || key == Key::Char(
            'j',
        )) ==> action == KeyAction::NextProcess,
{
    let on_telemetry = screen.active_tab == ActiveTab::Telemetry;
    let on_chronicle = screen.active_tab == ActiveTab::Chronicle;
    match key {
        Key::Char('q') | Key::Esc => KeyAction::Quit,
        Key::Tab => {
            screen.cycle_tab();
            KeyAction::Nothing
        },
        Key::Char('1') => {
            switch_tab(screen, ActiveTab::Telemetry);
            KeyAction::Nothing
        },
        Key::Char('2') => {
            switch_tab(screen, ActiveTab::Battery);
            KeyAction::Nothing
        },
        Key::Char('3') => {
            switch_tab(screen, ActiveTab::Chronicle);
            KeyAction::Nothing
        },
        Key::Char('e') => KeyAction::Export,
        Key::Char('/') => {
            if on_chronicle {
                screen.is_searching = true;
            }
            KeyAction::Nothing
        },
        Key::Char('K') => {
            if on_telemetry {
                screen.show_kill_modal = true;
            }
            KeyAction::Nothing
        },
        Key::Char('s') => if on_telemetry {
            KeyAction::ToggleSort
        } else {
            KeyAction::Nothing
        },
        Key::Char('c') => if on_telemetry {
            KeyAction::SetSort(ProcessSortMode::Cpu)
        } else {
            KeyAction::Nothing
        },
        Key::Char('m') => if on_telemetry {
            KeyAction::SetSort(ProcessSortMode::Ram)
        } else {
            KeyAction::Nothing
        },
        Key::Down | Key::Char('j') => {
            if on_telemetry {
                KeyAction::NextProcess
            } else {
                if on_chronicle {
                    screen.scroll_offset = screen.scroll_offset.saturating_add(1);
                }
                KeyAction::Nothing
            }
        },
        Key::Up | Key::Char('k') => {
            if on_telemetry {
                KeyAction::PrevProcess
            } else {
                if on_chronicle {
                    screen.scroll_offset = screen.scroll_offset.saturating_sub(1);
                }
                KeyAction::Nothing
            }
        },
        _ => KeyAction::Nothing,
    }
}

/// Applies a key press to the dashboard state and returns what else to do.
pub fn handle_key(screen: &mut Screen, key: Key) -> (action: KeyAction)
    ensures
        *final(screen) == next_screen(*old(screen), key),
        action == key_action(*old(screen), key),
        !old(screen).is_searching && !old(screen).show_kill_modal && old(screen).active_tab
            == ActiveTab::Telemetry ==> ((key == Key::Up || key == Key::Char('k')) ==> action
            == KeyAction::PrevProcess) && ((key == Key::Down || key == Key::Char('j')) ==> action
            == KeyAction::NextProcess),
{
    if screen.is_searching {
        handle_search_key(screen, key)
    } else if screen.show_kill_modal {
        handle_kill_modal_key(screen, key)
    } else {
        handle_navigation_key(screen, key)
    }
}

/// The screen after the tab is cycled once.
pub open spec fn cycled_screen(s: Screen) -> Screen {
    with_tab(s, next_tab(s.active_tab))
}

/// The screen with the search field opened where the tab allows it.
pub open spec fn search_opened(s: Screen) -> Screen {
    Screen { is_searching: s.is_searching || s.active_tab == ActiveTab::Chronicle, ..s }
}

/// The screen with the kill confirmation opened where the tab allows it.
pub open spec fn kill_opened(s: Screen) -> Screen {
    Screen { show_kill_modal: s.show_kill_modal || s.active_tab == ActiveTab::Telemetry, ..s }
}

/// Cycling the tab three times, whatever mode is open, brings back the same
/// screen with the timeline scrolled to the top.
pub proof fn lemma_three_cycles_restore(s: Screen)
    ensures
        cycled_screen(cycled_screen(cycled_screen(s))) == with_tab(s, s.active_tab),
{
}

/// On the Telemetry tab, with neither the search nor the kill confirmation
/// open, Up and `k` move the process selection up and Down and `j` move it
/// down, without changing the screen; on the Chronicle tab the same keys
/// scroll the timeline instead and leave the selection alone.
pub proof fn lemma_selection_keys(s: Screen)
    requires
        !s.is_searching,
        !s.show_kill_modal,
    ensures
        s.active_tab == ActiveTab::Telemetry ==> key_action(s, Key::Up) == KeyAction::PrevProcess
            && key_action(s, Key::Char('k')) == KeyAction::PrevProcess && key_action(s, Key::Down)
            == KeyAction::NextProcess && key_action(s, Key::Char('j')) == KeyAction::NextProcess
            && next_screen(s, Key::Up) == s && next_screen(s, Key::Down) == s,
        s.active_tab == ActiveTab::Chronicle ==> key_action(s, Key::Up) == KeyAction::Nothing
            && key_action(s, Key::Down) == KeyAction::Nothing && next_screen(s, Key::Down).scroll_offset
            >= s.scroll_offset && next_screen(s, Key::Up).scroll_offset <= s.scroll_offset,
{
}

/// A navigation key quits exactly when it is `q` or Esc, and then leaves the
/// screen as it was.
pub proof fn lemma_navigation_quit(s: Screen, key: Key)
    ensures
        nav_action(s, key) == KeyAction::Quit <==> (key == Key::Char('q') || key == Key::Esc),
        nav_action(s, key) == KeyAction::Quit ==> nav_screen(s, key) == s,
{
}

/// `/` opens the search only on the Chronicle tab and `K` the kill
/// confirmation only on the Telemetry tab; neither quits nor changes anything
/// else.
pub proof fn lemma_navigation_opens_modes(s: Screen)
    ensures
        nav_screen(s, Key::Char('/')) == search_opened(s),
        nav_action(s, Key::Char('/')) == KeyAction::Nothing,
        nav_screen(s, Key::Char('K')) == kill_opened(s),
        nav_action(s, Key::Char('K')) == KeyAction::Nothing,
{
}

/// Only the navigation mode quits: neither an open search nor an open kill
/// confirmation lets a key end the dashboard, and there `q` and Esc always do.
pub proof fn lemma_quit_only_from_navigation(s: Screen, key: Key)
    ensures
        key_action(s, key) == KeyAction::Quit <==> (!s.is_searching && !s.show_kill_modal && (
        key == Key::Char('q') || key == Key::Esc)),
{
}

/// The search opens only on the Chronicle tab and the kill confirmation only
/// on the Telemetry tab; a key never opens both.
pub proof fn lemma_modes_tied_to_tabs(s: Screen, key: Key)
    requires
        !s.is_searching,
        !s.show_kill_modal,
    ensures
        next_screen(s, key).is_searching ==> s.active_tab == ActiveTab::Chronicle,
        next_screen(s, key).show_kill_modal ==> s.active_tab == ActiveTab::Telemetry,
        !(next_screen(s, key).is_searching && next_screen(s, key).show_kill_modal),
{
}

} // verus!
