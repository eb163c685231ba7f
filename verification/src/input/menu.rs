//! The keys of the menu, live only while the menu is open.
//!
//! The menu is modal: nothing falls through to another panel except the quit key.

use crate::hardware::DeviceOption;
use crate::input::Key;
use crate::input::plots;
use crate::text;
use vstd::prelude::*;

verus! {

/// What the right side of the menu shows.
#[derive(Clone, Copy, Debug, PartialEq, Eq, Structural)]
pub enum MenuPane {
    Views,
    Keys,
    Options,
}

/// Where the reader is in the menu.
#[derive(Clone, Copy, Debug, PartialEq, Eq, Structural)]
pub struct MenuState {
    pub section: usize,
    pub entry: usize,
    pub pane: MenuPane,
    pub scroll: usize,
}

impl Default for MenuState {
    fn default() -> (m: Self)
        ensures
            m == (MenuState { section: 0, entry: 0, pane: MenuPane::Views, scroll: 0 }),
    {
        MenuState { section: 0, entry: 0, pane: MenuPane::Views, scroll: 0 }
    }
}

/// One layout the menu offers, and the number key that opens it.
pub struct MenuEntry {
    pub slot: Option<u8>,
    pub preset: String,
}

/// One section of layouts.
pub struct MenuSection {
    pub entries: Vec<MenuEntry>,
}

/// The sections the menu is drawn from.
pub struct Menu {
    pub sections: Vec<MenuSection>,
}

/// A setting to change on the device, and the name the user knows it by.
pub struct OptionRequest {
    pub id: String,
    pub label: String,
    pub choice: String,
}

/// What a key of the menu asks for.
pub enum MenuOutcome {
    Continue,
    Quit,
    /// Load a layout; the menu is closed.
    Open(String),
    /// Change a setting of the device.
    Change(OptionRequest),
}

/// `i + step` on a ring of `len`.
pub open spec fn wrapped(i: int, step: int, len: int) -> int {
    (i + step) % len
}

/// `i + step` on a ring of `len`.
pub fn wrap(i: usize, step: isize, len: usize) -> (r: usize)
    requires
        0 < len,
        i + step <= usize::MAX,
        i + len <= usize::MAX,
    ensures
        r == wrapped(i as int, step as int, len as int),
        r < len,
{
    if step >= 0 {
        (i + step as usize) % len
    } else {
        let back: usize = (0 - step as i128) as usize;
        let rest: usize = back % len;
        proof {
            vstd::arithmetic::div_mod::lemma_fundamental_div_mod(back as int, len as int);
            let q = back as int / len as int;
            let sum = i + len - rest;
            assert(i + step == sum + (-(q + 1)) * len) by (nonlinear_arith)
                requires
                    sum == i + len - rest,
                    back == len * q + rest,
                    step == -back,
            ;
            vstd::arithmetic::div_mod::lemma_mod_multiples_vanish(-(q + 1), sum, len as int);
            assert(len * (-(q + 1)) == (-(q + 1)) * len) by (nonlinear_arith);
        }
        (i + len - rest) % len
    }
}

/// A step forward and a step back end where they began.
pub proof fn law_wrap_comes_back(i: int, len: int)
    requires
        0 <= i < len,
    ensures
        wrapped(wrapped(i, 1, len), -1, len) == i,
        wrapped(wrapped(i, -1, len), 1, len) == i,
{
    if i + 1 == len {
        assert(wrapped(i, 1, len) == 0) by {
            vstd::arithmetic::div_mod::lemma_mod_self_0(len);
        }
        assert((-1int) % len == len - 1) by {
            vstd::arithmetic::div_mod::lemma_fundamental_div_mod_converse(-1, len, -1, len - 1);
        }
    } else {
        vstd::arithmetic::div_mod::lemma_small_mod((i + 1) as nat, len as nat);
        vstd::arithmetic::div_mod::lemma_small_mod(i as nat, len as nat);
    }
    if i == 0 {
        assert((-1int) % len == len - 1) by {
            vstd::arithmetic::div_mod::lemma_fundamental_div_mod_converse(-1, len, -1, len - 1);
        }
        vstd::arithmetic::div_mod::lemma_mod_self_0(len);
    } else {
        vstd::arithmetic::div_mod::lemma_small_mod((i - 1) as nat, len as nat);
        vstd::arithmetic::div_mod::lemma_small_mod(i as nat, len as nat);
    }
}

impl Menu {
    /// Nothing about the menu is too large to walk around.
    pub open spec fn plausible(self) -> bool {
        &&& 2 * self.sections@.len() + 3 <= usize::MAX
        &&& forall|i: int|
            0 <= i < self.sections@.len() ==> 2 * (#[trigger] self.sections@[i]).entries@.len()
                <= usize::MAX
    }

    /// The section the reader is in, as far as there is one.
    pub open spec fn section_at(self, section: int) -> int {
        if section >= self.sections@.len() {
            self.sections@.len() - 1
        } else {
            section
        }
    }

    /// The entry the reader is at, in the section at `si`.
    pub open spec fn entry_at(self, si: int, entry: int) -> int {
        let n = self.sections@[si].entries@.len() as int;
        if entry < n {
            entry
        } else if n == 0 {
            0
        } else {
            n - 1
        }
    }

    /// The section and the entry the reader is at, or `None` for an empty menu.
    pub fn clamp(&self, section: usize, entry: usize) -> (r: Option<(usize, usize)>)
        ensures
            match r {
                Some((si, ei)) => {
                    &&& si < self.sections@.len()
                    &&& si == self.section_at(section as int)
                    &&& ei == self.entry_at(si as int, entry as int)
                },
                None => self.sections@.len() == 0,
            },
    {
        if self.sections.len() == 0 {
            return None;
        }
        let si: usize = if section >= self.sections.len() {
            self.sections.len() - 1
        } else {
            section
        };
        let n: usize = self.sections[si].entries.len();
        let ei: usize = if entry < n {
            entry
        } else if n == 0 {
            0
        } else {
            n - 1
        };
        Some((si, ei))
    }

    /// The rows of the left column: the sections, then the two panes.
    pub open spec fn rows(self) -> int {
        self.sections@.len() as int + 2
    }

    /// The row that is highlighted.
    pub open spec fn row_of(self, section: int, pane: MenuPane) -> int {
        match pane {
            MenuPane::Views => section,
            MenuPane::Keys => self.sections@.len() as int,
            MenuPane::Options => self.sections@.len() as int + 1,
        }
    }

    /// The state one row further on. A new section may be shorter than the one
    /// left; leaving for a pane keeps the place in the list.
    pub open spec fn after_row(self, state: MenuState, step: int) -> MenuState {
        if self.sections@.len() == 0 {
            state
        } else {
            let n = self.sections@.len();
            let next = wrapped(
                self.row_of(self.section_at(state.section as int), state.pane),
                step,
                self.rows(),
            );
            if next < n {
                let len = self.sections@[next].entries@.len();
                MenuState {
                    section: next as usize,
                    entry: if len == 0 {
                        0
                    } else if state.entry < len {
                        state.entry
                    } else {
                        (len - 1) as usize
                    },
                    pane: MenuPane::Views,
                    scroll: 0,
                }
            } else {
                MenuState {
                    pane: if next == n {
                        MenuPane::Keys
                    } else {
                        MenuPane::Options
                    },
                    scroll: 0,
                    ..state
                }
            }
        }
    }

    /// The state one line further down. Layouts and settings wrap around; the key
    /// reference stops at both ends.
    pub open spec fn after_down(
        self,
        state: MenuState,
        step: int,
        key_rows: int,
        options: int,
    ) -> MenuState {
        match state.pane {
            MenuPane::Views => {
                let si = self.section_at(state.section as int);
                if self.sections@.len() == 0 || self.sections@[si].entries@.len() == 0 {
                    state
                } else {
                    MenuState {
                        section: si as usize,
                        entry: wrapped(
                            self.entry_at(si, state.entry as int),
                            step,
                            self.sections@[si].entries@.len() as int,
                        ) as usize,
                        ..state
                    }
                }
            },
            MenuPane::Keys => {
                let last = if key_rows == 0 {
                    0
                } else {
                    key_rows - 1
                };
                MenuState {
                    scroll: (if step >= 0 {
                        if state.scroll + 1 < last {
                            state.scroll + 1
                        } else {
                            last
                        }
                    } else if state.scroll == 0 {
                        0
                    } else {
                        state.scroll - 1
                    }) as usize,
                    ..state
                }
            },
            MenuPane::Options => {
                if options == 0 {
                    state
                } else {
                    let at = if state.scroll < options {
                        state.scroll as int
                    } else {
                        options - 1
                    };
                    MenuState { scroll: wrapped(at, step, options) as usize, ..state }
                }
            },
        }
    }

    /// The layout in a slot of a section, from entry `k` on.
    pub open spec fn slot_from(self, si: int, slot: u8, k: int) -> Option<Seq<char>>
        decreases self.sections@[si].entries@.len() - k,
    {
        let entries = self.sections@[si].entries@;
        if k >= entries.len() {
            None
        } else if entries[k].slot == Some(slot) {
            Some(entries[k].preset@)
        } else {
            self.slot_from(si, slot, k + 1)
        }
    }

    /// Steps down the left column.
    pub fn move_row(&self, state: MenuState, step: isize) -> (r: MenuState)
        requires
            self.plausible(),
        ensures
            r == self.after_row(state, step as int),
    {
        let n: usize = self.sections.len();
        let (si, _): (usize, usize) = match self.clamp(state.section, state.entry) {
            Some(place) => place,
            None => return state,
        };
        let row: usize = match state.pane {
            MenuPane::Views => si,
            MenuPane::Keys => n,
            MenuPane::Options => n + 1,
        };
        let next: usize = wrap(row, step, n + 2);
        if next < n {
            let len: usize = self.sections[next].entries.len();
            MenuState {
                section: next,
                entry: if len == 0 {
                    0
                } else if state.entry < len {
                    state.entry
                } else {
                    len - 1
                },
                pane: MenuPane::Views,
                scroll: 0,
            }
        } else if next == n {
            MenuState { pane: MenuPane::Keys, scroll: 0, ..state }
        } else {
            MenuState { pane: MenuPane::Options, scroll: 0, ..state }
        }
    }

    /// Steps through a section's layouts, the key reference or the settings.
    pub fn move_down(&self, state: MenuState, step: isize, key_rows: usize, options: usize) -> (r:
        MenuState)
        requires
            self.plausible(),
            state.scroll < usize::MAX,
            2 * options <= usize::MAX,
        ensures
            r == self.after_down(state, step as int, key_rows as int, options as int),
    {
        match state.pane {
            MenuPane::Views => {
                let (si, ei): (usize, usize) = match self.clamp(state.section, state.entry) {
                    Some(place) => place,
                    None => return state,
                };
                let count: usize = self.sections[si].entries.len();
                if count == 0 {
                    return state;
                }
                assert(2 * self.sections@[si as int].entries@.len() <= usize::MAX);
                MenuState { section: si, entry: wrap(ei, step, count), ..state }
            },
            MenuPane::Keys => {
                let last: usize = if key_rows == 0 {
                    0
                } else {
                    key_rows - 1
                };
                let next: usize = if step >= 0 {
                    if state.scroll + 1 < last {
                        state.scroll + 1
                    } else {
                        last
                    }
                } else if state.scroll == 0 {
                    0
                } else {
                    state.scroll - 1
                };
                MenuState { scroll: next, ..state }
            },
            MenuPane::Options => {
                if options == 0 {
                    return state;
                }
                let at: usize = if state.scroll < options {
                    state.scroll
                } else {
                    options - 1
                };
                MenuState { scroll: wrap(at, step, options), ..state }
            },
        }
    }

    /// The layout in a slot of the section the reader is in.
    fn in_slot(&self, state: MenuState, slot: u8) -> (r: Option<String>)
        ensures
            match r {
                Some(t) => self.sections@.len() > 0 && self.slot_from(
                    self.section_at(state.section as int),
                    slot,
                    0,
                ) == Some(t@),
                None => self.sections@.len() == 0 || self.slot_from(
                    self.section_at(state.section as int),
                    slot,
                    0,
                ) is None,
            },
    {
        let (si, _): (usize, usize) = match self.clamp(state.section, state.entry) {
            Some(place) => place,
            None => return None,
        };
        let entries = &self.sections[si].entries;
        let mut k: usize = 0;
        while k < entries.len()
            invariant
                k <= entries@.len(),
                si < self.sections@.len(),
                si == self.section_at(state.section as int),
                *entries == self.sections@[si as int].entries,
                self.slot_from(si as int, slot, 0) == self.slot_from(si as int, slot, k as int),
            decreases entries@.len() - k,
        {
            if let Some(own) = entries[k].slot {
                if own == slot {
                    return Some(plots::copied_text(&entries[k].preset));
                }
            }
            k += 1;
        }
        None
    }
}

/// The choice a setting moves to: the next on its ring, or an end of the list
/// where the present choice is not in it.
pub open spec fn choice_after(option: DeviceOption, step: int) -> int {
    let at = first_choice(option, 0);
    let n = option.choices@.len() as int;
    if at < n {
        wrapped(at, step, n)
    } else if step >= 0 {
        0
    } else {
        n - 1
    }
}

/// Where the present choice stands from `k` on, or the number of choices where it
/// does not.
pub open spec fn first_choice(option: DeviceOption, k: int) -> int
    decreases option.choices@.len() - k,
{
    if k >= option.choices@.len() {
        option.choices@.len() as int
    } else if option.choices@[k]@ == option.selected_choice@ {
        k
    } else {
        first_choice(option, k + 1)
    }
}

/// Whether two texts are the same.
fn same_text(a: &String, b: &String) -> (r: bool)
    ensures
        r == (a@ == b@),
{
    let x = text::to_chars(a.as_str());
    let y = text::to_chars(b.as_str());
    text::same(x.as_slice(), y.as_slice())
}

/// The change that a key press asks of a setting.
pub fn requested_change(options: &Vec<DeviceOption>, index: usize, step: isize) -> (r: Option<
    OptionRequest,
>)
    requires
        forall|i: int|
            0 <= i < options@.len() ==> 2 * (#[trigger] options@[i]).choices@.len() <= usize::MAX,
    ensures
        match r {
            Some(q) => {
                &&& index < options@.len()
                &&& options@[index as int].choices@.len() > 0
                &&& q.id@ == options@[index as int].id@
                &&& q.label@ == options@[index as int].label@
                &&& q.choice@ == options@[index as int].choices@[choice_after(
                    options@[index as int],
                    step as int,
                )]@
            },
            None => index >= options@.len() || options@[index as int].choices@.len() == 0,
        },
{
    if index >= options.len() {
        return None;
    }
    let option = &options[index];
    let n: usize = option.choices.len();
    if n == 0 {
        return None;
    }
    assert(2 * options@[index as int].choices@.len() <= usize::MAX);
    let mut k: usize = 0;
    while k < n && !same_text(&option.choices[k], &option.selected_choice)
        invariant
            k <= n == option.choices@.len(),
            first_choice(*option, 0) == first_choice(*option, k as int),
        decreases n - k,
    {
        k += 1;
    }
    let chosen: usize = if k < n {
        wrap(k, step, n)
    } else if step >= 0 {
        0
    } else {
        n - 1
    };
    Some(
        OptionRequest {
            id: plots::copied_text(&option.id),
            label: plots::copied_text(&option.label),
            choice: plots::copied_text(&option.choices[chosen]),
        },
    )
}

/// Where a setting stands from `k` on, or the number of settings where it does
/// not.
pub open spec fn option_with(options: Seq<DeviceOption>, id: Seq<char>, k: int) -> int
    decreases options.len() - k,
{
    if k >= options.len() {
        options.len() as int
    } else if options[k].id@ == id {
        k
    } else {
        option_with(options, id, k + 1)
    }
}

/// Whether the settings differ in nothing but what one of them is set to.
pub open spec fn one_setting_changed(
    before: Seq<DeviceOption>,
    after: Seq<DeviceOption>,
    id: Seq<char>,
    choice: Seq<char>,
) -> bool {
    let at = option_with(before, id, 0);
    &&& after.len() == before.len()
    &&& forall|i: int|
        0 <= i < before.len() ==> {
            let o = #[trigger] after[i];
            &&& o.id == before[i].id
            &&& o.label == before[i].label
            &&& o.choices == before[i].choices
            &&& o.integer_range == before[i].integer_range
            &&& if i == at {
                o.selected_choice@ == choice
            } else {
                o.selected_choice == before[i].selected_choice
            }
        }
}

/// Takes the device's answer to a change: the setting changes only where the
/// device took it, and the log says either way.
pub fn apply_option_change(
    options: &mut Vec<DeviceOption>,
    request: &OptionRequest,
    answer: Result<(), String>,
) -> (line: String)
    ensures
        match answer {
            Ok(_) => {
                &&& one_setting_changed(
                    old(options)@,
                    final(options)@,
                    request.id@,
                    request.choice@,
                )
                &&& line@ == request.label@ + " set to "@ + request.choice@
            },
            Err(message) => {
                &&& *final(options) == *old(options)
                &&& line@ == request.label@ + " error: "@ + message@
            },
        },
{
    let mut t: Vec<char> = Vec::new();
    text::push_str(&mut t, request.label.as_str());
    match answer {
        Ok(_) => {
            let ghost before = options@;
            let mut k: usize = 0;
            while k < options.len() && !same_text(&options[k].id, &request.id)
                invariant
                    k <= options@.len(),
                    options@ == before,
                    option_with(before, request.id@, 0) == option_with(
                        before,
                        request.id@,
                        k as int,
                    ),
                decreases options@.len() - k,
            {
                k += 1;
            }
            if k < options.len() {
                options[k].selected_choice = plots::copied_text(&request.choice);
            }
            text::push_str(&mut t, " set to ");
            text::push_str(&mut t, request.choice.as_str());
        },
        Err(message) => {
            text::push_str(&mut t, " error: ");
            text::push_str(&mut t, message.as_str());
        },
    }
    text::from_chars(t.as_slice())
}

/// Whether a key opens the layout in a slot.
pub open spec fn slot_key(key: Key) -> Option<u8> {
    match key {
        Key::Char(c) => if '1' <= c <= '9' {
            Some((c as int - '0' as int) as u8)
        } else {
            None
        },
        _ => None,
    }
}

/// The digit of a key, where it is one of the number keys.
fn slot_of(key: Key) -> (r: Option<u8>)
    ensures
        r == slot_key(key),
{
    match key {
        Key::Char(c) => if c == '1' {
            Some(1)
        } else if c == '2' {
            Some(2)
        } else if c == '3' {
            Some(3)
        } else if c == '4' {
            Some(4)
        } else if c == '5' {
            Some(5)
        } else if c == '6' {
            Some(6)
        } else if c == '7' {
            Some(7)
        } else if c == '8' {
            Some(8)
        } else if c == '9' {
            Some(9)
        } else {
            None
        },
        _ => None,
    }
}

/// Whether an outcome is the change of a setting.
pub open spec fn changes(
    out: MenuOutcome,
    options: Seq<DeviceOption>,
    index: int,
    step: int,
    has_device: bool,
) -> bool {
    if has_device && index < options.len() && options[index].choices@.len() > 0 {
        &&& out matches MenuOutcome::Change(q)
        &&& q.id@ == options[index].id@
        &&& q.label@ == options[index].label@
        &&& q.choice@ == options[index].choices@[choice_after(options[index], step)]@
    } else {
        out == MenuOutcome::Continue
    }
}

/// Whether the menu opened a layout and closed, or did nothing because there is
/// none.
pub open spec fn opens(
    target: Option<Seq<char>>,
    state: MenuState,
    after: Option<MenuState>,
    out: MenuOutcome,
) -> bool {
    match target {
        Some(preset) => {
            &&& after is None
            &&& out matches MenuOutcome::Open(t)
            &&& t@ == preset
        },
        None => after == Some(state) && out == MenuOutcome::Continue,
    }
}

/// What a key of the menu does.
pub open spec fn menu_key(
    key: Key,
    menu: Menu,
    state: MenuState,
    after: Option<MenuState>,
    options: Seq<DeviceOption>,
    key_rows: int,
    has_device: bool,
    out: MenuOutcome,
) -> bool {
    let in_options = state.pane == MenuPane::Options;
    let steers = in_options && options.len() > 0;
    let stays = after == Some(state);
    let si = menu.section_at(state.section as int);
    if key == Key::Esc {
        after is None && out == MenuOutcome::Continue
    } else if key == Key::Char('q') {
        stays && out == MenuOutcome::Quit
    } else if key == Key::Right && steers {
        stays && changes(out, options, state.scroll as int, 1, has_device)
    } else if key == Key::Left && steers {
        stays && changes(out, options, state.scroll as int, -1, has_device)
    } else if key == Key::Tab || key == Key::Right {
        after == Some(menu.after_row(state, 1)) && out == MenuOutcome::Continue
    } else if key == Key::BackTab || key == Key::Left {
        after == Some(menu.after_row(state, -1)) && out == MenuOutcome::Continue
    } else if key == Key::Down {
        after == Some(menu.after_down(state, 1, key_rows, options.len() as int)) && out
            == MenuOutcome::Continue
    } else if key == Key::Up {
        after == Some(menu.after_down(state, -1, key_rows, options.len() as int)) && out
            == MenuOutcome::Continue
    } else if slot_key(key) is Some && state.pane == MenuPane::Views {
        opens(
            if menu.sections@.len() == 0 {
                None
            } else {
                menu.slot_from(si, slot_key(key)->0, 0)
            },
            state,
            after,
            out,
        )
    } else if key == Key::Enter && state.pane == MenuPane::Views {
        opens(
            if menu.sections@.len() == 0 || menu.sections@[si].entries@.len() == 0 {
                None
            } else {
                Some(
                    menu.sections@[si].entries@[menu.entry_at(si, state.entry as int)].preset@,
                )
            },
            state,
            after,
            out,
        )
    } else if key == Key::Enter && in_options {
        stays && changes(out, options, state.scroll as int, 1, has_device)
    } else {
        stays && out == MenuOutcome::Continue
    }
}

/// Asks for the change of a setting, where there is a device to change it on.
fn adjust_option(options: &Vec<DeviceOption>, index: usize, step: isize, has_device: bool) -> (out:
    MenuOutcome)
    requires
        forall|i: int|
            0 <= i < options@.len() ==> 2 * (#[trigger] options@[i]).choices@.len() <= usize::MAX,
    ensures
        changes(out, options@, index as int, step as int, has_device),
{
    if !has_device {
        return MenuOutcome::Continue;
    }
    match requested_change(options, index, step) {
        Some(request) => MenuOutcome::Change(request),
        None => MenuOutcome::Continue,
    }
}

/// The keys of the menu. Without a menu there is nothing to steer.
pub fn handle(
    key: Key,
    menu: &Menu,
    open: &mut Option<MenuState>,
    options: &Vec<DeviceOption>,
    key_rows: usize,
    has_device: bool,
) -> (out: MenuOutcome)
    requires
        menu.plausible(),
        2 * options@.len() <= usize::MAX,
        forall|i: int|
            0 <= i < options@.len() ==> 2 * (#[trigger] options@[i]).choices@.len() <= usize::MAX,
        *old(open) matches Some(s) ==> s.scroll < usize::MAX,
    ensures
        match *old(open) {
            None => *final(open) is None && out == MenuOutcome::Continue,
            Some(state) => menu_key(
                key,
                *menu,
                state,
                *final(open),
                options@,
                key_rows as int,
                has_device,
                out,
            ),
        },
{
    let state = match *open {
        Some(s) => s,
        None => return MenuOutcome::Continue,
    };
    let in_options = state.pane == MenuPane::Options;
    let steers = in_options && options.len() > 0;
    match key {
        Key::Esc => {
            *open = None;
            return MenuOutcome::Continue;
        },
        Key::Right => {
            if steers {
                return adjust_option(options, state.scroll, 1, has_device);
            }
            *open = Some(menu.move_row(state, 1));
            return MenuOutcome::Continue;
        },
        Key::Left => {
            if steers {
                return adjust_option(options, state.scroll, -1, has_device);
            }
            *open = Some(menu.move_row(state, -1));
            return MenuOutcome::Continue;
        },
        Key::Tab => {
            *open = Some(menu.move_row(state, 1));
            return MenuOutcome::Continue;
        },
        Key::BackTab => {
            *open = Some(menu.move_row(state, -1));
            return MenuOutcome::Continue;
        },
        Key::Down => {
            *open = Some(menu.move_down(state, 1, key_rows, options.len()));
            return MenuOutcome::Continue;
        },
        Key::Up => {
            *open = Some(menu.move_down(state, -1, key_rows, options.len()));
            return MenuOutcome::Continue;
        },
        Key::Enter => {
            if in_options {
                return adjust_option(options, state.scroll, 1, has_device);
            }
            if state.pane != MenuPane::Views {
                return MenuOutcome::Continue;
            }
            match menu.clamp(state.section, state.entry) {
                Some((si, ei)) => {
                    if menu.sections[si].entries.len() == 0 {
                        return MenuOutcome::Continue;
                    }
                    let name = plots::copied_text(&menu.sections[si].entries[ei].preset);
                    *open = None;
                    return MenuOutcome::Open(name);
                },
                None => return MenuOutcome::Continue,
            }
        },
        Key::Char(c) => {
            if c == 'q' {
                return MenuOutcome::Quit;
            }
            if state.pane == MenuPane::Views {
                if let Some(slot) = slot_of(key) {
                    if let Some(name) = menu.in_slot(state, slot) {
                        *open = None;
                        return MenuOutcome::Open(name);
                    }
                }
            }
            return MenuOutcome::Continue;
        },
        Key::Other => MenuOutcome::Continue,
    }
}

/// A visit to a pane keeps the place in the list.
pub proof fn law_a_pane_visit_keeps_the_place(menu: Menu, state: MenuState, step: int)
    requires
        menu.after_row(state, step).pane != MenuPane::Views,
    ensures
        menu.after_row(state, step).section == state.section,
        menu.after_row(state, step).entry == state.entry,
{
}

/// A setting that the device took is set to what was asked, so that the next press
/// goes on from there.
pub proof fn law_a_change_moves_on(
    before: Seq<DeviceOption>,
    after: Seq<DeviceOption>,
    at: int,
    choice: Seq<char>,
)
    requires
        0 <= at < before.len(),
        one_setting_changed(before, after, before[at].id@, choice),
        forall|i: int| 0 <= i < at ==> (#[trigger] before[i]).id@ != before[at].id@,
    ensures
        after[at].selected_choice@ == choice,
{
    lemma_first_option(before, before[at].id@, 0, at);
    assert(after[at].selected_choice@ == choice);
}

/// The first setting with an id is found.
proof fn lemma_first_option(options: Seq<DeviceOption>, id: Seq<char>, k: int, at: int)
    requires
        0 <= k <= at < options.len(),
        options[at].id@ == id,
        forall|i: int| k <= i < at ==> (#[trigger] options[i]).id@ != id,
    ensures
        option_with(options, id, k) == at,
    decreases at - k,
{
    if k < at {
        assert(options[k].id@ != id);
        lemma_first_option(options, id, k + 1, at);
    }
}

/// A step on a ring goes to the neighbour, and from either end to the other.
pub proof fn law_a_ring_goes_round(i: int, len: int)
    requires
        0 <= i < len,
    ensures
        i + 1 < len ==> wrapped(i, 1, len) == i + 1,
        i + 1 == len ==> wrapped(i, 1, len) == 0,
        i > 0 ==> wrapped(i, -1, len) == i - 1,
        i == 0 ==> wrapped(i, -1, len) == len - 1,
{
    if i + 1 < len {
        vstd::arithmetic::div_mod::lemma_small_mod((i + 1) as nat, len as nat);
    } else {
        vstd::arithmetic::div_mod::lemma_mod_self_0(len);
    }
    if i > 0 {
        vstd::arithmetic::div_mod::lemma_small_mod((i - 1) as nat, len as nat);
    } else {
        vstd::arithmetic::div_mod::lemma_fundamental_div_mod_converse(-1, len, -1, len - 1);
    }
}

/// Down the left column come the sections in order, then the keys, then the settings,
/// and then the first section again; a section that is come to is read at an entry it
/// has.
pub proof fn law_the_left_column_goes_round(menu: Menu, state: MenuState)
    requires
        0 < menu.sections@.len() <= usize::MAX,
        state.section < menu.sections@.len(),
    ensures
        ({
            let n = menu.sections@.len();
            let next = menu.after_row(state, 1);
            let back = menu.after_row(state, -1);
            &&& next.scroll == 0 && back.scroll == 0
            &&& state.pane == MenuPane::Views && state.section + 1 < n ==> next.pane
                == MenuPane::Views && next.section == state.section + 1
            &&& state.pane == MenuPane::Views && state.section + 1 == n ==> next.pane
                == MenuPane::Keys
            &&& state.pane == MenuPane::Keys ==> next.pane == MenuPane::Options
            &&& state.pane == MenuPane::Options ==> next.pane == MenuPane::Views && next.section
                == 0
            &&& state.pane == MenuPane::Views && state.section > 0 ==> back.pane
                == MenuPane::Views && back.section == state.section - 1
            &&& state.pane == MenuPane::Views && state.section == 0 ==> back.pane
                == MenuPane::Options
            &&& state.pane == MenuPane::Options ==> back.pane == MenuPane::Keys
            &&& state.pane == MenuPane::Keys ==> back.pane == MenuPane::Views && back.section == n
                - 1
            &&& next.pane == MenuPane::Views && menu.sections@[next.section as int].entries@.len()
                > 0 ==> next.entry < menu.sections@[next.section as int].entries@.len()
                && next.entry <= state.entry
        }),
{
    law_a_ring_goes_round(
        menu.row_of(menu.section_at(state.section as int), state.pane),
        menu.rows(),
    );
}

/// Down and up again comes back among the layouts and among the settings; the key
/// reference goes no further than its last line and no further back than its first.
pub proof fn law_down_and_up_comes_back(menu: Menu, state: MenuState, key_rows: int, options: int)
    requires
        state.section < menu.sections@.len() <= usize::MAX,
        menu.sections@[state.section as int].entries@.len() <= usize::MAX,
        state.entry < menu.sections@[state.section as int].entries@.len(),
        0 < key_rows <= usize::MAX,
        0 < options <= usize::MAX,
    ensures
        ({
            let down = menu.after_down(state, 1, key_rows, options);
            let back = menu.after_down(down, -1, key_rows, options);
            let up = menu.after_down(state, -1, key_rows, options);
            &&& down.pane == state.pane && down.section == state.section
            &&& state.pane == MenuPane::Views ==> back == state && down.scroll == state.scroll
                && (state.entry + 1 < menu.sections@[state.section as int].entries@.len()
                ==> down.entry == state.entry + 1)
            &&& state.pane == MenuPane::Options && state.scroll < options ==> back == state
                && down.entry == state.entry && (state.scroll + 1 < options ==> down.scroll
                == state.scroll + 1)
            &&& state.pane == MenuPane::Keys ==> down.scroll < key_rows && (state.scroll + 1
                < key_rows ==> down.scroll == state.scroll + 1 && back == state) && (state.scroll
                > 0 ==> up.scroll == state.scroll - 1) && (state.scroll == 0 ==> up == state)
        }),
{
    let n = menu.sections@[state.section as int].entries@.len() as int;
    law_a_ring_goes_round(state.entry as int, n);
    law_wrap_comes_back(state.entry as int, n);
    if state.scroll < options {
        law_a_ring_goes_round(state.scroll as int, options);
        law_wrap_comes_back(state.scroll as int, options);
    }
}

/// A number key opens the first layout of the section that has its slot, and none where
/// no layout has it.
pub proof fn law_a_slot_opens_its_layout(menu: Menu, si: int, slot: u8, k: int, i: int)
    requires
        0 <= k <= i < menu.sections@[si].entries@.len(),
        menu.sections@[si].entries@[i].slot == Some(slot),
        forall|j: int| k <= j < i ==> (#[trigger] menu.sections@[si].entries@[j]).slot != Some(slot),
    ensures
        menu.slot_from(si, slot, k) == Some(menu.sections@[si].entries@[i].preset@),
    decreases i - k,
{
    if k < i {
        assert(menu.sections@[si].entries@[k].slot != Some(slot));
        law_a_slot_opens_its_layout(menu, si, slot, k + 1, i);
    }
}

/// A slot that no layout has opens none.
pub proof fn law_an_empty_slot_opens_nothing(menu: Menu, si: int, slot: u8, k: int)
    requires
        0 <= k,
        forall|j: int|
            k <= j < menu.sections@[si].entries@.len() ==> (#[trigger] menu.sections@[si].entries@[j]).slot
                != Some(slot),
    ensures
        menu.slot_from(si, slot, k) is None,
    decreases menu.sections@[si].entries@.len() - k,
{
    if k < menu.sections@[si].entries@.len() {
        law_an_empty_slot_opens_nothing(menu, si, slot, k + 1);
    }
}

/// A setting moves to the neighbour of the choice it has, on a ring; one whose choice
/// is not in the list goes to the first, or back to the last.
pub proof fn law_a_setting_moves_to_its_neighbour(option: DeviceOption, at: int)
    requires
        0 < option.choices@.len(),
        0 <= at <= option.choices@.len(),
        at < option.choices@.len() ==> option.choices@[at]@ == option.selected_choice@,
        forall|i: int|
            0 <= i < at ==> (#[trigger] option.choices@[i])@ != option.selected_choice@,
    ensures
        ({
            let n = option.choices@.len();
            &&& at + 1 < n ==> choice_after(option, 1) == at + 1
            &&& at + 1 == n || at == n ==> choice_after(option, 1) == 0
            &&& 0 < at <= n ==> choice_after(option, -1) == at - 1
            &&& at == 0 ==> choice_after(option, -1) == n - 1
        }),
{
    lemma_first_choice(option, 0, at);
    if at < option.choices@.len() {
        law_a_ring_goes_round(at, option.choices@.len() as int);
    }
}

/// The first of the choices that is set is found.
proof fn lemma_first_choice(option: DeviceOption, k: int, at: int)
    requires
        0 <= k <= at <= option.choices@.len(),
        at < option.choices@.len() ==> option.choices@[at]@ == option.selected_choice@,
        forall|i: int|
            k <= i < at ==> (#[trigger] option.choices@[i])@ != option.selected_choice@,
    ensures
        first_choice(option, k) == at,
    decreases at - k,
{
    if k < at {
        assert(option.choices@[k]@ != option.selected_choice@);
        lemma_first_choice(option, k + 1, at);
    }
}

/// The menu is modal: it closes by escaping or by opening a layout and by nothing else,
/// only its quit key quits, and it asks a device for a change only where there is one
/// and the settings are shown.
pub proof fn law_the_menu_is_modal(
    key: Key,
    menu: Menu,
    state: MenuState,
    after: Option<MenuState>,
    options: Seq<DeviceOption>,
    key_rows: int,
    has_device: bool,
    out: MenuOutcome,
)
    requires
        menu_key(key, menu, state, after, options, key_rows, has_device, out),
    ensures
        after is None <==> key is Esc || out is Open,
        out is Quit <==> key == Key::Char('q'),
        out is Open ==> state.pane == MenuPane::Views && (key is Enter || slot_key(key) is Some),
        out is Change ==> has_device && state.pane == MenuPane::Options && state.scroll
            < options.len() && (key is Left || key is Right || key is Enter),
        !(out is Continue) && after is Some ==> after == Some(state),
{
}

} // verus!
