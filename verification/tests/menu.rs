//! The keys of the menu.

use sdrtop::hardware::DeviceOption;
use sdrtop::input::census::{net_census, CensusAction};
use sdrtop::input::menu::{
    apply_option_change, handle, requested_change, wrap, Menu, MenuEntry, MenuOutcome, MenuPane,
    MenuSection, MenuState,
};
use sdrtop::input::Key;

fn section(presets: &[(u8, &str)]) -> MenuSection {
    MenuSection {
        entries: presets
            .iter()
            .map(|(slot, preset)| MenuEntry { slot: Some(*slot), preset: preset.to_string() })
            .collect(),
    }
}

fn menu() -> Menu {
    Menu {
        sections: vec![
            section(&[(1, "command_rail"), (2, "full"), (3, "scope")]),
            section(&[(1, "lab_signal"), (2, "lab_sweep"), (4, "lab_noise")]),
            section(&[(1, "net_band"), (2, "net_census")]),
        ],
    }
}

struct Harness {
    menu: Menu,
    open: Option<MenuState>,
    options: Vec<DeviceOption>,
    has_device: bool,
}

impl Harness {
    fn new() -> Self {
        Harness {
            menu: menu(),
            open: Some(MenuState::default()),
            options: Vec::new(),
            has_device: false,
        }
    }

    fn key(&mut self, key: Key) -> MenuOutcome {
        handle(key, &self.menu, &mut self.open, &self.options, 30, self.has_device)
    }

    fn state(&self) -> MenuState {
        self.open.expect("menu is open")
    }

    fn show_options(&mut self, options: Vec<DeviceOption>) {
        self.options = options;
        self.open = Some(MenuState { pane: MenuPane::Options, ..MenuState::default() });
    }
}

fn option(id: &str, label: &str, selected: &str) -> DeviceOption {
    DeviceOption {
        id: id.into(),
        label: label.into(),
        choices: vec!["Narrow".into(), "Wide".into()],
        selected_choice: selected.into(),
        integer_range: None,
    }
}

#[test]
fn tab_walks_the_sections_then_both_panes_then_wraps() {
    let mut h = Harness::new();
    let sections = h.menu.sections.len();
    for _ in 0..sections - 1 {
        h.key(Key::Tab);
    }
    assert_eq!(h.state().pane, MenuPane::Views, "still on the last section");

    h.key(Key::Tab);
    assert_eq!(h.state().pane, MenuPane::Keys);
    h.key(Key::Tab);
    assert_eq!(h.state().pane, MenuPane::Options);
    h.key(Key::Tab);
    assert_eq!(h.state().pane, MenuPane::Views, "wraps back to the sections");
    assert_eq!(h.state().section, 0);
}

#[test]
fn options_has_nothing_to_steer() {
    let mut h = Harness::new();
    h.open = Some(MenuState { section: 1, entry: 2, pane: MenuPane::Options, scroll: 0 });
    let before = h.state();
    for key in [Key::Down, Key::Up, Key::Char('1'), Key::Enter] {
        let out = h.key(key);
        assert_eq!(h.state(), before, "{key:?} moved something");
        assert!(
            matches!(out, MenuOutcome::Continue),
            "no key in Options may load a layout"
        );
    }
}

#[test]
fn options_move_up_and_down_through_device_settings() {
    let mut h = Harness::new();
    h.show_options(vec![
        option("bandwidth", "Bandwidth", "Narrow"),
        option("mode", "Mode", "Wide"),
    ]);
    h.key(Key::Down);
    assert_eq!(h.state().scroll, 1);
    h.key(Key::Down);
    assert_eq!(h.state().scroll, 0);
    h.key(Key::Up);
    assert_eq!(h.state().scroll, 1);
}

#[test]
fn horizontal_value_keys_do_not_leave_options_when_values_exist() {
    let mut h = Harness::new();
    h.show_options(vec![option("bandwidth", "Bandwidth", "Narrow")]);
    let before = h.state();
    h.key(Key::Right);
    assert_eq!(h.state(), before);
}

#[test]
fn horizontal_keys_keep_the_old_navigation_for_empty_devices() {
    let mut h = Harness::new();
    h.open = Some(MenuState { pane: MenuPane::Options, ..MenuState::default() });
    h.key(Key::Left);
    assert_eq!(h.state().pane, MenuPane::Keys);

    h.open = Some(MenuState { pane: MenuPane::Options, ..MenuState::default() });
    h.key(Key::Right);
    assert_eq!(h.state().pane, MenuPane::Views);
    assert_eq!(h.state().section, 0);
}

#[test]
fn a_successful_change_updates_state_after_the_device_call() {
    let mut options = vec![option("bandwidth", "Bandwidth", "Narrow")];
    let request = requested_change(&options, 0, 1).unwrap();
    assert_eq!(
        (request.id.as_str(), request.choice.as_str()),
        ("bandwidth", "Wide")
    );
    assert_eq!(options[0].selected_choice, "Narrow", "not before the device took it");
    let line = apply_option_change(&mut options, &request, Ok(()));
    assert_eq!(options[0].selected_choice, "Wide");
    assert!(line.contains("Bandwidth set to Wide"));
}

#[test]
fn a_failed_change_keeps_state_and_surfaces_the_error() {
    let mut options = vec![option("bandwidth", "Bandwidth", "Narrow")];
    let request = requested_change(&options, 0, 1).unwrap();
    let line =
        apply_option_change(&mut options, &request, Err("device rejected choice".to_string()));
    assert_eq!(options[0].selected_choice, "Narrow");
    assert!(line.contains("Bandwidth error: device rejected choice"));
}

#[test]
fn a_pane_visit_does_not_disturb_the_place_in_the_list() {
    let mut h = Harness::new();
    let last = h.menu.sections.len() - 1;
    h.open = Some(MenuState { section: last, entry: 1, pane: MenuPane::Views, scroll: 0 });
    h.key(Key::Tab);
    assert_eq!(h.state().pane, MenuPane::Keys);
    assert_eq!((h.state().section, h.state().entry), (last, 1));
    h.key(Key::Tab);
    assert_eq!(h.state().pane, MenuPane::Options);
    assert_eq!((h.state().section, h.state().entry), (last, 1));
}

#[test]
fn wrap_moves_forward_and_back() {
    assert_eq!(wrap(0, 1, 4), 1);
    assert_eq!(wrap(3, 1, 4), 0, "forward off the end comes round");
    assert_eq!(wrap(1, -1, 4), 0);
    assert_eq!(wrap(0, -1, 4), 3, "back off the front comes round");
}

#[test]
fn wrap_handles_a_single_entry() {
    assert_eq!(wrap(0, 1, 1), 0);
    assert_eq!(wrap(0, -1, 1), 0);
}

#[test]
fn wrap_takes_steps_longer_than_the_ring() {
    assert_eq!(wrap(1, 9, 4), 2);
    assert_eq!(wrap(1, -9, 4), 0);
    assert_eq!(wrap(wrap(2, 1, 5), -1, 5), 2);
}

#[test]
fn a_digit_and_enter_open_a_layout_and_close_the_menu() {
    let mut h = Harness::new();
    h.open = Some(MenuState { section: 1, entry: 0, pane: MenuPane::Views, scroll: 0 });
    assert!(matches!(h.key(Key::Char('3')), MenuOutcome::Continue), "no such slot");
    match h.key(Key::Char('4')) {
        MenuOutcome::Open(name) => assert_eq!(name, "lab_noise"),
        _ => panic!("slot 4 opens nothing"),
    }
    assert!(h.open.is_none());
    assert!(matches!(h.key(Key::Tab), MenuOutcome::Continue));
    assert!(h.open.is_none(), "nothing to steer");

    h.open = Some(MenuState { section: 2, entry: 9, pane: MenuPane::Views, scroll: 0 });
    match h.key(Key::Enter) {
        MenuOutcome::Open(name) => assert_eq!(name, "net_census"),
        _ => panic!("enter opens nothing"),
    }
    h.open = Some(MenuState::default());
    assert!(matches!(h.key(Key::Char('q')), MenuOutcome::Quit));
    assert!(matches!(h.key(Key::Esc), MenuOutcome::Continue));
    assert!(h.open.is_none());
}

#[test]
fn lists_wrap_and_the_reference_stops() {
    let mut h = Harness::new();
    h.key(Key::Up);
    assert_eq!(h.state().entry, 2);
    h.key(Key::Down);
    assert_eq!(h.state().entry, 0);
    h.open = Some(MenuState { pane: MenuPane::Keys, ..MenuState::default() });
    h.key(Key::Up);
    assert_eq!(h.state().scroll, 0);
    for _ in 0..40 {
        h.key(Key::Down);
    }
    assert_eq!(h.state().scroll, 29);
    h.open = Some(MenuState { section: 0, entry: 2, pane: MenuPane::Views, scroll: 0 });
    h.key(Key::Tab);
    h.key(Key::Tab);
    assert_eq!((h.state().section, h.state().entry), (2, 1), "a shorter section");
}

#[test]
fn a_change_goes_on_from_the_present_choice() {
    let mut h = Harness::new();
    h.has_device = true;
    h.show_options(vec![option("a", "A", "Wide"), option("b", "B", "elsewhere")]);
    let choice = |out: MenuOutcome| match out {
        MenuOutcome::Change(request) => request.choice,
        _ => panic!("no change"),
    };
    assert_eq!(choice(h.key(Key::Right)), "Narrow");
    assert_eq!(choice(h.key(Key::Left)), "Narrow");
    h.key(Key::Down);
    assert_eq!(choice(h.key(Key::Enter)), "Narrow", "an unknown choice starts at an end");
    assert_eq!(choice(h.key(Key::Left)), "Wide");
    assert!(requested_change(&h.options, 2, 1).is_none());
    h.options[0].choices.clear();
    assert!(requested_change(&h.options, 0, 1).is_none());
}

#[test]
fn the_census_keys_order_and_move() {
    assert_eq!(net_census(Key::Up), CensusAction::MoveUp);
    assert_eq!(net_census(Key::Down), CensusAction::MoveDown);
    assert_eq!(net_census(Key::Char('s')), CensusAction::CycleSort);
    assert_eq!(net_census(Key::Char('r')), CensusAction::Reverse);
    assert_eq!(net_census(Key::Char('o')), CensusAction::FallThrough);
    assert_eq!(net_census(Key::Left), CensusAction::FallThrough);
}
