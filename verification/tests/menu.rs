use tetris::menu::same_text;
use tetris::{Action, Config, Key, Label, Menu, Settings};

fn texts(menu: &Menu) -> Vec<&'static str> {
    menu.labels().iter().map(|label| label.get_label()).collect()
}

fn states(menu: &Menu) -> Vec<Option<bool>> {
    menu.labels()
        .iter()
        .map(|label| match label {
            Label::Button(_) => None,
            Label::Toggle { state, .. } => Some(*state),
        })
        .collect()
}

fn open_settings(menu: &mut Menu) {
    menu.handle_input(Some(Key::Down));
    assert_eq!(menu.handle_input(Some(Key::Enter)), Action::Stay);
    menu.update_menu();
}

#[test]
fn get_label_reads_both_kinds() {
    assert_eq!(Label::Button("Play").get_label(), "Play");
    assert_eq!(Label::Toggle { label: "Smooth", state: true }.get_label(), "Smooth");
}

#[test]
fn labels_compare_by_text_and_state() {
    let a = Label::Toggle { label: "Smooth", state: true };
    assert!(a.same(&Label::Toggle { label: "Smooth", state: true }));
    assert!(!a.same(&Label::Toggle { label: "Smooth", state: false }));
    assert!(!a.same(&Label::Toggle { label: "3D mode", state: true }));
    assert!(!a.same(&Label::Button("Smooth")));
    assert!(Label::Button("Back").same(&Label::Button("Back")));
    assert!(!Label::Button("Back").same(&Label::Button("Exit")));
}

#[test]
fn same_text_compares_contents() {
    assert!(same_text("", ""));
    assert!(same_text("Tetris", "Tetris"));
    assert!(!same_text("Tetris", "Tetri"));
    assert!(!same_text("Play", "Back"));
    assert!(!same_text("play", "Play"));
}

#[test]
fn config_reads_high_byte_first() {
    assert_eq!(Config::load(&[0x01, 0x02]).highscore(), 258);
    assert_eq!(Config::load(&[0, 0]).highscore(), 0);
    assert_eq!(Config::load(&[0xff, 0xff]).highscore(), 65535);
    assert_eq!(Config::load(&[0, 7, 9, 9]).highscore(), 7);
}

#[test]
fn config_writes_high_byte_first() {
    assert_eq!(Config::new(258).save(), [1, 2]);
    assert_eq!(Config::new(0).save(), [0, 0]);
    assert_eq!(Config::new(65535).save(), [255, 255]);
    assert_eq!(Config::new(0xab00).save(), [0xab, 0]);
}

#[test]
fn config_round_trip() {
    for highscore in [0u16, 1, 255, 256, 4660, 65535] {
        assert_eq!(Config::load(&Config::new(highscore).save()).highscore(), highscore);
    }
}

#[test]
fn menu_starts_on_the_main_screen() {
    let menu = Menu::new(Config::new(12));
    assert_eq!(texts(&menu), vec!["Play", "Settings", "Exit"]);
    assert_eq!(states(&menu), vec![None, None, None]);
    assert_eq!(menu.title(), "Tetris");
    assert_eq!(menu.selected(), 0);
    assert!(!menu.should_close());
    assert_eq!(menu.settings(), Settings { smooth: true, mode3d: true });
    assert_eq!(menu.config().highscore(), 12);
}

#[test]
fn selection_stops_at_both_ends() {
    let mut menu = Menu::new(Config::new(0));
    assert_eq!(menu.handle_input(Some(Key::Up)), Action::Stay);
    assert_eq!(menu.selected(), 0);
    menu.handle_input(Some(Key::Down));
    assert_eq!(menu.selected(), 1);
    menu.handle_input(Some(Key::Down));
    assert_eq!(menu.selected(), 2);
    menu.handle_input(Some(Key::Down));
    assert_eq!(menu.selected(), 2);
    menu.handle_input(Some(Key::Up));
    assert_eq!(menu.selected(), 1);
    menu.handle_input(Some(Key::Left));
    menu.handle_input(Some(Key::Other));
    menu.handle_input(None);
    assert_eq!(menu.selected(), 1);
}

#[test]
fn play_asks_for_a_game() {
    let mut menu = Menu::new(Config::new(0));
    assert_eq!(menu.handle_input(Some(Key::Enter)), Action::Play);
    assert_eq!(menu.selected(), 0);
    assert_eq!(menu.title(), "Tetris");
    assert!(!menu.should_close());
    assert_eq!(menu.enter_selected(), Action::Play);
}

#[test]
fn exit_ends_the_menu() {
    let mut menu = Menu::new(Config::new(0));
    menu.handle_input(Some(Key::Down));
    menu.handle_input(Some(Key::Down));
    assert_eq!(menu.handle_input(Some(Key::Enter)), Action::Stay);
    assert!(menu.should_close());
}

#[test]
fn settings_screen_and_back() {
    let mut menu = Menu::new(Config::new(0));
    menu.handle_input(Some(Key::Down));
    assert_eq!(menu.handle_input(Some(Key::Enter)), Action::Stay);
    // the entries stay until the menu is refreshed
    assert_eq!(menu.title(), "Settings");
    assert_eq!(menu.selected(), 0);
    assert_eq!(texts(&menu), vec!["Play", "Settings", "Exit"]);
    menu.update_menu();
    assert_eq!(texts(&menu), vec!["3D mode", "Smooth", "Back"]);
    assert_eq!(states(&menu), vec![Some(true), Some(true), None]);
    menu.handle_input(Some(Key::Down));
    menu.handle_input(Some(Key::Down));
    menu.handle_input(Some(Key::Enter));
    assert_eq!(menu.title(), "Tetris");
    assert_eq!(menu.selected(), 0);
    menu.update_menu();
    assert_eq!(texts(&menu), vec!["Play", "Settings", "Exit"]);
}

#[test]
fn toggles_flip_the_settings() {
    let mut menu = Menu::new(Config::new(0));
    open_settings(&mut menu);
    assert_eq!(menu.enter_selected(), Action::Stay);
    assert_eq!(menu.settings(), Settings { smooth: true, mode3d: false });
    assert_eq!(states(&menu), vec![Some(true), Some(true), None]);
    menu.update_menu();
    assert_eq!(states(&menu), vec![Some(false), Some(true), None]);
    menu.handle_input(Some(Key::Down));
    menu.handle_input(Some(Key::Enter));
    menu.update_menu();
    assert_eq!(menu.settings(), Settings { smooth: false, mode3d: false });
    assert_eq!(states(&menu), vec![Some(false), Some(false), None]);
    menu.handle_input(Some(Key::Enter));
    menu.update_menu();
    assert_eq!(menu.settings(), Settings { smooth: true, mode3d: false });
}

#[test]
fn pointer_selects_and_press_enters_the_selected() {
    let mut menu = Menu::new(Config::new(0));
    assert_eq!(menu.handle_mouse(2, false), Action::Stay);
    assert_eq!(menu.selected(), 2);
    assert_eq!(menu.handle_mouse(0, false), Action::Stay);
    assert_eq!(menu.selected(), 0);
    // a press enters the selected entry, not the one under the pointer
    assert_eq!(menu.handle_mouse(2, true), Action::Play);
    assert!(!menu.should_close());
    menu.handle_mouse(2, false);
    assert_eq!(menu.handle_mouse(2, true), Action::Stay);
    assert!(menu.should_close());
}

#[test]
fn close_ends_the_menu() {
    let mut menu = Menu::new(Config::new(3));
    menu.close();
    assert!(menu.should_close());
    assert_eq!(menu.selected(), 0);
    assert_eq!(menu.config().highscore(), 3);
}

#[test]
fn highlight_follows_the_selection() {
    let mut menu = Menu::new(Config::new(0));
    assert!(menu.is_highlighted(0));
    assert!(!menu.is_highlighted(1));
    menu.handle_input(Some(Key::Down));
    assert!(menu.is_highlighted(1));
    assert!(!menu.is_highlighted(0));
    assert!(!menu.is_highlighted(2));
}

#[test]
fn play_game_keeps_the_better_score() {
    let mut menu = Menu::new(Config::new(10));
    assert_eq!(menu.play_game(7).highscore(), 10);
    assert_eq!(menu.play_game(10).highscore(), 10);
    assert_eq!(menu.play_game(11).highscore(), 11);
    assert_eq!(menu.config().highscore(), 11);
    assert_eq!(menu.play_game(65535).highscore(), 65535);
}

#[test]
fn play_game_cuts_a_score_to_sixteen_bits() {
    let mut menu = Menu::new(Config::new(10));
    assert_eq!(menu.play_game(70000).highscore(), 4464);
    assert_eq!(menu.play_game(65536).highscore(), 0);
}
