//! The menu in front of the game: two screens of three entries each, the
//! settings they change and the highscore they show.

use vstd::prelude::*;
use vstd::string::StringSliceAdditionalSpecFns;
use vstd::utf8::encode_utf8_decode_utf8;
use crate::game::Settings;
use crate::model::Key;

verus! {

/// An entry of the menu: a button, or a toggle that shows a state.
#[derive(Clone, Copy, Debug)]
pub enum Label {
    Button(&'static str),
    Toggle { label: &'static str, state: bool },
}

/// What an entry reads and, for a toggle, the state it shows.
pub struct Entry {
    pub text: Seq<char>,
    pub state: Option<bool>,
}

impl View for Label {
    type V = Entry;

    open spec fn view(&self) -> Entry {
        match self {
            Label::Button(label) => Entry { text: label@, state: None },
            Label::Toggle { label, state } => Entry { text: label@, state: Some(*state) },
        }
    }
}

impl Label {
    /// What the entry reads.
    pub fn get_label(&self) -> (label: &'static str)
        ensures
            label@ == self@.text,
    {
        match self {
            Label::Button(label) => label,
            Label::Toggle { label, .. } => label,
        }
    }

    /// Whether two entries read the same and show the same state.
    pub fn same(&self, other: &Label) -> (same: bool)
        ensures
            same == (self@ == other@),
    {
        match (self, other) {
            (Label::Button(a), Label::Button(b)) => same_text(a, b),
            (Label::Toggle { label: a, state: s }, Label::Toggle { label: b, state: t }) => {
                same_text(a, b) && *s == *t
            },
            _ => false,
        }
    }
}

/// Whether two strings hold the same characters.
pub fn same_text(a: &str, b: &str) -> (same: bool)
    ensures
        same == (a@ == b@),
{
    let x = a.as_bytes();
    let y = b.as_bytes();
    proof {
        encode_utf8_decode_utf8(a@);
        encode_utf8_decode_utf8(b@);
    }
    if x.len() != y.len() {
        return false;
    }
    let mut i: usize = 0;
    while i < x.len()
        invariant
            0 <= i <= x.len(),
            x.len() == y.len(),
            x@ == a.spec_bytes(),
            y@ == b.spec_bytes(),
            forall|j: int| 0 <= j < i ==> x[j] == y[j],
        decreases x.len() - i,
    {
        if x[i] != y[i] {
            return false;
        }
        i += 1;
    }
    assert(x@ =~= y@);
    true
}

/// What is kept between two runs of the program: the highscore.
#[derive(Clone, Copy, Debug)]
pub struct Config {
    highscore: u16,
}

impl View for Config {
    type V = u16;

    closed spec fn view(&self) -> u16 {
        self.highscore
    }
}

impl Config {
    /// A configuration with the given highscore.
    pub fn new(highscore: u16) -> (config: Config)
        ensures
            config@ == highscore,
    {
        Config { highscore }
    }

    /// Reads a configuration from the first two bytes of its record, which
    /// hold the highscore with the high byte first. Further bytes are
    /// ignored.
    pub fn load(bytes: &[u8]) -> (config: Config)
        requires
            bytes.len() >= 2,
        ensures
            config@ == bytes[0] * 256 + bytes[1],
    {
        let high: u16 = bytes[0] as u16;
        let low: u16 = bytes[1] as u16;
        Config { highscore: high * 256 + low }
    }

    /// The record of the configuration: the two bytes of the highscore,
    /// the high byte first.
    pub fn save(&self) -> (bytes: [u8; 2])
        ensures
            bytes[0] == self@ / 256,
            bytes[1] == self@ % 256,
            self@ == bytes[0] * 256 + bytes[1],
    {
        [(self.highscore / 256) as u8, (self.highscore % 256) as u8]
    }

    /// The highscore.
    pub fn highscore(&self) -> (highscore: u16)
        ensures
            highscore == self@,
    {
        self.highscore
    }
}

/// What the menu asks of the program after an event.
#[derive(Clone, Copy, PartialEq, Eq, Structural, Debug)]
pub enum Action {
    /// Nothing beyond showing the menu.
    Stay,
    /// Run a game, then report its score with `Menu::play_game`.
    Play,
}

/// What a menu holds: the settings, the index of the selected entry, the
/// entries on screen, the title of the screen, whether the program is to
/// end, and the highscore.
pub struct MenuView {
    pub settings: Settings,
    pub selected: nat,
    pub labels: Seq<Entry>,
    pub title: Seq<char>,
    pub should_close: bool,
    pub highscore: u16,
}

/// The entry of a button that reads `text`.
pub open spec fn button(text: Seq<char>) -> Entry {
    Entry { text, state: None }
}

/// The entry of a toggle that reads `text` and shows `state`.
pub open spec fn toggle(text: Seq<char>, state: bool) -> Entry {
    Entry { text, state: Some(state) }
}

impl MenuView {
    /// The number of entries on a screen.
    pub open spec fn entries() -> nat {
        3
    }

    /// A screen has its three entries, one of them selected.
    pub open spec fn wf(self) -> bool {
        self.labels.len() == Self::entries() && self.selected < Self::entries()
    }

    /// The entries of the main screen.
    pub open spec fn main_labels() -> Seq<Entry> {
        seq![button("Play"@), button("Settings"@), button("Exit"@)]
    }

    /// The entries of the settings screen, which show `settings`.
    pub open spec fn settings_labels(settings: Settings) -> Seq<Entry> {
        seq![
            toggle("3D mode"@, settings.mode3d),
            toggle("Smooth"@, settings.smooth),
            button("Back"@),
        ]
    }

    /// The menu as the program starts: the main screen with its first
    /// entry selected, and both settings on.
    pub open spec fn start(highscore: u16) -> MenuView {
        MenuView {
            settings: Settings { smooth: true, mode3d: true },
            selected: 0,
            labels: Self::main_labels(),
            title: "Tetris"@,
            should_close: false,
            highscore,
        }
    }

    /// What the selected entry reads.
    pub open spec fn selected_text(self) -> Seq<char> {
        self.labels[self.selected as int].text
    }

    /// Whether entering the selected entry asks for a game.
    pub open spec fn wants_play(self) -> bool {
        self.selected_text() == "Play"@
    }

    /// The menu after the selected entry was entered. What happens goes by
    /// what the entry reads. The entries on screen stay as they are until
    /// the menu is refreshed.
    pub open spec fn entered(self) -> MenuView {
        let text = self.selected_text();
        if text == "Play"@ {
            self
        } else if text == "Smooth"@ {
            MenuView {
                settings: Settings { smooth: !self.settings.smooth, mode3d: self.settings.mode3d },
                ..self
            }
        } else if text == "3D mode"@ {
            MenuView {
                settings: Settings { smooth: self.settings.smooth, mode3d: !self.settings.mode3d },
                ..self
            }
        } else if text == "Settings"@ {
            MenuView { selected: 0, title: "Settings"@, ..self }
        } else if text == "Back"@ {
            MenuView { selected: 0, title: "Tetris"@, ..self }
        } else if text == "Exit"@ {
            MenuView { should_close: true, ..self }
        } else {
            self
        }
    }

    /// The menu with the entries that its title and its settings call for.
    pub open spec fn refreshed(self) -> MenuView {
        if self.title == "Settings"@ {
            MenuView { labels: Self::settings_labels(self.settings), ..self }
        } else if self.title == "Tetris"@ {
            MenuView { labels: Self::main_labels(), ..self }
        } else {
            self
        }
    }

    /// The menu after `key`, if any, was pressed: `Enter` enters the
    /// selected entry, `Up` and `Down` move the selection by one entry and
    /// stop at the first and the last.
    pub open spec fn pressed(self, key: Option<Key>) -> MenuView {
        match key {
            Some(Key::Enter) => self.entered(),
            Some(Key::Up) => if self.selected > 0 {
                MenuView { selected: (self.selected - 1) as nat, ..self }
            } else {
                self
            },
            Some(Key::Down) => if self.selected < self.labels.len() - 1 {
                MenuView { selected: self.selected + 1, ..self }
            } else {
                self
            },
            _ => self,
        }
    }

    /// The menu after the pointer was found over the entry `index`: with
    /// the button pressed the selected entry is entered, whichever entry
    /// the pointer is over, and without it that entry is selected.
    pub open spec fn pointed(self, index: nat, pressed: bool) -> MenuView {
        if pressed {
            self.entered()
        } else {
            MenuView { selected: index, ..self }
        }
    }

    /// The menu after a game that cleared `lines` rows: a score above the
    /// highscore replaces it, cut to its low sixteen bits.
    pub open spec fn scored(self, lines: u32) -> MenuView {
        if lines > self.highscore {
            MenuView { highscore: (lines % 65536) as u16, ..self }
        } else {
            self
        }
    }
}

/// The menu.
pub struct Menu {
    settings: Settings,
    selected: usize,
    labels: Vec<Label>,
    title: &'static str,
    should_close: bool,
    config: Config,
}

impl View for Menu {
    type V = MenuView;

    closed spec fn view(&self) -> MenuView {
        MenuView {
            settings: self.settings,
            selected: self.selected as nat,
            labels: self.labels@.map_values(|label: Label| label@),
            title: self.title@,
            should_close: self.should_close,
            highscore: self.config@,
        }
    }
}

/// The entries of the main screen.
fn main_labels() -> (labels: Vec<Label>)
    ensures
        labels@.map_values(|label: Label| label@) == MenuView::main_labels(),
{
    let mut labels: Vec<Label> = Vec::new();
    labels.push(Label::Button("Play"));
    labels.push(Label::Button("Settings"));
    labels.push(Label::Button("Exit"));
    assert(labels@.map_values(|label: Label| label@) =~= MenuView::main_labels());
    labels
}

/// The entries of the settings screen.
fn settings_labels(settings: Settings) -> (labels: Vec<Label>)
    ensures
        labels@.map_values(|label: Label| label@) == MenuView::settings_labels(settings),
{
    let mut labels: Vec<Label> = Vec::new();
    labels.push(Label::Toggle { label: "3D mode", state: settings.mode3d });
    labels.push(Label::Toggle { label: "Smooth", state: settings.smooth });
    labels.push(Label::Button("Back"));
    assert(labels@.map_values(|label: Label| label@) =~= MenuView::settings_labels(settings));
    labels
}

impl Menu {
    /// The menu as the program starts, with the highscore of `config`.
    pub fn new(config: Config) -> (menu: Menu)
        ensures
            menu@ == MenuView::start(config@),
            menu@.wf(),
    {
        Menu {
            settings: Settings { smooth: true, mode3d: true },
            selected: 0,
            labels: main_labels(),
            title: "Tetris",
            should_close: false,
            config,
        }
    }

    /// Enters the selected entry and tells whether it asks for a game.
    pub fn enter_selected(&mut self) -> (action: Action)
        requires
            old(self)@.wf(),
        ensures
            final(self)@ == old(self)@.entered(),
            final(self)@.wf(),
            action == if old(self)@.wants_play() {
                Action::Play
            } else {
                Action::Stay
            },
    {
        let label = self.labels[self.selected].get_label();
        if same_text(label, "Play") {
            return Action::Play;
        } else if same_text(label, "Smooth") {
            self.settings.smooth = !self.settings.smooth;
        } else if same_text(label, "3D mode") {
            self.settings.mode3d = !self.settings.mode3d;
        } else if same_text(label, "Settings") {
            self.selected = 0;
            self.title = "Settings";
        } else if same_text(label, "Back") {
            self.selected = 0;
            self.title = "Tetris";
        } else if same_text(label, "Exit") {
            self.should_close = true;
        }
        Action::Stay
    }

    /// Puts on screen the entries that the title and the settings call for.
    pub fn update_menu(&mut self)
        requires
            old(self)@.wf(),
        ensures
            final(self)@ == old(self)@.refreshed(),
            final(self)@.wf(),
    {
        if same_text(self.title, "Settings") {
            self.labels = settings_labels(self.settings);
        } else if same_text(self.title, "Tetris") {
            self.labels = main_labels();
        }
    }

    /// Reacts to the key pressed in this frame, if any, and tells whether
    /// a game is asked for.
    pub fn handle_input(&mut self, key: Option<Key>) -> (action: Action)
        requires
            old(self)@.wf(),
        ensures
            final(self)@ == old(self)@.pressed(key),
            final(self)@.wf(),
            action == if key == Some(Key::Enter) && old(self)@.wants_play() {
                Action::Play
            } else {
                Action::Stay
            },
    {
        match key {
            Some(Key::Enter) => {
                return self.enter_selected();
            },
            Some(Key::Up) => {
                if self.selected > 0 {
                    self.selected -= 1;
                }
            },
            Some(Key::Down) => {
                if self.selected < self.labels.len() - 1 {
                    self.selected += 1;
                }
            },
            _ => {},
        }
        Action::Stay
    }

    /// Reacts to the pointer being over the entry `index`, with its button
    /// pressed or not, and tells whether a game is asked for.
    pub fn handle_mouse(&mut self, index: usize, pressed: bool) -> (action: Action)
        requires
            old(self)@.wf(),
            index < old(self)@.labels.len(),
        ensures
            final(self)@ == old(self)@.pointed(index as nat, pressed),
            final(self)@.wf(),
            action == if pressed && old(self)@.wants_play() {
                Action::Play
            } else {
                Action::Stay
            },
    {
        if pressed {
            self.enter_selected()
        } else {
            self.selected = index;
            Action::Stay
        }
    }

    /// Takes note that the window is to close: the menu is to end.
    pub fn close(&mut self)
        ensures
            final(self)@ == (MenuView { should_close: true, ..old(self)@ }),
    {
        self.should_close = true;
    }

    /// Takes the score of a game that has ended: a score above the
    /// highscore replaces it. Returns the configuration, which is to be
    /// saved in either case.
    pub fn play_game(&mut self, lines: u32) -> (config: Config)
        ensures
            final(self)@ == old(self)@.scored(lines),
            config@ == final(self)@.highscore,
    {
        if lines > self.config.highscore as u32 {
            self.config = Config::new((lines % 65536) as u16);
        }
        self.config
    }

    /// Whether the menu is to end.
    pub fn should_close(&self) -> (b: bool)
        ensures
            b == self@.should_close,
    {
        self.should_close
    }

    /// The settings as they stand.
    pub fn settings(&self) -> (settings: Settings)
        ensures
            settings == self@.settings,
    {
        self.settings
    }

    /// The index of the selected entry.
    pub fn selected(&self) -> (selected: usize)
        ensures
            selected == self@.selected,
    {
        self.selected
    }

    /// The entries on screen.
    pub fn labels(&self) -> (labels: &Vec<Label>)
        ensures
            labels@.map_values(|label: Label| label@) == self@.labels,
    {
        &self.labels
    }

    /// The title of the screen.
    pub fn title(&self) -> (title: &'static str)
        ensures
            title@ == self@.title,
    {
        self.title
    }

    /// The configuration.
    pub fn config(&self) -> (config: Config)
        ensures
            config@ == self@.highscore,
    {
        self.config
    }

    /// Whether the entry `index` is drawn as selected: it reads the same
    /// and shows the same state as the selected entry.
    pub fn is_highlighted(&self, index: usize) -> (b: bool)
        requires
            self@.wf(),
            index < self@.labels.len(),
        ensures
            b == (self@.labels[index as int] == self@.labels[self@.selected as int]),
    {
        self.labels[self.selected].same(&self.labels[index])
    }
}

} // verus!
