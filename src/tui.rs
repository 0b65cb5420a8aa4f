//! The state of the interactive profile list: which profile is selected, which
//! dialog is open, what the user has typed, and the message on show. A key
//! press moves the state on and names the command to run, if any; running it
//! and drawing the screen are the caller's.

use vstd::prelude::*;

verus! {

/// How long a message stays on screen, in milliseconds.
pub const MESSAGE_MILLIS: u64 = 1000;

/// The dialogs of the interactive list.
#[derive(Debug)]
pub enum PopupType {
    AddProfile,
    ConfirmDelete(String),
    ConfirmSwitch(String),
    RenameProfile(String),
    ShowProfile(String),
    Message(String),
}

/// A key press, as far as the list tells keys apart.
#[derive(Debug, PartialEq, Eq, Structural, Clone, Copy)]
pub enum Key {
    Up,
    Down,
    Left,
    Right,
    Enter,
    Esc,
    Backspace,
    Char(char),
    Other,
}

/// A command that a key press asks for.
#[derive(Debug)]
pub enum Action {
    Nothing,
    /// Add a profile of this name through the add prompts.
    Add(String),
    Remove(String),
    Switch(String),
    Rename { from: String, to: String },
    Launch,
}

/// The state of the interactive list.
pub struct App {
    pub profiles: Vec<String>,
    pub current_profile: Option<String>,
    pub selected_profile: usize,
    pub should_quit: bool,
    pub show_popup: Option<PopupType>,
    pub input_buffer: String,
    pub message: Option<String>,
    /// When the message was put up, in milliseconds on the caller's clock.
    pub message_timeout: Option<u64>,
    /// In the switch dialog: `true` for Yes, `false` for No.
    pub popup_selection: bool,
}

/// Relies on `String::push`: appends one character.
#[verifier::external_body]
fn push_char(s: &mut String, c: char)
    ensures
        final(s)@ == old(s)@.push(c),
{
    s.push(c)
}

/// Relies on `String::pop`: removes the last character, if there is one.
#[verifier::external_body]
fn pop_char(s: &mut String)
    ensures
        final(s)@ == if old(s)@.len() == 0 {
            old(s)@
        } else {
            old(s)@.drop_last()
        },
{
    s.pop();
}

/// `a`, `b` and `c` one after the other.
pub fn concat3(a: &str, b: &str, c: &str) -> (r: String)
    ensures
        r@ == a@ + b@ + c@,
{
    let mut out = String::from_str(a);
    out.append(b);
    out.append(c);
    out
}

/// The name of the selected profile, where the selection points at one.
pub open spec fn selected_name(a: App) -> Option<String> {
    if a.selected_profile < a.profiles@.len() {
        Some(a.profiles@[a.selected_profile as int])
    } else {
        None
    }
}

/// The selection once the list holds `n` profiles: kept where it still points
/// at one, else moved to the last.
pub open spec fn clamped(sel: usize, n: nat) -> usize {
    if n > 0 && sel >= n {
        (n - 1) as usize
    } else {
        sel
    }
}

impl App {
    /// A list of the given profiles, the first selected, no dialog open.
    pub fn new(profiles: Vec<String>, current_profile: Option<String>) -> (r: App)
        ensures
            r.profiles@ == profiles@,
            r.current_profile == current_profile,
            r.selected_profile == 0,
            !r.should_quit,
            r.show_popup is None,
            r.input_buffer@.len() == 0,
            r.message is None,
            r.message_timeout is None,
            r.popup_selection,
    {
        App {
            profiles,
            current_profile,
            selected_profile: 0,
            should_quit: false,
            show_popup: None,
            input_buffer: String::new(),
            message: None,
            message_timeout: None,
            popup_selection: true,
        }
    }

    /// Takes a fresh list of profiles and the active one; the selection stays
    /// within the list.
    pub fn refresh_profiles(&mut self, profiles: Vec<String>, current_profile: Option<String>)
        ensures
            final(self).profiles@ == profiles@,
            final(self).current_profile == current_profile,
            final(self).selected_profile == clamped(old(self).selected_profile, profiles@.len()),
            final(self).should_quit == old(self).should_quit,
            final(self).show_popup == old(self).show_popup,
            final(self).input_buffer == old(self).input_buffer,
            final(self).message == old(self).message,
            final(self).message_timeout == old(self).message_timeout,
            final(self).popup_selection == old(self).popup_selection,
    {
        self.profiles = profiles;
        self.current_profile = current_profile;
        if self.profiles.len() > 0 && self.selected_profile >= self.profiles.len() {
            self.selected_profile = self.profiles.len() - 1;
        }
    }

    /// Selects the next profile, wrapping round to the first.
    pub fn select_next(&mut self)
        ensures
            final(self).profiles == old(self).profiles,
            final(self).selected_profile == if old(self).profiles@.len() == 0 {
                old(self).selected_profile as int
            } else {
                (old(self).selected_profile + 1) % (old(self).profiles@.len() as int)
            },
            final(self).show_popup == old(self).show_popup,
            final(self).input_buffer == old(self).input_buffer,
            final(self).message == old(self).message,
            final(self).message_timeout == old(self).message_timeout,
            final(self).current_profile == old(self).current_profile,
            final(self).should_quit == old(self).should_quit,
            final(self).popup_selection == old(self).popup_selection,
    {
        let n = self.profiles.len();
        if n > 0 {
            let s = self.selected_profile;
            proof {
                vstd::arithmetic::div_mod::lemma_add_mod_noop(s as int, 1, n as int);
                vstd::arithmetic::div_mod::lemma_mod_bound(s as int, n as int);
                if n > 1 {
                    vstd::arithmetic::div_mod::lemma_small_mod(1, n as nat);
                }
            }
            self.selected_profile = (s % n + 1) % n;
            proof {
                if n == 1 {
                    assert((s as int + 1) % 1 == 0);
                }
            }
        }
    }

    /// Selects the previous profile, wrapping round to the last.
    pub fn select_previous(&mut self)
        ensures
            final(self).profiles == old(self).profiles,
            final(self).selected_profile == if old(self).profiles@.len() == 0 {
                old(self).selected_profile as int
            } else if old(self).selected_profile == 0 {
                old(self).profiles@.len() - 1
            } else {
                old(self).selected_profile - 1
            },
            final(self).show_popup == old(self).show_popup,
            final(self).input_buffer == old(self).input_buffer,
            final(self).message == old(self).message,
            final(self).message_timeout == old(self).message_timeout,
            final(self).current_profile == old(self).current_profile,
            final(self).should_quit == old(self).should_quit,
            final(self).popup_selection == old(self).popup_selection,
    {
        if self.profiles.len() > 0 {
            if self.selected_profile == 0 {
                self.selected_profile = self.profiles.len() - 1;
            } else {
                self.selected_profile = self.selected_profile - 1;
            }
        }
    }

    /// The name of the selected profile.
    pub fn get_selected_profile_name(&self) -> (r: Option<&str>)
        ensures
            match r {
                Some(s) => selected_name(*self) matches Some(n) && s@ == n@,
                None => selected_name(*self) is None,
            },
    {
        if self.selected_profile < self.profiles.len() {
            Some(self.profiles[self.selected_profile].as_str())
        } else {
            None
        }
    }

    /// Puts up a message at time `now`.
    pub fn show_message(&mut self, msg: String, now: u64)
        ensures
            final(self).message == Some(msg),
            final(self).message_timeout == Some(now),
            final(self).profiles == old(self).profiles,
            final(self).selected_profile == old(self).selected_profile,
            final(self).show_popup == old(self).show_popup,
            final(self).input_buffer == old(self).input_buffer,
            final(self).should_quit == old(self).should_quit,
            final(self).popup_selection == old(self).popup_selection,
            final(self).current_profile == old(self).current_profile,
    {
        self.message = Some(msg);
        self.message_timeout = Some(now);
    }

    /// Takes the message down once it has been up for a second.
    pub fn update_message_timeout(&mut self, now: u64)
        ensures
            match old(self).message_timeout {
                Some(t) => if now >= t && now - t >= MESSAGE_MILLIS {
                    final(self).message is None && final(self).message_timeout is None
                } else {
                    final(self).message == old(self).message && final(self).message_timeout
                        == old(self).message_timeout
                },
                None => final(self).message == old(self).message && final(self).message_timeout
                    is None,
            },
            final(self).profiles == old(self).profiles,
            final(self).selected_profile == old(self).selected_profile,
            final(self).show_popup == old(self).show_popup,
            final(self).input_buffer == old(self).input_buffer,
            final(self).should_quit == old(self).should_quit,
            final(self).current_profile == old(self).current_profile,
            final(self).popup_selection == old(self).popup_selection,
    {
        if let Some(t) = self.message_timeout {
            if now >= t && now - t >= MESSAGE_MILLIS {
                self.message = None;
                self.message_timeout = None;
            }
        }
    }

    /// A key press in the list itself, no dialog open.
    fn handle_main_input(&mut self, key: Key, now: u64) -> (r: Action)
        requires
            old(self).show_popup is None,
        ensures
            main_ok(*old(self), key, now, *final(self), r),
    {
        match key {
            Key::Up | Key::Char('k') => {
                self.select_previous();
                Action::Nothing
            },
            Key::Down | Key::Char('j') => {
                self.select_next();
                Action::Nothing
            },
            Key::Enter => {
                if self.selected_profile < self.profiles.len() {
                    let name = self.profiles[self.selected_profile].clone();
                    let same = match &self.current_profile {
                        Some(c) => *c == name,
                        None => false,
                    };
                    if same {
                        let msg = concat3("Already using profile '", name.as_str(), "'");
                        self.show_message(msg, now);
                    } else {
                        self.popup_selection = true;
                        self.show_popup = Some(PopupType::ConfirmSwitch(name));
                    }
                }
                Action::Nothing
            },
            Key::Char('a') | Key::Char('i') => {
                self.show_popup = Some(PopupType::AddProfile);
                self.input_buffer = String::new();
                Action::Nothing
            },
            Key::Char('d') => {
                if self.selected_profile < self.profiles.len() {
                    let name = self.profiles[self.selected_profile].clone();
                    self.show_popup = Some(PopupType::ConfirmDelete(name));
                }
                Action::Nothing
            },
            Key::Char('r') => {
                if self.selected_profile < self.profiles.len() {
                    let name = self.profiles[self.selected_profile].clone();
                    self.show_popup = Some(PopupType::RenameProfile(name));
                    self.input_buffer = String::new();
                }
                Action::Nothing
            },
            Key::Char('s') => {
                if self.selected_profile < self.profiles.len() {
                    let name = self.profiles[self.selected_profile].clone();
                    self.show_popup = Some(PopupType::ShowProfile(name));
                }
                Action::Nothing
            },
            Key::Char('l') => Action::Launch,
            Key::Char('q') => {
                self.should_quit = true;
                Action::Nothing
            },
            _ => Action::Nothing,
        }
    }

    /// A key press while a dialog is open.
    fn handle_popup_input(&mut self, key: Key, popup: PopupType) -> (r: Action)
        requires
            old(self).show_popup is None,
        ensures
            popup_ok(*old(self), popup, key, *final(self), r),
    {
        match popup {
            PopupType::AddProfile => match key {
                Key::Enter => {
                    if self.input_buffer.unicode_len() > 0 {
                        let name = self.input_buffer.clone();
                        self.input_buffer = String::new();
                        Action::Add(name)
                    } else {
                        self.show_popup = Some(PopupType::AddProfile);
                        Action::Nothing
                    }
                },
                Key::Char(c) => {
                    push_char(&mut self.input_buffer, c);
                    self.show_popup = Some(PopupType::AddProfile);
                    Action::Nothing
                },
                Key::Backspace => {
                    pop_char(&mut self.input_buffer);
                    self.show_popup = Some(PopupType::AddProfile);
                    Action::Nothing
                },
                Key::Esc => {
                    self.input_buffer = String::new();
                    Action::Nothing
                },
                _ => {
                    self.show_popup = Some(PopupType::AddProfile);
                    Action::Nothing
                },
            },
            PopupType::ConfirmDelete(name) => match key {
                Key::Char('y') | Key::Char('Y') => Action::Remove(name),
                Key::Char('n') | Key::Char('N') | Key::Esc => Action::Nothing,
                _ => {
                    self.show_popup = Some(PopupType::ConfirmDelete(name));
                    Action::Nothing
                },
            },
            PopupType::ConfirmSwitch(name) => match key {
                Key::Left => {
                    self.popup_selection = true;
                    self.show_popup = Some(PopupType::ConfirmSwitch(name));
                    Action::Nothing
                },
                Key::Right => {
                    self.popup_selection = false;
                    self.show_popup = Some(PopupType::ConfirmSwitch(name));
                    Action::Nothing
                },
                Key::Enter => {
                    let yes = self.popup_selection;
                    self.popup_selection = true;
                    if yes {
                        Action::Switch(name)
                    } else {
                        Action::Nothing
                    }
                },
                Key::Esc => {
                    self.popup_selection = true;
                    Action::Nothing
                },
                _ => {
                    self.show_popup = Some(PopupType::ConfirmSwitch(name));
                    Action::Nothing
                },
            },
            PopupType::RenameProfile(name) => match key {
                Key::Enter => {
                    if self.input_buffer.unicode_len() > 0 {
                        let to = self.input_buffer.clone();
                        self.input_buffer = String::new();
                        Action::Rename { from: name, to }
                    } else {
                        self.show_popup = Some(PopupType::RenameProfile(name));
                        Action::Nothing
                    }
                },
                Key::Char(c) => {
                    push_char(&mut self.input_buffer, c);
                    self.show_popup = Some(PopupType::RenameProfile(name));
                    Action::Nothing
                },
                Key::Backspace => {
                    pop_char(&mut self.input_buffer);
                    self.show_popup = Some(PopupType::RenameProfile(name));
                    Action::Nothing
                },
                Key::Esc => {
                    self.input_buffer = String::new();
                    Action::Nothing
                },
                _ => {
                    self.show_popup = Some(PopupType::RenameProfile(name));
                    Action::Nothing
                },
            },
            PopupType::ShowProfile(name) => match key {
                Key::Esc | Key::Enter => Action::Nothing,
                _ => {
                    self.show_popup = Some(PopupType::ShowProfile(name));
                    Action::Nothing
                },
            },
            PopupType::Message(_) => Action::Nothing,
        }
    }

    /// Moves the state on for one key press at time `now`, and names the
    /// command that the press asks for.
    pub fn handle_key(&mut self, key: Key, now: u64) -> (r: Action)
        ensures
            match old(self).show_popup {
                None => main_ok(*old(self), key, now, *final(self), r),
                Some(p) => popup_ok(
                    App { show_popup: None, ..*old(self) },
                    p,
                    key,
                    *final(self),
                    r,
                ),
            },
    {
        match self.show_popup.take() {
            None => self.handle_main_input(key, now),
            Some(p) => self.handle_popup_input(key, p),
        }
    }

    /// Puts up the message that reports how a command went: `error` holds the
    /// reason where it failed.
    pub fn finish_action(&mut self, action: &Action, error: Option<String>, now: u64)
        ensures
            if action is Nothing || (action is Launch && error is None) {
                &&& final(self).message == old(self).message
                &&& final(self).message_timeout == old(self).message_timeout
            } else {
                &&& final(self).message_timeout == Some(now)
                &&& final(self).message matches Some(m) && m@ == finish_text(*action, error)
            },
            final(self).profiles == old(self).profiles,
            final(self).selected_profile == old(self).selected_profile,
            final(self).show_popup == old(self).show_popup,
            final(self).input_buffer == old(self).input_buffer,
    {
        let msg = match action {
            Action::Nothing => return,
            Action::Add(name) => match &error {
                None => concat3("Profile '", name.as_str(), "' added successfully"),
                Some(e) => concat3("Failed to add profile: ", e.as_str(), ""),
            },
            Action::Remove(name) => match &error {
                None => concat3("Profile '", name.as_str(), "' deleted"),
                Some(e) => concat3("Failed to delete profile: ", e.as_str(), ""),
            },
            Action::Switch(name) => match &error {
                None => concat3("Switched to profile '", name.as_str(), "'"),
                Some(e) => concat3("Failed to switch profile: ", e.as_str(), ""),
            },
            Action::Rename { to, .. } => match &error {
                None => concat3("Profile renamed to '", to.as_str(), "'"),
                Some(e) => concat3("Failed to rename profile: ", e.as_str(), ""),
            },
            Action::Launch => match &error {
                None => return,
                Some(e) => concat3("Failed to launch the assistant: ", e.as_str(), ""),
            },
        };
        self.show_message(msg, now);
    }
}

/// The message that reports how a command went.
pub open spec fn finish_text(action: Action, error: Option<String>) -> Seq<char> {
    match action {
        Action::Add(name) => match error {
            None => "Profile '"@ + name@ + "' added successfully"@,
            Some(e) => "Failed to add profile: "@ + e@ + ""@,
        },
        Action::Remove(name) => match error {
            None => "Profile '"@ + name@ + "' deleted"@,
            Some(e) => "Failed to delete profile: "@ + e@ + ""@,
        },
        Action::Switch(name) => match error {
            None => "Switched to profile '"@ + name@ + "'"@,
            Some(e) => "Failed to switch profile: "@ + e@ + ""@,
        },
        Action::Rename { from, to } => match error {
            None => "Profile renamed to '"@ + to@ + "'"@,
            Some(e) => "Failed to rename profile: "@ + e@ + ""@,
        },
        Action::Launch => match error {
            None => Seq::empty(),
            Some(e) => "Failed to launch the assistant: "@ + e@ + ""@,
        },
        Action::Nothing => Seq::empty(),
    }
}

/// A key press in the list itself: the arrows (and `k`, `j`) move the
/// selection; Enter opens the switch dialog for the selected profile, or says
/// that it is already active; `a` and `i` open the add dialog; `d`, `r` and
/// `s` open the delete, rename and show dialogs for the selected profile; `l`
/// asks to launch; `q` quits.
pub open spec fn main_ok(a: App, key: Key, now: u64, b: App, r: Action) -> bool {
    let sel = selected_name(a);
    &&& b.profiles == a.profiles
    &&& b.current_profile == a.current_profile
    &&& (r is Nothing || (r is Launch && key == Key::Char('l')))
    &&& b.should_quit == (a.should_quit || key == Key::Char('q'))
    &&& key != Key::Enter ==> b.message == a.message && b.message_timeout == a.message_timeout
    &&& !(key == Key::Char('a') || key == Key::Char('i') || key == Key::Char('r'))
        ==> b.input_buffer == a.input_buffer
    &&& key != Key::Enter ==> b.popup_selection == a.popup_selection
    &&& (key == Key::Up || key == Key::Char('k')) ==> b.selected_profile == if a.profiles@.len()
        == 0 {
        a.selected_profile as int
    } else if a.selected_profile == 0 {
        a.profiles@.len() - 1
    } else {
        a.selected_profile - 1
    }
    &&& (key == Key::Down || key == Key::Char('j')) ==> b.selected_profile == if a.profiles@.len()
        == 0 {
        a.selected_profile as int
    } else {
        (a.selected_profile + 1) % (a.profiles@.len() as int)
    }
    &&& !(key == Key::Up || key == Key::Char('k') || key == Key::Down || key == Key::Char('j'))
        ==> b.selected_profile == a.selected_profile
    &&& key == Key::Enter ==> match sel {
        Some(n) => if (a.current_profile matches Some(c) && c@ == n@) {
            &&& b.show_popup is None
            &&& b.message_timeout == Some(now)
            &&& b.message matches Some(m) && m@ == "Already using profile '"@ + n@ + "'"@
        } else {
            b.show_popup == Some(PopupType::ConfirmSwitch(n)) && b.popup_selection
        },
        None => b.show_popup is None,
    }
    &&& (key == Key::Char('a') || key == Key::Char('i')) ==> b.show_popup == Some(
        PopupType::AddProfile,
    ) && b.input_buffer@.len() == 0
    &&& key == Key::Char('d') ==> b.show_popup == match sel {
        Some(n) => Some(PopupType::ConfirmDelete(n)),
        None => None,
    }
    &&& key == Key::Char('r') ==> b.show_popup == match sel {
        Some(n) => Some(PopupType::RenameProfile(n)),
        None => None,
    } && (sel is Some ==> b.input_buffer@.len() == 0)
    &&& key == Key::Char('s') ==> b.show_popup == match sel {
        Some(n) => Some(PopupType::ShowProfile(n)),
        None => None,
    }
    &&& !(key == Key::Enter || key == Key::Char('a') || key == Key::Char('i') || key == Key::Char(
        'd',
    ) || key == Key::Char('r') || key == Key::Char('s')) ==> b.show_popup is None
}

/// A key press in a dialog: in the add and rename dialogs keys type the name,
/// Backspace takes a character back, Enter with a name asks for the command and
/// Esc closes; in the delete dialog `y` asks for the removal and `n` or Esc
/// closes; in the switch dialog the left and right arrows choose Yes or No and
/// Enter asks for the switch where Yes is chosen; the show dialog closes on
/// Enter or Esc, a message on any key.
pub open spec fn popup_ok(a: App, p: PopupType, key: Key, b: App, r: Action) -> bool {
    &&& b.profiles == a.profiles
    &&& b.selected_profile == a.selected_profile
    &&& b.should_quit == a.should_quit
    &&& b.current_profile == a.current_profile
    &&& b.message == a.message
    &&& b.message_timeout == a.message_timeout
    &&& !(p is ConfirmSwitch) ==> b.popup_selection == a.popup_selection
    &&& !(p is AddProfile || p is RenameProfile) ==> b.input_buffer == a.input_buffer
    &&& (p is AddProfile || p is RenameProfile) && key == Key::Enter && a.input_buffer@.len() == 0
        ==> b.input_buffer == a.input_buffer
    &&& match p {
        PopupType::AddProfile => match key {
            Key::Enter => if a.input_buffer@.len() > 0 {
                &&& b.show_popup is None
                &&& b.input_buffer@.len() == 0
                &&& r matches Action::Add(n) && n@ == a.input_buffer@
            } else {
                r is Nothing && b.show_popup == Some(PopupType::AddProfile)
            },
            Key::Char(c) => r is Nothing && b.input_buffer@ == a.input_buffer@.push(c)
                && b.show_popup == Some(PopupType::AddProfile),
            Key::Backspace => r is Nothing && b.show_popup == Some(PopupType::AddProfile)
                && b.input_buffer@ == if a.input_buffer@.len() == 0 {
                a.input_buffer@
            } else {
                a.input_buffer@.drop_last()
            },
            Key::Esc => r is Nothing && b.show_popup is None && b.input_buffer@.len() == 0,
            _ => r is Nothing && b.show_popup == Some(PopupType::AddProfile),
        },
        PopupType::ConfirmDelete(n) => match key {
            Key::Char('y') | Key::Char('Y') => r == Action::Remove(n) && b.show_popup is None,
            Key::Char('n') | Key::Char('N') | Key::Esc => r is Nothing && b.show_popup is None,
            _ => r is Nothing && b.show_popup == Some(PopupType::ConfirmDelete(n)),
        },
        PopupType::ConfirmSwitch(n) => match key {
            Key::Left => r is Nothing && b.popup_selection && b.show_popup == Some(
                PopupType::ConfirmSwitch(n),
            ),
            Key::Right => r is Nothing && !b.popup_selection && b.show_popup == Some(
                PopupType::ConfirmSwitch(n),
            ),
            Key::Enter => b.show_popup is None && b.popup_selection && if a.popup_selection {
                r == Action::Switch(n)
            } else {
                r is Nothing
            },
            Key::Esc => r is Nothing && b.show_popup is None && b.popup_selection,
            _ => r is Nothing && b.show_popup == Some(PopupType::ConfirmSwitch(n)),
        },
        PopupType::RenameProfile(n) => match key {
            Key::Enter => if a.input_buffer@.len() > 0 {
                &&& b.show_popup is None
                &&& b.input_buffer@.len() == 0
                &&& r matches Action::Rename { from, to } && from == n && to@ == a.input_buffer@
            } else {
                r is Nothing && b.show_popup == Some(PopupType::RenameProfile(n))
            },
            Key::Char(c) => r is Nothing && b.input_buffer@ == a.input_buffer@.push(c)
                && b.show_popup == Some(PopupType::RenameProfile(n)),
            Key::Backspace => r is Nothing && b.show_popup == Some(PopupType::RenameProfile(n))
                && b.input_buffer@ == if a.input_buffer@.len() == 0 {
                a.input_buffer@
            } else {
                a.input_buffer@.drop_last()
            },
            Key::Esc => r is Nothing && b.show_popup is None && b.input_buffer@.len() == 0,
            _ => r is Nothing && b.show_popup == Some(PopupType::RenameProfile(n)),
        },
        PopupType::ShowProfile(n) => match key {
            Key::Esc | Key::Enter => r is Nothing && b.show_popup is None,
            _ => r is Nothing && b.show_popup == Some(PopupType::ShowProfile(n)),
        },
        PopupType::Message(_) => r is Nothing && b.show_popup is None,
    }
}

} // verus!
