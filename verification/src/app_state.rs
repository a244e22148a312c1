//! The window's state and what each user action or hotkey does to it: the
//! open tab, the status line, the interval field, the hotkey fields, and the
//! commands handed back to the code that talks to the system.

use vstd::prelude::*;
use crate::clicker::{toggle_result, Clicker, ClickerCommand};
use crate::config::{Config, SaveTarget};
use crate::hotkeys::{parse_hotkey_spec, validate_hotkey, HotKeyEvent, HotKeys};
use crate::icon_packer::IconPacker;
use crate::key_monitor::{monitor_toggle_result, KeyMonitor};
use crate::text::{decimal, pad_left, parse_u64, parse_u64_spec, push_decimal, push_space_padded, signed_decimal};

verus! {

/// The tabs of the side menu.
#[derive(Debug, Clone, Copy, PartialEq, Eq, Structural)]
pub enum Tab {
    Clicker,
    KeyMonitor,
    IconPacker,
    Settings,
    About,
}

/// What a hotkey press asks of the system side.
#[derive(Debug, Clone, Copy, PartialEq, Eq, Structural)]
pub enum HotKeyAction {
    /// The id is not a registered hotkey.
    Nothing,
    /// Start or stop the clicking loop as the command says.
    Clicker(ClickerCommand),
    /// Read the cursor position and hand it to `on_cursor_position`.
    ReadCursor,
}

/// The outcome of editing a hotkey field.
#[derive(Debug, Clone, Copy, PartialEq, Eq, Structural)]
pub enum KeyEdit {
    /// The text is not a hotkey; the status says so.
    Invalid,
    /// The text is the configured hotkey already.
    Unchanged,
    /// The configuration took the new text: register the hotkeys again and
    /// save.
    Changed,
}

/// The status line after a tab is opened.
pub open spec fn tab_status(tab: Tab) -> Seq<char> {
    match tab {
        Tab::Clicker => "Открыт кликер"@,
        Tab::KeyMonitor => "Открыт монитор клавиш"@,
        Tab::IconPacker => "Открыт сборщик иконок"@,
        Tab::Settings => "Открыты настройки"@,
        Tab::About => "Раздел About"@,
    }
}

/// The window's state.
pub struct AppState {
    pub config: Config,
    pub clicker: Clicker,
    pub active_tab: Tab,
    pub icon_packer: IconPacker,
    pub status: String,
    pub interval_input: String,
    pub hotkeys: HotKeys,
    pub temp_set_position: String,
    pub temp_toggle: String,
}

/// The fields that no action here touches but the ones it names: the
/// image list, the interval field, the hotkey table and the two hotkey
/// fields are as in `b`.
pub open spec fn others_kept(a: AppState, b: AppState) -> bool {
    &&& a.icon_packer == b.icon_packer
    &&& a.interval_input == b.interval_input
    &&& a.hotkeys == b.hotkeys
    &&& a.temp_set_position == b.temp_set_position
    &&& a.temp_toggle == b.temp_toggle
}

impl AppState {
    /// The state at start: the clicker tab, the clicker set to the
    /// configured interval, the interval field and hotkey fields showing the
    /// configuration, and the status `Готов к работе`.
    pub fn new(config: Config, hotkeys: HotKeys) -> (s: AppState)
        ensures
            s.config == config,
            s.hotkeys == hotkeys,
            s.active_tab == Tab::Clicker,
            s.clicker.interval_spec() == config.default_interval,
            s.clicker.target_x_spec() is None,
            s.clicker.target_y_spec() is None,
            !s.clicker.working(),
            s.interval_input@ == decimal(config.default_interval as nat),
            s.temp_set_position@ == config.hotkeys.set_position@,
            s.temp_toggle@ == config.hotkeys.toggle@,
            s.status@ == "Готов к работе"@,
            s.icon_packer.image_seq().len() == 0,
            s.icon_packer.extras().is_empty(),
    {
        let mut interval_input = String::new();
        push_decimal(&mut interval_input, config.default_interval);
        let mut clicker = Clicker::new();
        clicker.set_interval(config.default_interval);
        let temp_set_position = config.hotkeys.set_position.clone();
        let temp_toggle = config.hotkeys.toggle.clone();
        AppState {
            config,
            clicker,
            active_tab: Tab::Clicker,
            icon_packer: IconPacker::new(),
            status: "Готов к работе".to_owned(),
            interval_input,
            hotkeys,
            temp_set_position,
            temp_toggle,
        }
    }

    /// Opens a tab and says so in the status line.
    pub fn select_tab(&mut self, tab: Tab)
        ensures
            final(self).active_tab == tab,
            final(self).status@ == tab_status(tab),
            final(self).clicker == old(self).clicker,
            final(self).config == old(self).config,
            others_kept(*final(self), *old(self)),
    {
        self.active_tab = tab;
        self.status = match tab {
            Tab::Clicker => "Открыт кликер".to_owned(),
            Tab::KeyMonitor => "Открыт монитор клавиш".to_owned(),
            Tab::IconPacker => "Открыт сборщик иконок".to_owned(),
            Tab::Settings => "Открыты настройки".to_owned(),
            Tab::About => "Раздел About".to_owned(),
        };
    }

    /// A released hotkey `id`: the toggle key starts or stops the clicker
    /// (the status says which state it is in now), the set-position key asks
    /// for the cursor position, an unknown id does nothing.
    pub fn on_hotkey(&mut self, id: u32) -> (action: HotKeyAction)
        ensures
            final(self).hotkeys == old(self).hotkeys,
            final(self).config == old(self).config,
            !old(self).hotkeys.events().contains_key(id) ==> action == HotKeyAction::Nothing
                && final(self).clicker == old(self).clicker && final(self).status
                == old(self).status,
            old(self).hotkeys.events().contains_key(id) && old(self).hotkeys.events()[id]
                == HotKeyEvent::SetPosition ==> action == HotKeyAction::ReadCursor
                && final(self).clicker == old(self).clicker && final(self).status
                == old(self).status,
            old(self).hotkeys.events().contains_key(id) && old(self).hotkeys.events()[id]
                == HotKeyEvent::ToggleClicker ==> (exists|cmd: ClickerCommand|
                action == HotKeyAction::Clicker(cmd) && toggle_result(
                    old(self).clicker,
                    final(self).clicker,
                    cmd,
                )) && final(self).status@ == (if final(self).clicker.working() {
                "Кликер запущен"@
            } else {
                "Кликер остановлен"@
            }),
            others_kept(*final(self), *old(self)),
            final(self).active_tab == old(self).active_tab,
    {
        let event = match self.hotkeys.get_event(id) {
            None => {
                return HotKeyAction::Nothing;
            },
            Some(e) => *e,
        };
        match event {
            HotKeyEvent::ToggleClicker => {
                let cmd = self.clicker.toggle();
                self.status = if self.clicker.is_working() {
                    "Кликер запущен".to_owned()
                } else {
                    "Кликер остановлен".to_owned()
                };
                HotKeyAction::Clicker(cmd)
            },
            HotKeyEvent::SetPosition => HotKeyAction::ReadCursor,
        }
    }

    /// The cursor is at (`x`, `y`) after a set-position hotkey: it becomes
    /// the target, and the status says `Позиция установлена: x, y`.
    pub fn on_cursor_position(&mut self, x: i32, y: i32)
        ensures
            final(self).clicker.target_x_spec() == Some(x),
            final(self).clicker.target_y_spec() == Some(y),
            final(self).clicker.interval_spec() == old(self).clicker.interval_spec(),
            final(self).clicker.working() == old(self).clicker.working(),
            final(self).status@ == "Позиция установлена: "@ + signed_decimal(x as int) + ", "@
                + signed_decimal(y as int),
            final(self).config == old(self).config,
            others_kept(*final(self), *old(self)),
            final(self).active_tab == old(self).active_tab,
    {
        self.clicker.set_target(x, y);
        let mut s = "Позиция установлена: ".to_owned();
        push_space_padded(&mut s, x as i64, 0);
        s.append(", ");
        push_space_padded(&mut s, y as i64, 0);
        assert(pad_left(signed_decimal(x as int), 0, ' ') == signed_decimal(x as int));
        assert(pad_left(signed_decimal(y as int), 0, ' ') == signed_decimal(y as int));
        self.status = s;
    }

    /// The cursor position could not be read while the clicker tab shows.
    pub fn on_cursor_unavailable(&mut self)
        ensures
            final(self).status@ == "Не удаётся получить координаты курсора"@,
            final(self).clicker == old(self).clicker,
            final(self).config == old(self).config,
            others_kept(*final(self), *old(self)),
            final(self).active_tab == old(self).active_tab,
    {
        self.status = "Не удаётся получить координаты курсора".to_owned();
    }

    /// Whether the interval field holds a number.
    pub fn interval_input_is_valid(&self) -> (r: bool)
        ensures
            r == parse_u64_spec(self.interval_input@) is Some,
    {
        parse_u64(self.interval_input.as_str()).is_some()
    }

    /// The interval field was edited: a positive number becomes the
    /// clicker's interval and the configured one, the status says so, and the
    /// settings are to be saved where the answer says. Anything else changes
    /// nothing.
    pub fn apply_interval_input(&mut self) -> (r: Option<SaveTarget>)
        ensures
            match parse_u64_spec(old(self).interval_input@) {
                Some(v) if v > 0 => {
                    &&& final(self).clicker.interval_spec() == v
                    &&& final(self).clicker.working() == old(self).clicker.working()
                    &&& final(self).clicker.target_x_spec() == old(self).clicker.target_x_spec()
                    &&& final(self).clicker.target_y_spec() == old(self).clicker.target_y_spec()
                    &&& final(self).config.default_interval == v
                    &&& final(self).config.always_on_top == old(self).config.always_on_top
                    &&& final(self).config.hotkeys == old(self).config.hotkeys
                    &&& final(self).config.config_path == old(self).config.config_path
                    &&& final(self).status@ == "Интервал установлен: "@ + decimal(v as nat)
                        + " мс"@
                    &&& r matches Some(t) && final(self).config.saves_to(t)
                },
                _ => {
                    &&& r is None
                    &&& final(self).clicker == old(self).clicker
                    &&& final(self).config == old(self).config
                    &&& final(self).status == old(self).status
                },
            },
            final(self).interval_input == old(self).interval_input,
            final(self).icon_packer == old(self).icon_packer,
            final(self).hotkeys == old(self).hotkeys,
            final(self).temp_set_position == old(self).temp_set_position,
            final(self).temp_toggle == old(self).temp_toggle,
            final(self).active_tab == old(self).active_tab,
    {
        match parse_u64(self.interval_input.as_str()) {
            Some(value) => {
                if value > 0 {
                    self.clicker.set_interval(value);
                    let mut s = "Интервал установлен: ".to_owned();
                    push_decimal(&mut s, value);
                    s.append(" мс");
                    self.status = s;
                    let set_interval = |c: &mut Config|
                        ensures
                            final(c).default_interval == value,
                            final(c).always_on_top == old(c).always_on_top,
                            final(c).hotkeys == old(c).hotkeys,
                            final(c).config_path == old(c).config_path,
                        {
                            c.default_interval = value;
                        };
                    let t = self.config.update_and_save(set_interval);
                    Some(t)
                } else {
                    None
                }
            },
            None => None,
        }
    }

    /// Switches the key monitor on or off; the status says which. Returns
    /// whether the system listener has to be started now.
    pub fn toggle_key_monitor(&mut self, monitor: &mut KeyMonitor) -> (start_listener: bool)
        ensures
            monitor_toggle_result(*old(monitor), *final(monitor), start_listener),
            final(self).status@ == "Монитор клавиш "@ + (if final(monitor).active() {
                "запущен"@
            } else {
                "остановлен"@
            }),
            final(self).config == old(self).config,
            final(self).clicker == old(self).clicker,
            others_kept(*final(self), *old(self)),
            final(self).active_tab == old(self).active_tab,
    {
        let start = monitor.toggle();
        let mut s = "Монитор клавиш ".to_owned();
        if monitor.is_active() {
            s.append("запущен");
        } else {
            s.append("остановлен");
        }
        self.status = s;
        start
    }

    /// Sets "always on top"; when it changed, the window level has to follow
    /// and the settings are to be saved where the answer says.
    pub fn set_always_on_top(&mut self, value: bool) -> (r: Option<SaveTarget>)
        ensures
            final(self).config.always_on_top == value,
            final(self).config.default_interval == old(self).config.default_interval,
            final(self).config.hotkeys == old(self).config.hotkeys,
            final(self).config.config_path == old(self).config.config_path,
            old(self).config.always_on_top == value ==> r is None,
            old(self).config.always_on_top != value ==> (r matches Some(t)
                && final(self).config.saves_to(t)),
            others_kept(*final(self), *old(self)),
            final(self).active_tab == old(self).active_tab,
            final(self).clicker == old(self).clicker,
            final(self).status == old(self).status,
    {
        let old_value = self.config.always_on_top;
        self.config.always_on_top = value;
        if old_value != value {
            Some(self.config.save())
        } else {
            None
        }
    }
    /// The set-position hotkey field was edited. A valid hotkey different
    /// from the configured one replaces it (`Changed`); an invalid one only
    /// sets the status to `Неверный формат клавиши: ...`.
    pub fn edit_set_position_key(&mut self) -> (r: KeyEdit)
        ensures
            final(self).temp_set_position == old(self).temp_set_position,
            final(self).temp_toggle == old(self).temp_toggle,
            final(self).clicker == old(self).clicker,
            final(self).config.always_on_top == old(self).config.always_on_top,
            final(self).config.default_interval == old(self).config.default_interval,
            final(self).config.config_path == old(self).config.config_path,
            final(self).config.hotkeys.toggle == old(self).config.hotkeys.toggle,
            parse_hotkey_spec(old(self).temp_set_position@) is None ==> r == KeyEdit::Invalid
                && final(self).status@ == "Неверный формат клавиши: "@
                + old(self).temp_set_position@ && final(self).config.hotkeys.set_position
                == old(self).config.hotkeys.set_position,
            parse_hotkey_spec(old(self).temp_set_position@) is Some
                && old(self).temp_set_position@ == old(self).config.hotkeys.set_position@ ==> r
                == KeyEdit::Unchanged && final(self).status == old(self).status
                && final(self).config.hotkeys.set_position == old(
                self,
            ).config.hotkeys.set_position,
            parse_hotkey_spec(old(self).temp_set_position@) is Some
                && old(self).temp_set_position@ != old(self).config.hotkeys.set_position@ ==> r
                == KeyEdit::Changed && final(self).status == old(self).status
                && final(self).config.hotkeys.set_position@ == old(self).temp_set_position@,
            final(self).icon_packer == old(self).icon_packer,
            final(self).interval_input == old(self).interval_input,
            final(self).hotkeys == old(self).hotkeys,
            final(self).active_tab == old(self).active_tab,
    {
        let valid = validate_hotkey(self.temp_set_position.as_str());
        if valid && self.temp_set_position != self.config.hotkeys.set_position {
            self.config.hotkeys.set_position = self.temp_set_position.clone();
            KeyEdit::Changed
        } else if !valid {
            let mut s = "Неверный формат клавиши: ".to_owned();
            s.append(self.temp_set_position.as_str());
            self.status = s;
            KeyEdit::Invalid
        } else {
            KeyEdit::Unchanged
        }
    }

    /// The toggle hotkey field was edited. A valid hotkey different from the
    /// configured one replaces it (`Changed`); an invalid one only sets the
    /// status to `Неверный формат клавиши: ...`.
    pub fn edit_toggle_key(&mut self) -> (r: KeyEdit)
        ensures
            final(self).temp_set_position == old(self).temp_set_position,
            final(self).temp_toggle == old(self).temp_toggle,
            final(self).clicker == old(self).clicker,
            final(self).config.always_on_top == old(self).config.always_on_top,
            final(self).config.default_interval == old(self).config.default_interval,
            final(self).config.config_path == old(self).config.config_path,
            final(self).config.hotkeys.set_position == old(self).config.hotkeys.set_position,
            parse_hotkey_spec(old(self).temp_toggle@) is None ==> r == KeyEdit::Invalid
                && final(self).status@ == "Неверный формат клавиши: "@ + old(self).temp_toggle@
                && final(self).config.hotkeys.toggle == old(self).config.hotkeys.toggle,
            parse_hotkey_spec(old(self).temp_toggle@) is Some && old(self).temp_toggle@ == old(
                self,
            ).config.hotkeys.toggle@ ==> r == KeyEdit::Unchanged && final(self).status == old(
                self,
            ).status && final(self).config.hotkeys.toggle == old(self).config.hotkeys.toggle,
            parse_hotkey_spec(old(self).temp_toggle@) is Some && old(self).temp_toggle@ != old(
                self,
            ).config.hotkeys.toggle@ ==> r == KeyEdit::Changed && final(self).status == old(
                self,
            ).status && final(self).config.hotkeys.toggle@ == old(self).temp_toggle@,
            final(self).icon_packer == old(self).icon_packer,
            final(self).interval_input == old(self).interval_input,
            final(self).hotkeys == old(self).hotkeys,
            final(self).active_tab == old(self).active_tab,
    {
        let valid = validate_hotkey(self.temp_toggle.as_str());
        if valid && self.temp_toggle != self.config.hotkeys.toggle {
            self.config.hotkeys.toggle = self.temp_toggle.clone();
            KeyEdit::Changed
        } else if !valid {
            let mut s = "Неверный формат клавиши: ".to_owned();
            s.append(self.temp_toggle.as_str());
            self.status = s;
            KeyEdit::Invalid
        } else {
            KeyEdit::Unchanged
        }
    }

    /// The hotkeys were registered again after a change of the `event` key
    /// and the settings were saved (`error` is `None`) or saving failed with
    /// the message `error`. The status reports it.
    pub fn key_change_saved(&mut self, event: HotKeyEvent, error: Option<&str>)
        ensures
            final(self).status@ == match error {
                Some(e) => "Ошибка сохранения конфигурации: "@ + e@,
                None => match event {
                    HotKeyEvent::SetPosition => "Клавиша установки: "@ + old(
                        self,
                    ).temp_set_position@,
                    HotKeyEvent::ToggleClicker => "Клавиша переключения: "@ + old(
                        self,
                    ).temp_toggle@,
                },
            },
            final(self).config == old(self).config,
            final(self).clicker == old(self).clicker,
            others_kept(*final(self), *old(self)),
            final(self).active_tab == old(self).active_tab,
    {
        let s = match error {
            Some(e) => {
                let mut s = "Ошибка сохранения конфигурации: ".to_owned();
                s.append(e);
                s
            },
            None => match event {
                HotKeyEvent::SetPosition => {
                    let mut s = "Клавиша установки: ".to_owned();
                    s.append(self.temp_set_position.as_str());
                    s
                },
                HotKeyEvent::ToggleClicker => {
                    let mut s = "Клавиша переключения: ".to_owned();
                    s.append(self.temp_toggle.as_str());
                    s
                },
            },
        };
        self.status = s;
    }

    /// Registering the hotkeys again failed with `message`.
    pub fn key_update_failed(&mut self, message: &str)
        ensures
            final(self).status@ == "Ошибка обновления клавиш: "@ + message@,
            final(self).config == old(self).config,
            final(self).clicker == old(self).clicker,
            others_kept(*final(self), *old(self)),
            final(self).active_tab == old(self).active_tab,
    {
        let mut s = "Ошибка обновления клавиш: ".to_owned();
        s.append(message);
        self.status = s;
    }
}

} // verus!
