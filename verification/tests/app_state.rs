use handiva::app_state::{AppState, HotKeyAction, KeyEdit, Tab};
use handiva::clicker::ClickerCommand;
use handiva::config::{Config, SaveTarget};
use handiva::hotkeys::{HotKeyEvent, HotKeys};

fn state() -> AppState {
    let mut hk = HotKeys::empty();
    hk.record(11, HotKeyEvent::SetPosition);
    hk.record(22, HotKeyEvent::ToggleClicker);
    AppState::new(Config::default(), hk)
}

#[test]
fn starts_ready() {
    let s = state();
    assert_eq!(s.status, "Готов к работе");
    assert_eq!(s.interval_input, "500");
    assert_eq!(s.temp_set_position, "F6");
    assert_eq!(s.temp_toggle, "F7");
    assert_eq!(s.active_tab, Tab::Clicker);
    assert!(!s.clicker.is_working());
}

#[test]
fn tabs_report_in_status() {
    let mut s = state();
    let cases = [
        (Tab::KeyMonitor, "Открыт монитор клавиш"),
        (Tab::IconPacker, "Открыт сборщик иконок"),
        (Tab::Settings, "Открыты настройки"),
        (Tab::About, "Раздел About"),
        (Tab::Clicker, "Открыт кликер"),
    ];
    for (tab, text) in cases {
        s.select_tab(tab);
        assert_eq!(s.active_tab, tab);
        assert_eq!(s.status, text);
    }
}

#[test]
fn hotkeys_drive_the_clicker() {
    let mut s = state();
    assert_eq!(s.on_hotkey(99), HotKeyAction::Nothing);
    assert_eq!(s.on_hotkey(22), HotKeyAction::Clicker(ClickerCommand::NoTarget));
    assert_eq!(s.status, "Кликер остановлен");
    assert_eq!(s.on_hotkey(11), HotKeyAction::ReadCursor);
    s.on_cursor_position(100, -3);
    assert_eq!(s.status, "Позиция установлена: 100, -3");
    assert_eq!(
        s.on_hotkey(22),
        HotKeyAction::Clicker(ClickerCommand::Start { x: 100, y: -3, interval: 500 })
    );
    assert_eq!(s.status, "Кликер запущен");
    assert_eq!(s.on_hotkey(22), HotKeyAction::Clicker(ClickerCommand::Stop));
    assert_eq!(s.status, "Кликер остановлен");
}

#[test]
fn interval_field() {
    let mut s = state();
    s.interval_input = "250".into();
    assert!(s.interval_input_is_valid());
    assert_eq!(s.apply_interval_input(), Some(SaveTarget::DefaultLocation));
    assert_eq!(s.config.default_interval, 250);
    assert_eq!(s.status, "Интервал установлен: 250 мс");
    s.interval_input = "0".into();
    assert!(s.interval_input_is_valid());
    assert_eq!(s.apply_interval_input(), None);
    assert_eq!(s.config.default_interval, 250);
    s.interval_input = "12x".into();
    assert!(!s.interval_input_is_valid());
    assert_eq!(s.apply_interval_input(), None);
    s.interval_input = String::new();
    assert!(!s.interval_input_is_valid());
}

#[test]
fn cursor_unavailable_is_reported() {
    let mut s = state();
    s.on_cursor_unavailable();
    assert_eq!(s.status, "Не удаётся получить координаты курсора");
}

#[test]
fn key_monitor_toggle_reports() {
    let mut s = state();
    let mut m = handiva::key_monitor::KeyMonitor::new();
    assert!(s.toggle_key_monitor(&mut m));
    assert_eq!(s.status, "Монитор клавиш запущен");
    assert!(m.is_active());
    assert!(!s.toggle_key_monitor(&mut m));
    assert_eq!(s.status, "Монитор клавиш остановлен");
}

#[test]
fn always_on_top_saves_only_on_change() {
    let mut s = state();
    assert_eq!(s.set_always_on_top(false), None);
    assert_eq!(s.set_always_on_top(true), Some(SaveTarget::DefaultLocation));
    assert!(s.config.always_on_top);
}

#[test]
fn hotkey_fields() {
    let mut s = state();
    assert_eq!(s.edit_set_position_key(), KeyEdit::Unchanged);
    s.temp_set_position = "Ctrl+".into();
    assert_eq!(s.edit_set_position_key(), KeyEdit::Invalid);
    assert_eq!(s.status, "Неверный формат клавиши: Ctrl+");
    assert_eq!(s.config.hotkeys.set_position, "F6");
    s.temp_set_position = "Ctrl+F8".into();
    assert_eq!(s.edit_set_position_key(), KeyEdit::Changed);
    assert_eq!(s.config.hotkeys.set_position, "Ctrl+F8");
    s.key_change_saved(HotKeyEvent::SetPosition, None);
    assert_eq!(s.status, "Клавиша установки: Ctrl+F8");
    s.temp_toggle = "F9".into();
    assert_eq!(s.edit_toggle_key(), KeyEdit::Changed);
    s.key_change_saved(HotKeyEvent::ToggleClicker, Some("диск полон"));
    assert_eq!(s.status, "Ошибка сохранения конфигурации: диск полон");
    s.key_change_saved(HotKeyEvent::ToggleClicker, None);
    assert_eq!(s.status, "Клавиша переключения: F9");
    s.key_update_failed("x");
    assert_eq!(s.status, "Ошибка обновления клавиш: x");
}
