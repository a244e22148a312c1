use handiva::clicker::{Clicker, ClickerCommand};

#[test]
fn starts_without_target() {
    let c = Clicker::new();
    assert!(!c.is_working());
    assert_eq!(c.target(), "-");
}

#[test]
fn target_text_is_right_aligned() {
    let mut c = Clicker::new();
    c.set_target(10, -5);
    assert_eq!(c.target(), "X:   10  Y:   -5");
    c.set_target(12345, 0);
    assert_eq!(c.target(), "X: 12345  Y:    0");
    c.set_target(i32::MIN, i32::MAX);
    assert_eq!(c.target(), format!("X: {:4}  Y: {:4}", i32::MIN, i32::MAX));
}

#[test]
fn toggle_needs_a_target() {
    let mut c = Clicker::new();
    assert_eq!(c.toggle(), ClickerCommand::NoTarget);
    assert!(!c.is_working());
    assert_eq!(c.toggle(), ClickerCommand::NoTarget);
}

#[test]
fn toggle_twice_starts_then_stops() {
    let mut c = Clicker::new();
    c.set_interval(120);
    c.set_target(3, 4);
    assert_eq!(c.toggle(), ClickerCommand::Start { x: 3, y: 4, interval: 120 });
    assert!(c.is_working());
    assert_eq!(c.toggle(), ClickerCommand::Stop);
    assert!(!c.is_working());
}

#[test]
fn stop_always_stops() {
    let mut c = Clicker::new();
    c.set_target(1, 1);
    c.toggle();
    c.stop();
    assert!(!c.is_working());
    c.stop();
    assert!(!c.is_working());
}

#[test]
fn default_interval_is_used_when_starting() {
    let mut c = Clicker::new();
    c.set_target(0, 0);
    assert_eq!(c.toggle(), ClickerCommand::Start { x: 0, y: 0, interval: 500 });
}
