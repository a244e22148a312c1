use handiva::config::{
    default_interval, default_set_position_key, default_toggle_key, Config, HotKeyConfig, SaveTarget,
};

#[test]
fn defaults() {
    assert_eq!(default_interval(), 500);
    assert_eq!(default_set_position_key(), "F6");
    assert_eq!(default_toggle_key(), "F7");
    let c = Config::default();
    assert!(!c.always_on_top);
    assert_eq!(c.default_interval, 500);
    assert_eq!(c.hotkeys.set_position, "F6");
    assert_eq!(c.hotkeys.toggle, "F7");
    assert_eq!(c.config_path(), None);
    let h = HotKeyConfig::default();
    assert_eq!(h.set_position, "F6");
    assert_eq!(h.toggle, "F7");
}

#[test]
fn unsaved_config_goes_to_default_location() {
    assert_eq!(Config::default().save(), SaveTarget::DefaultLocation);
}

#[test]
fn loaded_config_goes_back_to_its_file() {
    let c = Config::default().with_path("/tmp/handiva/config.toml".to_string());
    assert_eq!(c.save(), SaveTarget::Path("/tmp/handiva/config.toml".to_string()));
    assert_eq!(c.config_path(), Some(&"/tmp/handiva/config.toml".to_string()));
}

#[test]
fn update_and_save_applies_then_targets() {
    let mut c = Config::new(true, 100, HotKeyConfig::default()).with_path("a.toml".to_string());
    let t = c.update_and_save(|c: &mut Config| c.default_interval = 250);
    assert_eq!(c.default_interval, 250);
    assert!(c.always_on_top);
    assert_eq!(t, SaveTarget::Path("a.toml".to_string()));
    let mut d = Config::default();
    assert_eq!(d.update_and_save(|c: &mut Config| c.always_on_top = true), SaveTarget::DefaultLocation);
    assert!(d.always_on_top);
}
