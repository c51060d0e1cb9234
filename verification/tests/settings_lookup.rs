use config::Source;
use boobytrap::default_config::{
    blacklist_file_path, cache_dir_for_user, config_dir_for_user, default_blacklist, default_config, service_file,
    settings_file_path, user_is_root,
};
use boobytrap::boobytrap::{enabled_monitors, AppState, MonitorKind, RunRound, RunSchedule};
use boobytrap::settings::{ConfigError, SettingValue, Settings};

fn settings_of(pairs: &[(&str, &str)]) -> Settings {
    let mut s = Settings::new();
    for (k, v) in pairs {
        s.insert(k.to_string(), SettingValue::Text(v.to_string()));
    }
    s
}

/// The settings that the `config` crate reads from the default settings file.
fn default_settings() -> Settings {
    let loaded = config::Config::builder()
        .add_source(config::File::from_str(default_config(), config::FileFormat::Toml))
        .build()
        .unwrap();
    let mut settings = Settings::new();
    for (key, value) in loaded.collect().unwrap() {
        match value.clone().into_array() {
            Ok(items) => {
                let list: Vec<String> = items.into_iter().filter_map(|v| v.into_string().ok()).collect();
                settings.insert(key, SettingValue::List(list));
            }
            Err(_) => settings.insert(key, SettingValue::Text(value.into_string().unwrap())),
        }
    }
    settings
}

#[test]
fn lookups_distinguish_missing_and_wrong_type() {
    let mut s = settings_of(&[("a", "1")]);
    s.insert("dirs".to_string(), SettingValue::List(vec!["/etc".to_string()]));
    assert_eq!(s.get_text("a").unwrap(), "1");
    assert!(matches!(s.get_text("b"), Err(ConfigError::MissingKey(k)) if k == "b"));
    assert!(matches!(s.get_text("dirs"), Err(ConfigError::WrongType(k)) if k == "dirs"));
    assert_eq!(s.get_list("dirs").unwrap(), vec!["/etc"]);
    assert!(matches!(s.get_list("a"), Err(ConfigError::WrongType(_))));
}

#[test]
fn first_entry_of_a_key_counts() {
    let s = settings_of(&[("k", "first"), ("k", "second")]);
    assert_eq!(s.get_text("k").unwrap(), "first");
}

#[test]
fn insert_then_lookup() {
    let mut s = settings_of(&[("x", "1")]);
    s.insert("y".to_string(), SettingValue::Text("2".to_string()));
    assert_eq!(s.get_text("y").unwrap(), "2");
    assert_eq!(s.get_text("x").unwrap(), "1");
}

#[test]
fn flags_read_true_up_to_case() {
    let s = settings_of(&[("a", "TRUE"), ("b", "True"), ("c", "false"), ("d", "yes"), ("e", " true")]);
    assert_eq!(s.is_enabled("a").unwrap(), true);
    assert_eq!(s.is_enabled("b").unwrap(), true);
    assert_eq!(s.is_enabled("c").unwrap(), false);
    assert_eq!(s.is_enabled("d").unwrap(), false);
    assert_eq!(s.is_enabled("e").unwrap(), false);
    assert!(matches!(s.is_enabled("f"), Err(ConfigError::MissingKey(_))));
}

#[test]
fn numbers_in_settings() {
    let s = settings_of(&[("t", "30"), ("u", "thirty")]);
    assert_eq!(s.get_u64("t").unwrap(), 30);
    assert!(matches!(s.get_u64("u"), Err(ConfigError::NotANumber(k)) if k == "u"));
    assert!(matches!(s.get_u64("v"), Err(ConfigError::MissingKey(_))));
}

#[test]
fn cache_directory_depends_on_user() {
    assert_eq!(cache_dir_for_user("root"), "/root/.config/boobytrap/");
    assert_eq!(cache_dir_for_user("ROOT"), "/root/.config/boobytrap/");
    assert_eq!(cache_dir_for_user("alice"), "/home/alice/.config/boobytrap/");
    assert_eq!(config_dir_for_user("alice"), "/home/alice/.config/boobytrap/config/");
    assert!(user_is_root("Root"));
    assert!(!user_is_root("rooted"));
    assert_eq!(settings_file_path("/root/.config/boobytrap/"), "/root/.config/boobytrap/config/Settings.toml");
    assert_eq!(blacklist_file_path("/x/"), "/x/config/file_mon_blacklist");
}

#[test]
fn default_files_hold_what_they_should() {
    assert!(default_blacklist().lines().any(|l| l == "/etc/mtab"));
    assert!(service_file().contains("ExecStart=/root/.cargo/bin/boobytrap"));
    let settings = default_settings();
    assert_eq!(settings.get_text("discord_webhook_avatar_name").unwrap(), "Lazarus");
    assert_eq!(settings.get_list("fs_mon_dir").unwrap(), vec!["/etc", "/bin", "$PATH"]);
    assert_eq!(settings.get_text("fs_mon_path_variable").unwrap(), "true");
}

#[test]
fn default_settings_enable_usb_and_file_monitors() {
    let settings = default_settings();
    assert_eq!(enabled_monitors(&settings).unwrap(), vec![MonitorKind::Usb, MonitorKind::FileChanges]);
    let schedule = RunSchedule::from_settings(&settings, 1000).unwrap();
    assert_eq!(schedule.fs_tick_seconds, 300);
    assert_eq!(schedule.tick_seconds, 5);
    assert_eq!(schedule.last_fs_check, 1000);
}

#[test]
fn monitors_in_flag_order() {
    let s = settings_of(&[
        ("fs_mon_enabled", "TRUE"),
        ("burn_file_mon_enabled", "true"),
        ("net_mon_enabled", "true"),
        ("usb_mon_enabled", "false"),
    ]);
    assert_eq!(enabled_monitors(&s).unwrap(), vec![MonitorKind::Net, MonitorKind::SshBurn, MonitorKind::FileChanges]);
    let partial = settings_of(&[("usb_mon_enabled", "true"), ("fs_mon_enabled", "true")]);
    assert!(matches!(enabled_monitors(&partial), Err(ConfigError::MissingKey(k)) if k == "net_mon_enabled"));
}

#[test]
fn schedule_errors_name_the_key() {
    let s = settings_of(&[("tick_delay_seconds", "5")]);
    assert!(matches!(RunSchedule::from_settings(&s, 0), Err(ConfigError::MissingKey(k)) if k == "fs_tick_delay_seconds"));
    let s = settings_of(&[("fs_tick_delay_seconds", "60"), ("tick_delay_seconds", "5s")]);
    assert!(matches!(RunSchedule::from_settings(&s, 0), Err(ConfigError::NotANumber(k)) if k == "tick_delay_seconds"));
}

#[test]
fn file_monitor_turn_comes_after_interval() {
    let s = settings_of(&[("fs_tick_delay_seconds", "60"), ("tick_delay_seconds", "5")]);
    let second: u64 = 1_000_000_000;
    let mut schedule = RunSchedule::from_settings(&s, 100 * second).unwrap();
    assert!(!schedule.fs_check_due(160 * second));
    assert!(!schedule.fs_check_due(161 * second - 1));
    assert_eq!(schedule.last_fs_check, 100 * second);
    assert!(schedule.fs_check_due(161 * second));
    assert_eq!(schedule.last_fs_check, 161 * second);
    assert!(!schedule.fs_check_due(200 * second));
}

#[test]
fn new_app_state_is_empty() {
    let app = AppState::new();
    assert!(app.mon_usb);
    assert!(!app.detection_triggered);
    assert!(app.monitors.is_empty());
}

#[test]
fn monitors_visited_round_robin() {
    let schedule = RunSchedule { tick_seconds: 5, fs_tick_seconds: 60, last_fs_check: 0 };
    let mut round = RunRound::new(schedule);
    let visits: Vec<usize> = (0..7).map(|_| round.next_visit(3).unwrap()).collect();
    assert_eq!(visits, vec![0, 1, 2, 0, 1, 2, 0]);
    assert!(round.next_visit(0).is_none());
    assert!(round.checks(MonitorKind::Usb, 0));
    assert!(!round.checks(MonitorKind::FileChanges, 60_000_000_000));
    assert!(round.checks(MonitorKind::FileChanges, 61_000_000_000));
    assert_eq!(round.schedule.last_fs_check, 61_000_000_000);
}
