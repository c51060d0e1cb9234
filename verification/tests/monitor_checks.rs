use boobytrap::boobytrap::EventMonitor;
use boobytrap::monitors::actions::{
    dmsetup_listing_complete, luks_volume_names, mount_points_of, mounts_listing_complete,
};
use boobytrap::monitors::devices::{
    device_listing, last_absent_of, physical_device_names, usb_alarm_actions, UsbEvent, USBMon,
};
use boobytrap::monitors::network::{NETMon, SocketProtocol, SocketRecord};
use boobytrap::monitors::notify::{discord_message, discord_target};
use boobytrap::monitors::ssh_burn_file::{burn_alarm_unmounts, burn_file_found, SSHBurnMon};
use boobytrap::settings::{ConfigError, SettingValue, Settings};

fn settings_of(pairs: &[(&str, &str)]) -> Settings {
    let mut s = Settings::new();
    for (k, v) in pairs {
        s.insert(k.to_string(), SettingValue::Text(v.to_string()));
    }
    s
}

fn devices(names: &[&str]) -> Vec<String> {
    names.iter().map(|n| n.to_string()).collect()
}

#[test]
fn usb_first_listing_is_taken_as_known() {
    let mut mon = USBMon::new(Settings::new());
    assert!(!mon.started);
    let report = mon.check(devices(&["kbd", "mouse"]));
    assert!(matches!(report.event, UsbEvent::Started { total: 2 }));
    assert!(!report.alarm);
    assert_eq!(mon.devices, devices(&["kbd", "mouse"]));
    assert_eq!(mon.total_devices, 2);
    assert_eq!(mon.last_check, 2);
    assert!(mon.started);
    assert!(!mon.triggered);
}

#[test]
fn usb_increase_raises_alarm_once() {
    let mut mon = USBMon::new(Settings::new());
    mon.check(devices(&["kbd", "mouse"]));
    let report = mon.check(devices(&["kbd", "stick", "mouse"]));
    match &report.event {
        UsbEvent::Increased { previous, total, new_device, missing_device } => {
            assert_eq!(*previous, 2);
            assert_eq!(*total, 3);
            assert_eq!(new_device, "stick");
            assert_eq!(missing_device, "");
        }
        other => panic!("{:?}", other),
    }
    assert!(report.alarm);
    assert_eq!(report.new_device, "stick");
    assert!(!mon.triggered);
    assert_eq!(mon.last_check, 3);
    assert_eq!(mon.devices.len(), 3);
    let again = mon.check(devices(&["kbd", "stick", "mouse"]));
    assert!(matches!(again.event, UsbEvent::Unchanged));
    assert!(!again.alarm);
}

#[test]
fn usb_rise_after_drop_raises_alarm() {
    let mut mon = USBMon::new(Settings::new());
    mon.check(devices(&["a", "b", "c"]));
    let dropped = mon.check(devices(&["a", "b"]));
    match &dropped.event {
        UsbEvent::Decreased { previous, total, new_device, missing_device } => {
            assert_eq!(*previous, 3);
            assert_eq!(*total, 2);
            assert_eq!(new_device, "");
            assert_eq!(missing_device, "c");
        }
        other => panic!("{:?}", other),
    }
    assert!(!dropped.alarm);
    let rose = mon.check(devices(&["a", "b", "d"]));
    assert!(rose.alarm);
    assert_eq!(rose.new_device, "d");
}

#[test]
fn usb_rise_from_no_devices_raises_alarm() {
    let mut mon = USBMon::new(Settings::new());
    let report = mon.check(vec![]);
    assert!(matches!(report.event, UsbEvent::Started { total: 0 }));
    assert!(!report.alarm);
    let report = mon.check(devices(&["kbd"]));
    assert!(matches!(report.event, UsbEvent::Increased { previous: 0, total: 1, .. }));
    assert!(report.alarm);
}

#[test]
fn usb_alarm_exactly_on_longer_listing() {
    let lengths = [2usize, 3, 3, 1, 4, 4, 0, 0, 5];
    let mut mon = USBMon::new(Settings::new());
    for (k, len) in lengths.iter().enumerate() {
        let listing: Vec<String> = (0..*len).map(|i| format!("dev{}", i)).collect();
        let report = mon.check(listing);
        let expected = k >= 1 && lengths[k] > lengths[k - 1];
        assert_eq!(report.alarm, expected, "check {}", k);
    }
}

#[test]
fn last_new_device_is_reported() {
    let got = last_absent_of(&devices(&["a", "x", "b", "y"]), &devices(&["a", "b"]));
    assert_eq!(got, "y");
    assert_eq!(last_absent_of(&devices(&["a"]), &devices(&["a"])), "");
}

#[test]
fn device_listing_joins_both_commands() {
    let listing = device_listing(Some("S: Sysfs=/a\nS: Sysfs=/b\n"), Some("Logitech Mouse\n\nHub\n"));
    assert_eq!(listing, devices(&["S: Sysfs=/a", "S: Sysfs=/b", "Logitech Mouse", "Hub"]));
    assert_eq!(device_listing(None, Some("Hub")), devices(&["Hub"]));
    assert!(device_listing(None, None).is_empty());
}

#[test]
fn physical_names_are_last_words() {
    let names = physical_device_names("S: Sysfs=/devices/a\nS: Sysfs=/devices/b \n\nX: one two");
    assert_eq!(names, devices(&["Sysfs=/devices/a", "two"]));
}

#[test]
fn usb_alarm_reads_reboot_then_notify() {
    let s = settings_of(&[
        ("reboot_on_increase_of_usb_devices", "false"),
        ("notify_on_increase_of_usb_devices", "TRUE"),
    ]);
    let a = usb_alarm_actions(&s).unwrap();
    assert!(!a.reboot);
    assert!(a.notify.unwrap());
    assert!(matches!(a.unmount, Err(ConfigError::MissingKey(k)) if k == "unmount_crypt_on_increase_of_usb_devices"));
    let all = settings_of(&[
        ("reboot_on_increase_of_usb_devices", "false"),
        ("notify_on_increase_of_usb_devices", "false"),
        ("unmount_crypt_on_increase_of_usb_devices", "True"),
    ]);
    assert!(usb_alarm_actions(&all).unwrap().unmount.unwrap());
    let only_reboot = settings_of(&[("reboot_on_increase_of_usb_devices", "true")]);
    let a = usb_alarm_actions(&only_reboot).unwrap();
    assert!(a.reboot);
    assert!(matches!(a.notify, Err(ConfigError::MissingKey(_))));
    assert!(usb_alarm_actions(&Settings::new()).is_err());
}

#[test]
fn network_monitor_follows_the_ping() {
    let record = SocketRecord {
        protocol: SocketProtocol::Udp,
        local_addr: "0.0.0.0".to_string(),
        local_port: 68,
        remote: None,
        associated_pids: vec![1],
        tcp_state: None,
    };
    let mut mon = NETMon::new(Settings::new(), vec![record]);
    assert_eq!(mon.state.len(), 1);
    assert_eq!(mon.state[0].local_port, 68);
    assert!(!mon.check(Some(true)));
    assert!(mon.check(Some(false)));
    assert!(mon.check(None));
    assert!(mon.triggered);
    assert!(!mon.check(Some(true)));
    assert!(!mon.check(None));
}

#[test]
fn burn_monitor_reads_its_target() {
    let s = settings_of(&[
        ("ssh_check_burn_host", "hostname"),
        ("ssh_check_burn_user", "root"),
        ("ssh_check_burn_key", "/home/user/.ssh/id_rsa"),
        ("ssh_check_burn_path", "/root/.config/burn"),
        ("unmount_crypt_on_file_burn", "true"),
    ]);
    let mon = SSHBurnMon::new(s);
    assert!(!mon.triggered);
    let t = mon.burn_file_target().unwrap();
    assert_eq!(t.host, "hostname");
    assert_eq!(t.user, "root");
    assert_eq!(t.key, "/home/user/.ssh/id_rsa");
    assert_eq!(t.path, "/root/.config/burn");
    assert!(burn_alarm_unmounts(&mon.settings_map).unwrap());
    let partial = SSHBurnMon::new(settings_of(&[("ssh_check_burn_host", "h")]));
    assert!(matches!(partial.burn_file_target(), Err(ConfigError::MissingKey(k)) if k == "ssh_check_burn_user"));
    assert!(burn_alarm_unmounts(&partial.settings_map).is_err());
}

#[test]
fn burn_file_found_raises_alarm() {
    assert_eq!(burn_file_found(Some(0)), Some(true));
    assert_eq!(burn_file_found(Some(1)), Some(false));
    assert_eq!(burn_file_found(Some(255)), None);
    assert_eq!(burn_file_found(None), None);
    let mut mon = SSHBurnMon::new(Settings::new());
    assert!(!mon.check(Some(false)));
    assert!(mon.check(Some(true)));
    assert!(mon.check(None));
    assert!(!mon.check(Some(false)));
}

#[test]
fn discord_message_names_the_host() {
    assert_eq!(discord_message("USB triggered", Some("box\n"), ""), "USB triggered Hostname: box\n :: ");
    assert_eq!(discord_message("System rebooting", None, "x"), "System rebooting");
    let s = settings_of(&[("discord_webhook_url", "https://discord.com/api/webhooks/1"), ("discord_webhook_avatar_name", "Lazarus")]);
    let t = discord_target(&s).unwrap();
    assert_eq!(t.url, "https://discord.com/api/webhooks/1");
    assert_eq!(t.avatar_name, "Lazarus");
    assert!(matches!(discord_target(&Settings::new()), Err(ConfigError::MissingKey(k)) if k == "discord_webhook_url"));
}

#[test]
fn encrypted_volume_plan() {
    let listing = "luks-1\t(253:0)\nluks-2 (253:1)\n";
    assert!(dmsetup_listing_complete(listing));
    assert_eq!(luks_volume_names(listing), devices(&["luks-1", "luks-2"]));
    assert!(!dmsetup_listing_complete("luks-1 (253:0)\n   \n"));
    assert!(dmsetup_listing_complete(""));
    let mounts = "/dev/mapper/luks-1 /home ext4 rw 0 0\nproc /proc proc rw 0 0\n/dev/mapper/luks-1 /data xfs rw 0 0\n";
    assert!(mounts_listing_complete(mounts, "luks-1"));
    assert_eq!(mount_points_of(mounts, "luks-1"), devices(&["/home", "/data"]));
    assert!(mount_points_of(mounts, "luks-2").is_empty());
    assert!(!mounts_listing_complete("luks-1\n", "luks-1"));
    assert!(mounts_listing_complete("luks-1\n", "luks-2"));
}
