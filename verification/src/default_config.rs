//! Where the program keeps its files, and what it writes there when they are missing.
use vstd::prelude::*;
use vstd::string::*;
use crate::text::{eq_ignore_ascii_case, eq_ignore_case};

verus! {

/// The settings file written when none exists.
pub const DEFAULT_CONFIG: &'static str = r#"
## General settings
tick_delay_seconds = "5"
fs_tick_delay_seconds = "300"

### File System Integrity
fs_mon_path_variable = true
fs_mon_enabled = "true"
fs_mon_dir = ["/etc", "/bin", "$PATH"]
fs_mon_hash_type = "blake3"

### USB Monitor
usb_mon_enabled = "true"
reboot_on_increase_of_usb_devices = "false"
notify_on_increase_of_usb_devices = "true"
unmount_crypt_on_increase_of_usb_devices = "true"

### Burn File Monitor
burn_file_mon_enabled = "false"
unmount_crypt_on_file_burn = "true"
ssh_check_burn_host = "hostname"
ssh_check_burn_user = "root"
ssh_check_burn_key = "/home/user/.ssh/id_rsa"
ssh_check_burn_path = "/root/.config/burn"
ssh_check_burn_check_interval = "30"
burn_path_1 = "/root/test/"

### Network Monitor
net_mon_enabled = "false"

######## Notification settings
discord_webhook_url = "https://discord.com/api/webhooks/"
discord_webhook_avatar_name = "Lazarus"
"#;

/// The blacklist of the file monitor written when none exists.
pub const DEFAULT_BLACKLIST: &'static str = r#"
/etc/mtab
/etc/cups
"#;

/// The systemd unit that runs the program as a service.
pub const SERVICE_FILE: &'static str = r#"
[Unit]
Description=Boobytrap

[Service]
Type=simple
User=root
Group=root
ExecStart=/root/.cargo/bin/boobytrap

[Install]
WantedBy=multi-user.target
    "#;

/// Where the systemd unit is written.
pub const SERVICE_FILE_PATH: &'static str = "/etc/systemd/system/boobytrap.service";

/// The settings file written when none exists.
pub fn default_config() -> (s: &'static str)
    ensures
        s@ == DEFAULT_CONFIG@,
{
    DEFAULT_CONFIG
}

/// The blacklist written when none exists.
pub fn default_blacklist() -> (s: &'static str)
    ensures
        s@ == DEFAULT_BLACKLIST@,
{
    DEFAULT_BLACKLIST
}

/// The systemd unit of the service.
pub fn service_file() -> (s: &'static str)
    ensures
        s@ == SERVICE_FILE@,
{
    SERVICE_FILE
}

/// Whether `user` is the superuser, whose name is compared up to ASCII case.
pub open spec fn is_root(user: Seq<char>) -> bool {
    eq_ignore_case(user, "root"@)
}

/// The directory of the program's files for `user`.
pub open spec fn cache_dir_spec(user: Seq<char>) -> Seq<char> {
    if is_root(user) {
        "/root/.config/boobytrap/"@
    } else {
        "/home/"@ + user + "/.config/boobytrap/"@
    }
}

/// Whether `user` is the superuser.
pub fn user_is_root(user: &str) -> (b: bool)
    ensures
        b == is_root(user@),
{
    eq_ignore_ascii_case(user, "root")
}

/// The directory of the program's files for `user`: under `/root` for the
/// superuser, under `/home/<user>` for anyone else.
pub fn cache_dir_for_user(user: &str) -> (dir: String)
    ensures
        dir@ == cache_dir_spec(user@),
{
    if user_is_root(user) {
        String::from_str("/root/.config/boobytrap/")
    } else {
        let mut dir = String::from_str("/home/");
        dir.append(user);
        dir.append("/.config/boobytrap/");
        dir
    }
}

/// The directory that holds the settings and the blacklist: the `config/`
/// directory inside the program's directory.
pub fn config_dir_for_user(user: &str) -> (dir: String)
    ensures
        dir@ == cache_dir_spec(user@) + "config/"@,
{
    let mut dir = cache_dir_for_user(user);
    dir.append("config/");
    dir
}

/// The settings file inside the program's directory `cache_dir`.
pub fn settings_file_path(cache_dir: &str) -> (p: String)
    ensures
        p@ == cache_dir@ + "config/Settings.toml"@,
{
    let mut p = String::from_str(cache_dir);
    p.append("config/Settings.toml");
    p
}

/// The blacklist file inside the program's directory `cache_dir`.
pub fn blacklist_file_path(cache_dir: &str) -> (p: String)
    ensures
        p@ == cache_dir@ + "config/file_mon_blacklist"@,
{
    let mut p = String::from_str(cache_dir);
    p.append("config/file_mon_blacklist");
    p
}

} // verus!
