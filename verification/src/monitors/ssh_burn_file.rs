//! The burn file monitor: it looks over SSH for a file whose presence means
//! the machine is to be treated as compromised.
use vstd::prelude::*;
use crate::boobytrap::EventMonitor;
use crate::settings::{flag_of, missing_text_error, text_of, ConfigError, Settings};

verus! {

/// The state of the burn file monitor.
pub struct SSHBurnMon {
    pub triggered: bool,
    pub settings_map: Settings,
}

/// Where the burn file is looked for: host, user, key file and path.
#[derive(Clone, Debug)]
pub struct BurnFileTarget {
    pub host: String,
    pub user: String,
    pub key: String,
    pub path: String,
}

impl SSHBurnMon {
    /// A burn file monitor that has not raised the alarm.
    pub fn new(settings_map: Settings) -> (m: SSHBurnMon)
        ensures
            !m.triggered,
            m.settings_map == settings_map,
    {
        SSHBurnMon { triggered: false, settings_map }
    }

    /// Where to look for the burn file: `ssh_check_burn_host`,
    /// `ssh_check_burn_user`, `ssh_check_burn_key` and `ssh_check_burn_path`,
    /// read in that order; the first that is missing gives the error.
    pub fn burn_file_target(&self) -> (r: Result<BurnFileTarget, ConfigError>)
        ensures
            ({
                let e = self.settings_map.entries@;
                match r {
                    Ok(t) => {
                        &&& text_of(e, "ssh_check_burn_host"@) == Some(t.host@)
                        &&& text_of(e, "ssh_check_burn_user"@) == Some(t.user@)
                        &&& text_of(e, "ssh_check_burn_key"@) == Some(t.key@)
                        &&& text_of(e, "ssh_check_burn_path"@) == Some(t.path@)
                    },
                    Err(err) => {
                        ||| missing_text_error(e, "ssh_check_burn_host"@, err)
                        ||| (text_of(e, "ssh_check_burn_host"@) is Some && missing_text_error(
                            e,
                            "ssh_check_burn_user"@,
                            err,
                        ))
                        ||| (text_of(e, "ssh_check_burn_host"@) is Some && text_of(
                            e,
                            "ssh_check_burn_user"@,
                        ) is Some && missing_text_error(e, "ssh_check_burn_key"@, err))
                        ||| (text_of(e, "ssh_check_burn_host"@) is Some && text_of(
                            e,
                            "ssh_check_burn_user"@,
                        ) is Some && text_of(e, "ssh_check_burn_key"@) is Some
                            && missing_text_error(e, "ssh_check_burn_path"@, err))
                    },
                }
            }),
    {
        let host = self.settings_map.get_text("ssh_check_burn_host")?;
        let user = self.settings_map.get_text("ssh_check_burn_user")?;
        let key = self.settings_map.get_text("ssh_check_burn_key")?;
        let path = self.settings_map.get_text("ssh_check_burn_path")?;
        Ok(BurnFileTarget { host, user, key, path })
    }
}

/// Whether the burn file was found, from the exit code of the remote
/// `test -e <path>`: 0 found, 1 not found; anything else, or no exit code,
/// means the look itself failed.
pub fn burn_file_found(exit_code: Option<i32>) -> (r: Option<bool>)
    ensures
        r == match exit_code {
            Some(0) => Some(true),
            Some(1) => Some(false),
            _ => None::<bool>,
        },
{
    match exit_code {
        Some(0) => Some(true),
        Some(1) => Some(false),
        _ => None,
    }
}

/// What the alarm does: close the encrypted volumes if
/// `unmount_crypt_on_file_burn` reads "true".
pub fn burn_alarm_unmounts(settings_map: &Settings) -> (r: Result<bool, ConfigError>)
    ensures
        match r {
            Ok(b) => flag_of(settings_map.entries@, "unmount_crypt_on_file_burn"@) == Some(b),
            Err(e) => missing_text_error(settings_map.entries@, "unmount_crypt_on_file_burn"@, e),
        },
{
    settings_map.is_enabled("unmount_crypt_on_file_burn")
}

impl EventMonitor for SSHBurnMon {
    /// Whether the burn file was found; `None` where the look failed.
    type Observation = Option<bool>;

    /// Whether the alarm goes off.
    type Report = bool;

    /// The monitor is triggered while the burn file is there; a failed look
    /// leaves it as it was. The alarm goes off whenever it is triggered.
    fn check(&mut self, found: Option<bool>) -> (alarm: bool)
        ensures
            final(self).triggered == match found {
                Some(b) => b,
                None => old(self).triggered,
            },
            alarm == final(self).triggered,
            final(self).settings_map == old(self).settings_map,
    {
        if let Some(b) = found {
            self.triggered = b;
        }
        self.triggered
    }
}

} // verus!
