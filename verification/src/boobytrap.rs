//! The monitors that the program runs, which of them the settings enable, and
//! when the file monitor's turn comes.
use vstd::prelude::*;
use crate::monitors::devices::USBMon;
use crate::monitors::filechanges::FileChanges;
use crate::monitors::network::NETMon;
use crate::monitors::ssh_burn_file::SSHBurnMon;
use crate::settings::{error_parts, flag_of, missing_text_error, parse_u64_spec_of, text_of, ConfigError, ConfigErrorKind, Settings};

verus! {

/// A monitor that looks at something at each tick and reports what it saw.
/// The looking itself (running a command, pinging a host, hashing files) is
/// done by the caller, which hands the monitor what it observed.
pub trait EventMonitor {
    /// What the caller observed for the monitor.
    type Observation;

    /// What the monitor concludes.
    type Report;

    /// Takes one observation, updates the monitor's state and reports.
    fn check(&mut self, observation: Self::Observation) -> Self::Report;
}

/// The kinds of monitor.
#[derive(Clone, Copy, Debug, PartialEq, Eq, Structural)]
pub enum MonitorKind {
    Usb,
    Net,
    SshBurn,
    FileChanges,
}

/// One running monitor.
pub enum Monitors {
    USBMon(USBMon),
    NetMon(NETMon),
    SSHBurnMon(SSHBurnMon),
    FileChanges(FileChanges),
}

/// The state of the program: its monitors and its settings.
pub struct AppState {
    pub mon_usb: bool,
    pub detection_triggered: bool,
    pub monitors: Vec<Monitors>,
    pub settings_map: Settings,
}

/// The flags that enable the monitors, in the order in which they are read.
pub open spec fn monitor_flag(k: int) -> Seq<char> {
    if k == 0 {
        "usb_mon_enabled"@
    } else if k == 1 {
        "net_mon_enabled"@
    } else if k == 2 {
        "burn_file_mon_enabled"@
    } else {
        "fs_mon_enabled"@
    }
}

/// The kind of monitor that the `k`-th flag enables.
pub open spec fn monitor_of_flag(k: int) -> MonitorKind {
    if k == 0 {
        MonitorKind::Usb
    } else if k == 1 {
        MonitorKind::Net
    } else if k == 2 {
        MonitorKind::SshBurn
    } else {
        MonitorKind::FileChanges
    }
}

/// The monitors that the first `k` flags enable, in flag order.
pub open spec fn enabled_among(entries: Seq<(String, crate::settings::SettingValue)>, k: int) -> Seq<MonitorKind>
    decreases k,
{
    if k <= 0 {
        Seq::empty()
    } else if flag_of(entries, monitor_flag(k - 1)) == Some(true) {
        enabled_among(entries, k - 1).push(monitor_of_flag(k - 1))
    } else {
        enabled_among(entries, k - 1)
    }
}

/// `m` alone where the flag reads "true" up to ASCII case; nothing otherwise.
pub open spec fn when_on(flag: Option<bool>, m: MonitorKind) -> Seq<MonitorKind> {
    if flag == Some(true) {
        seq![m]
    } else {
        Seq::empty()
    }
}

/// Law: each monitor runs exactly when its own flag reads "true" up to ASCII
/// case: the USB monitor by `usb_mon_enabled`, the network monitor by
/// `net_mon_enabled`, the burn file monitor by `burn_file_mon_enabled` and the
/// file monitor by `fs_mon_enabled`; they come in that order, each at most once.
pub proof fn law_enabled_by_own_flag(entries: Seq<(String, crate::settings::SettingValue)>)
    ensures
        enabled_among(entries, 4) == when_on(flag_of(entries, "usb_mon_enabled"@), MonitorKind::Usb)
            + when_on(flag_of(entries, "net_mon_enabled"@), MonitorKind::Net)
            + when_on(flag_of(entries, "burn_file_mon_enabled"@), MonitorKind::SshBurn)
            + when_on(flag_of(entries, "fs_mon_enabled"@), MonitorKind::FileChanges),
        enabled_among(entries, 4).contains(MonitorKind::Usb)
            <==> flag_of(entries, "usb_mon_enabled"@) == Some(true),
        enabled_among(entries, 4).contains(MonitorKind::Net)
            <==> flag_of(entries, "net_mon_enabled"@) == Some(true),
        enabled_among(entries, 4).contains(MonitorKind::SshBurn)
            <==> flag_of(entries, "burn_file_mon_enabled"@) == Some(true),
        enabled_among(entries, 4).contains(MonitorKind::FileChanges)
            <==> flag_of(entries, "fs_mon_enabled"@) == Some(true),
{
    reveal_with_fuel(enabled_among, 5);
    let a = when_on(flag_of(entries, "usb_mon_enabled"@), MonitorKind::Usb);
    let b = when_on(flag_of(entries, "net_mon_enabled"@), MonitorKind::Net);
    let c = when_on(flag_of(entries, "burn_file_mon_enabled"@), MonitorKind::SshBurn);
    let d = when_on(flag_of(entries, "fs_mon_enabled"@), MonitorKind::FileChanges);
    assert(enabled_among(entries, 1) =~= a);
    assert(enabled_among(entries, 2) =~= a + b);
    assert(enabled_among(entries, 3) =~= a + b + c);
    assert(enabled_among(entries, 4) =~= a + b + c + d);
    let all = a + b + c + d;
    let kinds = seq![MonitorKind::Usb, MonitorKind::Net, MonitorKind::SshBurn, MonitorKind::FileChanges];
    let parts = seq![a, b, c, d];
    assert forall|k: int| 0 <= k < 4 implies
        (all.contains(kinds[k]) <==> #[trigger] parts[k].len() == 1) by {
        let m = kinds[k];
        if parts[k].len() == 1 {
            assert(parts[k][0] == m);
            if k == 0 {
                assert(all[0] == m);
            } else if k == 1 {
                assert(all[a.len() as int] == m);
            } else if k == 2 {
                assert(all[(a.len() + b.len()) as int] == m);
            } else {
                assert(all[(a.len() + b.len() + c.len()) as int] == m);
            }
        }
        if all.contains(m) {
            let i = choose|i: int| 0 <= i < all.len() && all[i] == m;
            if i < a.len() {
                assert(all[i] == a[i]);
            } else if i < a.len() + b.len() {
                assert(all[i] == b[i - a.len()]);
            } else if i < a.len() + b.len() + c.len() {
                assert(all[i] == c[i - a.len() - b.len()]);
            } else {
                assert(all[i] == d[i - a.len() - b.len() - c.len()]);
            }
        }
    }
    assert(kinds[0] == MonitorKind::Usb && parts[0] == a);
    assert(kinds[1] == MonitorKind::Net && parts[1] == b);
    assert(kinds[2] == MonitorKind::SshBurn && parts[2] == c);
    assert(kinds[3] == MonitorKind::FileChanges && parts[3] == d);
}

/// The monitors that the settings enable: the USB, network, burn file and
/// file monitors, in that order, each where its flag reads "true" up to ASCII
/// case. The first flag that cannot be read gives the error.
pub fn enabled_monitors(settings_map: &Settings) -> (r: Result<Vec<MonitorKind>, ConfigError>)
    ensures
        match r {
            Ok(v) => {
                &&& forall|k: int| 0 <= k < 4 ==> #[trigger] flag_of(settings_map.entries@, monitor_flag(k)) is Some
                &&& v@ == enabled_among(settings_map.entries@, 4)
                &&& v@ == when_on(flag_of(settings_map.entries@, "usb_mon_enabled"@), MonitorKind::Usb)
                    + when_on(flag_of(settings_map.entries@, "net_mon_enabled"@), MonitorKind::Net)
                    + when_on(flag_of(settings_map.entries@, "burn_file_mon_enabled"@), MonitorKind::SshBurn)
                    + when_on(flag_of(settings_map.entries@, "fs_mon_enabled"@), MonitorKind::FileChanges)
            },
            Err(e) => exists|k: int|
                0 <= k < 4 && (forall|j: int| 0 <= j < k ==> #[trigger] flag_of(settings_map.entries@, monitor_flag(j)) is Some)
                    && missing_text_error(settings_map.entries@, #[trigger] monitor_flag(k), e),
        },
{
    let ghost es = settings_map.entries@;
    let mut v: Vec<MonitorKind> = Vec::new();
    assert(v@ =~= enabled_among(es, 0));
    let usb = match settings_map.is_enabled("usb_mon_enabled") {
        Ok(b) => b,
        Err(e) => {
            assert(missing_text_error(es, monitor_flag(0), e));
            return Err(e);
        },
    };
    if usb {
        v.push(MonitorKind::Usb);
    }
    assert(flag_of(es, monitor_flag(0)) == Some(usb));
    assert(v@ =~= enabled_among(es, 1));
    let net = match settings_map.is_enabled("net_mon_enabled") {
        Ok(b) => b,
        Err(e) => {
            assert(flag_of(es, monitor_flag(0)) is Some);
            assert(missing_text_error(es, monitor_flag(1), e));
            return Err(e);
        },
    };
    if net {
        v.push(MonitorKind::Net);
    }
    assert(flag_of(es, monitor_flag(1)) == Some(net));
    assert(v@ =~= enabled_among(es, 2));
    let burn = match settings_map.is_enabled("burn_file_mon_enabled") {
        Ok(b) => b,
        Err(e) => {
            assert(flag_of(es, monitor_flag(0)) is Some);
            assert(flag_of(es, monitor_flag(1)) is Some);
            assert(missing_text_error(es, monitor_flag(2), e));
            return Err(e);
        },
    };
    if burn {
        v.push(MonitorKind::SshBurn);
    }
    assert(flag_of(es, monitor_flag(2)) == Some(burn));
    assert(v@ =~= enabled_among(es, 3));
    let fs = match settings_map.is_enabled("fs_mon_enabled") {
        Ok(b) => b,
        Err(e) => {
            assert(flag_of(es, monitor_flag(0)) is Some);
            assert(flag_of(es, monitor_flag(1)) is Some);
            assert(flag_of(es, monitor_flag(2)) is Some);
            assert(missing_text_error(es, monitor_flag(3), e));
            return Err(e);
        },
    };
    if fs {
        v.push(MonitorKind::FileChanges);
    }
    assert(flag_of(es, monitor_flag(3)) == Some(fs));
    assert(v@ =~= enabled_among(es, 4));
    proof { law_enabled_by_own_flag(es); }
    assert(forall|k: int| 0 <= k < 4 ==> #[trigger] flag_of(es, monitor_flag(k)) is Some) by {
        assert(flag_of(es, monitor_flag(0)) is Some);
        assert(flag_of(es, monitor_flag(1)) is Some);
        assert(flag_of(es, monitor_flag(2)) is Some);
        assert(flag_of(es, monitor_flag(3)) is Some);
    }
    Ok(v)
}

impl AppState {
    /// The state before the settings are read: no monitors, nothing detected.
    pub fn new() -> (s: AppState)
        ensures
            s.mon_usb,
            !s.detection_triggered,
            s.monitors@.len() == 0,
            s.settings_map.entries@.len() == 0,
    {
        AppState {
            mon_usb: true,
            detection_triggered: false,
            monitors: Vec::new(),
            settings_map: Settings::new(),
        }
    }

    /// Installs the settings that were read and the monitors built from them.
    pub fn apply_config(&mut self, settings_map: Settings, monitors: Vec<Monitors>)
        ensures
            final(self).settings_map == settings_map,
            final(self).monitors == monitors,
            final(self).mon_usb == old(self).mon_usb,
            final(self).detection_triggered == old(self).detection_triggered,
    {
        self.settings_map = settings_map;
        self.monitors = monitors;
    }
}

/// When the monitors run: every `tick_seconds` one monitor is checked, and the
/// file monitor only once more than `fs_tick_seconds` whole seconds have
/// passed since its last check. Times are in nanoseconds since the epoch.
#[derive(Clone, Copy, Debug)]
pub struct RunSchedule {
    pub tick_seconds: u64,
    pub fs_tick_seconds: u64,
    pub last_fs_check: u64,
}

impl RunSchedule {
    /// The schedule that the settings give, starting at `now` (in nanoseconds):
    /// `fs_tick_delay_seconds` is read first, then `tick_delay_seconds`.
    pub fn from_settings(settings_map: &Settings, now: u64) -> (r: Result<RunSchedule, ConfigError>)
        ensures
            match r {
                Ok(s) => {
                    &&& parse_u64_spec_of(settings_map.entries@, "fs_tick_delay_seconds"@) == Some(s.fs_tick_seconds)
                    &&& parse_u64_spec_of(settings_map.entries@, "tick_delay_seconds"@) == Some(s.tick_seconds)
                    &&& s.last_fs_check == now
                },
                Err(e) => {
                    ||| (parse_u64_spec_of(settings_map.entries@, "fs_tick_delay_seconds"@) is None
                        && error_parts(e).1 == "fs_tick_delay_seconds"@)
                    ||| (parse_u64_spec_of(settings_map.entries@, "fs_tick_delay_seconds"@) is Some
                        && parse_u64_spec_of(settings_map.entries@, "tick_delay_seconds"@) is None
                        && error_parts(e).1 == "tick_delay_seconds"@)
                },
            },
    {
        let fs_tick_seconds = settings_map.get_u64("fs_tick_delay_seconds")?;
        let tick_seconds = settings_map.get_u64("tick_delay_seconds")?;
        Ok(RunSchedule { tick_seconds, fs_tick_seconds, last_fs_check: now })
    }

    /// Whether the file monitor's turn has come at `now`: more than
    /// `fs_tick_seconds` whole seconds since its last check. When it has, `now` becomes the
    /// time of the last check.
    pub fn fs_check_due(&mut self, now: u64) -> (due: bool)
        requires
            old(self).last_fs_check <= now,
        ensures
            due == ((now - old(self).last_fs_check) / 1_000_000_000 > old(self).fs_tick_seconds),
            final(self).last_fs_check == if due { now } else { old(self).last_fs_check },
            final(self).tick_seconds == old(self).tick_seconds,
            final(self).fs_tick_seconds == old(self).fs_tick_seconds,
    {
        let due = (now - self.last_fs_check) / 1_000_000_000 > self.fs_tick_seconds;
        if due {
            self.last_fs_check = now;
        }
        due
    }
}

impl Monitors {
    /// The kind of this monitor.
    pub fn kind(&self) -> (k: MonitorKind)
        ensures
            k == match self {
                Monitors::USBMon(_) => MonitorKind::Usb,
                Monitors::NetMon(_) => MonitorKind::Net,
                Monitors::SSHBurnMon(_) => MonitorKind::SshBurn,
                Monitors::FileChanges(_) => MonitorKind::FileChanges,
            },
    {
        match self {
            Monitors::USBMon(_) => MonitorKind::Usb,
            Monitors::NetMon(_) => MonitorKind::Net,
            Monitors::SSHBurnMon(_) => MonitorKind::SshBurn,
            Monitors::FileChanges(_) => MonitorKind::FileChanges,
        }
    }
}

/// Where the run is: the schedule, and the monitor to visit next.
#[derive(Clone, Copy, Debug)]
pub struct RunRound {
    pub schedule: RunSchedule,
    pub next: usize,
}

/// The monitor visited after `k` more visits from `next`, among `count`.
pub open spec fn visited_after(next: nat, count: nat, k: nat) -> nat
    decreases k,
{
    if k == 0 {
        next % count
    } else {
        visited_after((next % count + 1) % count, count, (k - 1) as nat)
    }
}

/// Law: the monitors are visited in list order, round after round: the
/// visit `k` visits after the one at `next` is at `(next + k) % count`.
pub proof fn law_round_robin(next: nat, count: nat, k: nat)
    requires
        count > 0,
    ensures
        visited_after(next, count, k) == (next + k) % count,
    decreases k,
{
    if k > 0 {
        let c = count as int;
        let n1 = (next % count + 1) % count;
        law_round_robin(n1, count, (k - 1) as nat);
        vstd::arithmetic::div_mod::lemma_add_mod_noop_right((k - 1) as int, (next % count + 1) as int, c);
        vstd::arithmetic::div_mod::lemma_add_mod_noop_right(k as int, next as int, c);
        assert(((k - 1) + (next % count + 1)) == k + next % count);
    }
}

impl RunRound {
    /// A run that starts at the first monitor.
    pub fn new(schedule: RunSchedule) -> (r: RunRound)
        ensures
            r.schedule == schedule,
            r.next == 0,
    {
        RunRound { schedule, next: 0 }
    }

    /// The monitor to visit among `count`: the one after the last visited,
    /// in list order, round after round; none where there are no monitors.
    pub fn next_visit(&mut self, count: usize) -> (i: Option<usize>)
        ensures
            count == 0 ==> i is None && *final(self) == *old(self),
            count > 0 ==> i == Some((old(self).next % count) as usize) && final(self).next as int == (
            old(self).next % count + 1) as int % (count as int) && final(self).schedule == old(
                self,
            ).schedule,
    {
        if count == 0 {
            return None;
        }
        let i = self.next % count;
        self.next = (i + 1) % count;
        Some(i)
    }

    /// Whether the visited monitor of kind `kind` is checked at `now`: every
    /// monitor but the file monitor always; the file monitor when its turn
    /// has come, which then starts its next interval.
    pub fn checks(&mut self, kind: MonitorKind, now: u64) -> (check: bool)
        requires
            kind == MonitorKind::FileChanges ==> old(self).schedule.last_fs_check <= now,
        ensures
            kind != MonitorKind::FileChanges ==> check && *final(self) == *old(self),
            kind == MonitorKind::FileChanges ==> {
                &&& check == ((now - old(self).schedule.last_fs_check) / 1_000_000_000
                    > old(self).schedule.fs_tick_seconds)
                &&& final(self).schedule.last_fs_check == if check {
                    now
                } else {
                    old(self).schedule.last_fs_check
                }
                &&& final(self).schedule.tick_seconds == old(self).schedule.tick_seconds
                &&& final(self).schedule.fs_tick_seconds == old(self).schedule.fs_tick_seconds
                &&& final(self).next == old(self).next
            },
    {
        match kind {
            MonitorKind::FileChanges => self.schedule.fs_check_due(now),
            _ => true,
        }
    }
}

} // verus!
