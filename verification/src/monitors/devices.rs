//! The USB monitor: it compares each listing of the attached input and USB
//! devices with the one before, and raises the alarm when their number grows.
use vstd::prelude::*;
use vstd::string::*;
use crate::boobytrap::EventMonitor;
use crate::settings::{flag_of, missing_text_error, ConfigError, Settings};
use crate::text::{contains_string, nonempty, nonempty_pieces, split_on, views, Sep};

verus! {

/// The state of the USB monitor between two checks.
pub struct USBMon {
    pub triggered: bool,
    /// Whether a first listing has been taken.
    pub started: bool,
    pub devices: Vec<String>,
    pub total_devices: usize,
    pub last_check: usize,
    pub settings_map: Settings,
}

/// What a check saw.
#[derive(Clone, Debug)]
pub enum UsbEvent {
    /// The first listing: it is taken as the known set of devices.
    Started { total: usize },
    /// More devices than in the previous listing.
    Increased { previous: usize, total: usize, new_device: String, missing_device: String },
    /// Fewer devices than in the previous listing.
    Decreased { previous: usize, total: usize, new_device: String, missing_device: String },
    /// As many devices as in the previous listing.
    Unchanged,
}

/// The outcome of a check: what it saw, and whether the alarm goes off.
#[derive(Clone, Debug)]
pub struct UsbReport {
    pub event: UsbEvent,
    pub alarm: bool,
    /// The device count after the check.
    pub total_devices: usize,
    /// The last device of the new listing that the old one lacked; empty if none.
    pub new_device: String,
}

/// What the alarm does: whether to reboot, and (read after that) whether to
/// notify and whether to close the encrypted volumes.
#[derive(Debug)]
pub struct UsbActions {
    pub reboot: bool,
    pub notify: Result<bool, ConfigError>,
    pub unmount: Result<bool, ConfigError>,
}

/// The last member of `xs` that `ys` does not hold; empty if there is none.
pub open spec fn last_absent(xs: Seq<Seq<char>>, ys: Seq<Seq<char>>) -> Seq<char>
    decreases xs.len(),
{
    if xs.len() == 0 {
        Seq::empty()
    } else if !ys.contains(xs.last()) {
        xs.last()
    } else {
        last_absent(xs.drop_last(), ys)
    }
}

/// Law: where every member of `xs` is in `ys`, nothing is named; where one is
/// not, the name is a member of `xs` at some place that `ys` lacks, and `ys`
/// holds every member of `xs` after that place: the new device that a check
/// names is the last one of the listing that the previous listing lacked.
pub proof fn law_last_absent(xs: Seq<Seq<char>>, ys: Seq<Seq<char>>)
    ensures
        (forall|i: int| 0 <= i < xs.len() ==> ys.contains(#[trigger] xs[i])) ==> last_absent(xs, ys)
            == Seq::<char>::empty(),
        (exists|i: int| 0 <= i < xs.len() && !ys.contains(#[trigger] xs[i])) ==> exists|i: int|
            0 <= i < xs.len() && #[trigger] xs[i] == last_absent(xs, ys) && !ys.contains(xs[i])
                && forall|j: int| i < j < xs.len() ==> ys.contains(#[trigger] xs[j]),
    decreases xs.len(),
{
    if xs.len() > 0 {
        let n = xs.len() - 1;
        let init = xs.drop_last();
        law_last_absent(init, ys);
        assert(xs[n] == xs.last());
        assert forall|i: int| 0 <= i < init.len() implies #[trigger] init[i] == xs[i] by {}
        if ys.contains(xs.last()) {
            if exists|i: int| 0 <= i < xs.len() && !ys.contains(#[trigger] xs[i]) {
                let i = choose|i: int| 0 <= i < xs.len() && !ys.contains(#[trigger] xs[i]);
                assert(i < n);
                assert(!ys.contains(init[i]));
                let w = choose|w: int|
                    0 <= w < init.len() && #[trigger] init[w] == last_absent(init, ys) && !ys.contains(init[w])
                        && forall|j: int| w < j < init.len() ==> ys.contains(#[trigger] init[j]);
                assert(xs[w] == last_absent(xs, ys));
                assert forall|j: int| w < j < xs.len() implies ys.contains(#[trigger] xs[j]) by {
                    if j < n {
                        assert(init[j] == xs[j]);
                    }
                }
            }
            if forall|i: int| 0 <= i < xs.len() ==> ys.contains(#[trigger] xs[i]) {
                assert forall|i: int| 0 <= i < init.len() implies ys.contains(#[trigger] init[i]) by {
                    assert(init[i] == xs[i]);
                }
            }
        } else {
            assert(xs[n] == last_absent(xs, ys));
        }
    }
}

/// The last member of `xs` that `ys` does not hold; empty if there is none.
pub fn last_absent_of(xs: &Vec<String>, ys: &Vec<String>) -> (r: String)
    ensures
        r@ == last_absent(views(xs@), views(ys@)),
{
    let mut r = String::new();
    let n = xs.len();
    let mut i: usize = 0;
    while i < n
        invariant
            n == xs@.len(),
            i <= n,
            r@ == last_absent(views(xs@).take(i as int), views(ys@)),
        decreases n - i,
    {
        assert(views(xs@).take(i + 1).drop_last() =~= views(xs@).take(i as int));
        assert(views(xs@).take(i + 1).last() == xs@[i as int]@);
        if !contains_string(ys, xs[i].as_str()) {
            r = xs[i].clone();
        }
        i = i + 1;
    }
    assert(views(xs@).take(n as int) =~= views(xs@));
    r
}

/// The devices named in the outputs of the two listing commands, the input
/// devices first: each non-empty line is one device. A command that could not
/// be run lists nothing.
pub open spec fn listing_spec(input_devices: Option<Seq<char>>, usb_devices: Option<Seq<char>>) -> Seq<
    Seq<char>,
> {
    let a = match input_devices {
        Some(t) => nonempty(split_on(t, '\n')),
        None => Seq::empty(),
    };
    let b = match usb_devices {
        Some(t) => nonempty(split_on(t, '\n')),
        None => Seq::empty(),
    };
    a + b
}

/// The non-empty lines of a command's output, none if it could not be run.
fn listed_devices(output: Option<&str>) -> (v: Vec<String>)
    ensures
        views(v@) == match output {
            Some(t) => nonempty(split_on(t@, '\n')),
            None => Seq::empty(),
        },
{
    match output {
        Some(t) => nonempty_pieces(t, Sep::Char('\n')),
        None => {
            let v = Vec::new();
            assert(views(v@) =~= Seq::empty());
            v
        },
    }
}

/// The devices that the two listings name, the input devices first.
pub fn device_listing(input_devices: Option<&str>, usb_devices: Option<&str>) -> (v: Vec<String>)
    ensures
        views(v@) == listing_spec(
            match input_devices {
                Some(t) => Some(t@),
                None => None,
            },
            match usb_devices {
                Some(t) => Some(t@),
                None => None,
            },
        ),
{
    let mut a = listed_devices(input_devices);
    let mut b = listed_devices(usb_devices);
    let ghost va = views(a@);
    let ghost vb = views(b@);
    a.append(&mut b);
    assert(views(a@) =~= va + vb);
    a
}

/// The device names of an input device listing in the older format: the last
/// space-separated word of each line, where that word is not empty.
pub open spec fn last_words(lines: Seq<Seq<char>>) -> Seq<Seq<char>>
    decreases lines.len(),
{
    if lines.len() == 0 {
        Seq::empty()
    } else {
        let w = split_on(lines.last(), ' ').last();
        if w.len() == 0 {
            last_words(lines.drop_last())
        } else {
            last_words(lines.drop_last()).push(w)
        }
    }
}

/// Law: the device names are the last space-separated words of the lines,
/// one per line in line order, leaving out those that are empty.
pub proof fn law_last_words_per_line(lines: Seq<Seq<char>>)
    ensures
        last_words(lines) == lines.map_values(|l: Seq<char>| split_on(l, ' ').last()).filter(
            |w: Seq<char>| w.len() > 0,
        ),
    decreases lines.len(),
{
    reveal(Seq::filter);
    if lines.len() > 0 {
        law_last_words_per_line(lines.drop_last());
        let f = |l: Seq<char>| split_on(l, ' ').last();
        assert(lines.map_values(f).drop_last() =~= lines.drop_last().map_values(f));
        assert(lines.map_values(f).last() == split_on(lines.last(), ' ').last());
    }
}

/// The last space-separated word of each line of `output`, where it is not empty.
pub fn physical_device_names(output: &str) -> (v: Vec<String>)
    ensures
        views(v@) == last_words(split_on(output@, '\n')),
{
    let lines = crate::text::pieces(output, Sep::Char('\n'));
    let n = lines.len();
    let mut out: Vec<String> = Vec::new();
    let mut i: usize = 0;
    while i < n
        invariant
            n == lines@.len(),
            views(lines@) == split_on(output@, '\n'),
            i <= n,
            views(out@) == last_words(views(lines@).take(i as int)),
        decreases n - i,
    {
        let words = crate::text::pieces(lines[i].as_str(), Sep::Char(' '));
        proof { crate::text::lemma_split_with_len(lines@[i as int]@, Sep::Char(' ')); }
        let w = &words[words.len() - 1];
        assert(views(lines@).take(i + 1).drop_last() =~= views(lines@).take(i as int));
        assert(views(lines@).take(i + 1).last() == lines@[i as int]@);
        assert(w@ == views(words@).last());
        if !w.as_str().is_empty() {
            let ghost old_views = views(out@);
            out.push(w.clone());
            assert(views(out@) =~= old_views.push(w@));
        }
        i = i + 1;
    }
    assert(views(lines@).take(n as int) =~= views(lines@));
    out
}

impl USBMon {
    /// A monitor that has seen no listing yet.
    pub fn new(settings_map: Settings) -> (m: USBMon)
        ensures
            !m.triggered,
            !m.started,
            m.devices@.len() == 0,
            m.total_devices == 0,
            m.last_check == 0,
            m.settings_map == settings_map,
    {
        USBMon { triggered: false, started: false, devices: Vec::new(), total_devices: 0, last_check: 0, settings_map }
    }
}

/// What the alarm does: reboot if `reboot_on_increase_of_usb_devices` reads
/// "true", notify if `notify_on_increase_of_usb_devices` does, and close the
/// encrypted volumes if `unmount_crypt_on_increase_of_usb_devices` does; the
/// three flags are read in that order.
pub fn usb_alarm_actions(settings: &Settings) -> (r: Result<UsbActions, ConfigError>)
    ensures
        match r {
            Ok(a) => {
                &&& flag_of(settings.entries@, "reboot_on_increase_of_usb_devices"@) == Some(a.reboot)
                &&& match a.notify {
                    Ok(b) => flag_of(settings.entries@, "notify_on_increase_of_usb_devices"@) == Some(b),
                    Err(e) => missing_text_error(settings.entries@, "notify_on_increase_of_usb_devices"@, e),
                }
                &&& match a.unmount {
                    Ok(b) => flag_of(settings.entries@, "unmount_crypt_on_increase_of_usb_devices"@) == Some(b),
                    Err(e) => missing_text_error(settings.entries@, "unmount_crypt_on_increase_of_usb_devices"@, e),
                }
            },
            Err(e) => missing_text_error(settings.entries@, "reboot_on_increase_of_usb_devices"@, e),
        },
{
    let reboot = settings.is_enabled("reboot_on_increase_of_usb_devices")?;
    let notify = settings.is_enabled("notify_on_increase_of_usb_devices");
    let unmount = settings.is_enabled("unmount_crypt_on_increase_of_usb_devices");
    Ok(UsbActions { reboot, notify, unmount })
}

impl EventMonitor for USBMon {
    type Observation = Vec<String>;

    type Report = UsbReport;

    /// Takes the current device listing. The first listing becomes the known
    /// set. After that, a listing whose length differs from the previous one
    /// replaces the known set, and the alarm goes off exactly when it is
    /// longer. The count kept is always the length of the latest listing.
    fn check(&mut self, new_devices: Vec<String>) -> (r: UsbReport)
        ensures
            !final(self).triggered,
            final(self).started,
            final(self).settings_map == old(self).settings_map,
            final(self).total_devices == r.total_devices,
            final(self).last_check == new_devices@.len(),
            r.alarm == (old(self).triggered || (old(self).started && old(self).last_check < new_devices@.len())),
            ({
                let o = *old(self);
                let f = *final(self);
                let n = new_devices@.len();
                if !o.started {
                    &&& f.devices@ == new_devices@
                    &&& f.total_devices == n
                    &&& r.new_device@.len() == 0
                    &&& r.event == (UsbEvent::Started { total: n as usize })
                } else if o.last_check != n {
                    &&& f.devices@ == new_devices@
                    &&& f.total_devices == n
                    &&& r.new_device@ == last_absent(views(new_devices@), views(o.devices@))
                    &&& match r.event {
                        UsbEvent::Increased { previous, total, new_device, missing_device } => {
                            &&& o.last_check < n
                            &&& previous == o.last_check
                            &&& total == n
                            &&& new_device@ == r.new_device@
                            &&& missing_device@ == last_absent(views(o.devices@), views(new_devices@))
                        },
                        UsbEvent::Decreased { previous, total, new_device, missing_device } => {
                            &&& o.last_check > n
                            &&& previous == o.last_check
                            &&& total == n
                            &&& new_device@ == r.new_device@
                            &&& missing_device@ == last_absent(views(o.devices@), views(new_devices@))
                        },
                        _ => false,
                    }
                } else {
                    &&& f.devices@ == o.devices@
                    &&& f.total_devices == o.total_devices
                    &&& r.new_device@.len() == 0
                    &&& r.event is Unchanged
                }
            }),
    {
        let n = new_devices.len();
        let mut new_dev = String::new();
        let event;
        if !self.started {
            self.devices = new_devices;
            self.total_devices = n;
            self.last_check = n;
            self.started = true;
            event = UsbEvent::Started { total: n };
        } else if self.last_check != n {
            let previous = self.last_check;
            new_dev = last_absent_of(&new_devices, &self.devices);
            let miss_dev = last_absent_of(&self.devices, &new_devices);
            self.devices = new_devices;
            self.total_devices = n;
            self.last_check = n;
            if previous < n {
                self.triggered = true;
                event = UsbEvent::Increased { previous, total: n, new_device: new_dev.clone(), missing_device: miss_dev };
            } else {
                event = UsbEvent::Decreased { previous, total: n, new_device: new_dev.clone(), missing_device: miss_dev };
            }
        } else {
            event = UsbEvent::Unchanged;
        }
        let alarm = self.triggered;
        self.triggered = false;
        UsbReport { event, alarm, total_devices: self.total_devices, new_device: new_dev }
    }
}

} // verus!
