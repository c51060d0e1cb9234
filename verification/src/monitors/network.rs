//! The network monitor: it raises the alarm when a known host stops answering.
use vstd::prelude::*;
use crate::boobytrap::EventMonitor;
use crate::settings::Settings;

verus! {

/// The host that the network monitor pings, over HTTPS on port 443.
pub const PING_HOST: &'static str = "koonts.net";

/// The transport protocol of a socket.
#[derive(Clone, Copy, Debug, PartialEq, Eq, Structural)]
pub enum SocketProtocol {
    Tcp,
    Udp,
}

/// One open socket, as listed when the monitor starts: its local address and
/// port, its peer and connection state where it has them (TCP), and the
/// processes that hold it.
#[derive(Clone, Debug)]
pub struct SocketRecord {
    pub protocol: SocketProtocol,
    pub local_addr: String,
    pub local_port: u16,
    pub remote: Option<(String, u16)>,
    pub associated_pids: Vec<u32>,
    pub tcp_state: Option<String>,
}

/// The state of the network monitor, with the sockets that were open when it
/// started.
pub struct NETMon {
    pub triggered: bool,
    pub interfaces: Vec<String>,
    pub settings_map: Settings,
    pub state: Vec<SocketRecord>,
}

impl NETMon {
    /// A network monitor that has not raised the alarm, keeping the sockets
    /// open at its start.
    pub fn new(settings_map: Settings, state: Vec<SocketRecord>) -> (m: NETMon)
        ensures
            !m.triggered,
            m.interfaces@.len() == 0,
            m.settings_map == settings_map,
            m.state == state,
    {
        NETMon { triggered: false, interfaces: Vec::new(), settings_map, state }
    }
}

impl EventMonitor for NETMon {
    /// Whether the host answered; `None` where the ping itself failed.
    type Observation = Option<bool>;

    /// Whether the alarm goes off.
    type Report = bool;

    /// The monitor is triggered while the host does not answer; a failed ping
    /// leaves it as it was. The alarm goes off whenever it is triggered.
    fn check(&mut self, answered: Option<bool>) -> (alarm: bool)
        ensures
            final(self).triggered == match answered {
                Some(ok) => !ok,
                None => old(self).triggered,
            },
            alarm == final(self).triggered,
            final(self).settings_map == old(self).settings_map,
            final(self).interfaces == old(self).interfaces,
            final(self).state == old(self).state,
    {
        if let Some(ok) = answered {
            self.triggered = !ok;
        }
        self.triggered
    }
}

} // verus!
