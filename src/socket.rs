//! Socket records as the socket snapshot hands them over.
use vstd::prelude::*;

verus! {

/// Transport protocol of a socket.
#[derive(Clone, Copy, Debug, PartialEq, Eq)]
pub enum Protocol {
    Tcp,
    Udp,
}

impl Protocol {
    /// Display name of the protocol.
    pub fn label(&self) -> (r: &'static str)
        ensures
            r@ == self.label_spec(),
    {
        match self {
            Protocol::Tcp => "TCP",
            Protocol::Udp => "UDP",
        }
    }

    pub open spec fn label_spec(self) -> Seq<char> {
        match self {
            Protocol::Tcp => "TCP"@,
            Protocol::Udp => "UDP"@,
        }
    }

    /// Position in the ascending order of the display names ("TCP" < "UDP").
    pub open spec fn name_rank(self) -> int {
        match self {
            Protocol::Tcp => 0,
            Protocol::Udp => 1,
        }
    }
}

/// Connection state of a socket; `Stateless` is the UDP sentinel shown as `-`.
#[derive(Clone, Copy, Debug, PartialEq, Eq)]
pub enum ConnState {
    Closed,
    Listen,
    SynSent,
    SynReceived,
    Established,
    FinWait1,
    FinWait2,
    CloseWait,
    Closing,
    LastAck,
    TimeWait,
    DeleteTcb,
    Stateless,
}

/// Sort priority of a state: lower sorts first. The UDP sentinel is 1,
/// closing states come next and `Listen` is last at 11; states outside
/// that list are 0.
pub open spec fn state_order(state: ConnState) -> u8 {
    match state {
        ConnState::TimeWait => 2,
        ConnState::LastAck => 3,
        ConnState::Closing => 4,
        ConnState::CloseWait => 5,
        ConnState::FinWait2 => 6,
        ConnState::FinWait1 => 7,
        ConnState::SynReceived => 8,
        ConnState::SynSent => 9,
        ConnState::Established => 10,
        ConnState::Listen => 11,
        ConnState::Stateless => 1,
        _ => 0,
    }
}

/// Sort priority of a connection state (see `state_order`).
pub fn state_sort_order(state: ConnState) -> (r: u8)
    ensures
        r == state_order(state),
{
    match state {
        ConnState::TimeWait => 2,
        ConnState::LastAck => 3,
        ConnState::Closing => 4,
        ConnState::CloseWait => 5,
        ConnState::FinWait2 => 6,
        ConnState::FinWait1 => 7,
        ConnState::SynReceived => 8,
        ConnState::SynSent => 9,
        ConnState::Established => 10,
        ConnState::Listen => 11,
        ConnState::Stateless => 1,
        _ => 0,
    }
}

impl ConnState {
    pub open spec fn label_spec(self) -> Seq<char> {
        match self {
            ConnState::Closed => "Closed"@,
            ConnState::Listen => "Listen"@,
            ConnState::SynSent => "SynSent"@,
            ConnState::SynReceived => "SynReceived"@,
            ConnState::Established => "Established"@,
            ConnState::FinWait1 => "FinWait1"@,
            ConnState::FinWait2 => "FinWait2"@,
            ConnState::CloseWait => "CloseWait"@,
            ConnState::Closing => "Closing"@,
            ConnState::LastAck => "LastAck"@,
            ConnState::TimeWait => "TimeWait"@,
            ConnState::DeleteTcb => "DeleteTcb"@,
            ConnState::Stateless => "-"@,
        }
    }

    /// Display name of the state.
    pub fn label(&self) -> (r: &'static str)
        ensures
            r@ == self.label_spec(),
    {
        match self {
            ConnState::Closed => "Closed",
            ConnState::Listen => "Listen",
            ConnState::SynSent => "SynSent",
            ConnState::SynReceived => "SynReceived",
            ConnState::Established => "Established",
            ConnState::FinWait1 => "FinWait1",
            ConnState::FinWait2 => "FinWait2",
            ConnState::CloseWait => "CloseWait",
            ConnState::Closing => "Closing",
            ConnState::LastAck => "LastAck",
            ConnState::TimeWait => "TimeWait",
            ConnState::DeleteTcb => "DeleteTcb",
            ConnState::Stateless => "-",
        }
    }
}

/// An address as its display text and a port.
pub struct Endpoint {
    pub ip: String,
    pub port: u16,
}

impl Endpoint {
    /// A copy of the endpoint.
    pub fn duplicate(&self) -> (r: Endpoint)
        ensures
            r == *self,
    {
        Endpoint { ip: self.ip.clone(), port: self.port }
    }

    /// `ip:port`, the display form of the endpoint.
    pub open spec fn text_spec(self) -> Seq<char> {
        self.ip@ + ":"@ + crate::text::decimal(self.port as nat)
    }

    /// The display form `ip:port`.
    pub fn text(&self) -> (r: String)
        ensures
            r@ == self.text_spec(),
    {
        let mut s = self.ip.clone();
        s.append(":");
        crate::text::push_decimal(&mut s, self.port as u64);
        s
    }
}

/// What a socket record holds beyond its local endpoint.
pub enum Transport {
    Tcp { remote: Endpoint, state: ConnState },
    Udp,
}

/// One socket of the snapshot: local endpoint, transport details and the
/// owning process ids in the order the snapshot lists them.
pub struct SocketRecord {
    pub local: Endpoint,
    pub transport: Transport,
    pub pids: Vec<u32>,
}

} // verus!
