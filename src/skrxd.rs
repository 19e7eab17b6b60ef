//! The records that an SKSTACK module sends: command results and events.
use vstd::prelude::*;

verus! {

/// An event, from the node at `sender`, with an optional parameter.
#[derive(Clone, Copy, PartialEq, Eq, Debug)]
pub struct Event {
    pub code: u8,
    /// The 128-bit IPv6 address of the sender.
    pub sender: u128,
    pub param: Option<u8>,
}

/// A PAN descriptor found by an active scan.
#[derive(Clone, Copy, PartialEq, Eq, Debug)]
pub struct Epandesc {
    pub channel: u8,
    pub channel_page: u8,
    pub pan_id: u16,
    pub addr: u64,
    pub lqi: u8,
    pub pair_id: u32,
}

/// A received UDP datagram.
#[derive(Clone, PartialEq, Eq, Debug)]
pub struct Erxudp {
    /// The 128-bit IPv6 address of the sender.
    pub sender: u128,
    /// The 128-bit IPv6 address it was sent to.
    pub destination: u128,
    pub sender_port: u16,
    pub destination_port: u16,
    /// The MAC-layer address of the sender.
    pub senderlla: u64,
    /// 1 where the datagram was encrypted, else 0.
    pub secured: u8,
    pub datalen: u16,
    pub data: Vec<u8>,
}

/// A received datagram, as plain values.
pub struct ErxudpView {
    pub sender: u128,
    pub destination: u128,
    pub sender_port: u16,
    pub destination_port: u16,
    pub senderlla: u64,
    pub secured: u8,
    pub datalen: u16,
    pub data: Seq<u8>,
}

impl View for Erxudp {
    type V = ErxudpView;

    open spec fn view(&self) -> ErxudpView {
        ErxudpView {
            sender: self.sender,
            destination: self.destination,
            sender_port: self.sender_port,
            destination_port: self.destination_port,
            senderlla: self.senderlla,
            secured: self.secured,
            datalen: self.datalen,
            data: self.data@,
        }
    }
}

/// One record of what the module sends.
#[derive(Clone, PartialEq, Eq, Debug)]
pub enum SkRxD {
    Event(Event),
    Epandesc(Epandesc),
    Erxudp(Erxudp),
    Fail(u8),
    Okay,
    Void,
}

/// A record, as plain values.
pub enum SkRxDView {
    Event(Event),
    Epandesc(Epandesc),
    Erxudp(ErxudpView),
    Fail(u8),
    Okay,
    Void,
}

impl View for SkRxD {
    type V = SkRxDView;

    open spec fn view(&self) -> SkRxDView {
        match self {
            SkRxD::Event(e) => SkRxDView::Event(*e),
            SkRxD::Epandesc(e) => SkRxDView::Epandesc(*e),
            SkRxD::Erxudp(e) => SkRxDView::Erxudp(e@),
            SkRxD::Fail(c) => SkRxDView::Fail(*c),
            SkRxD::Okay => SkRxDView::Okay,
            SkRxD::Void => SkRxDView::Void,
        }
    }
}

/// What one read of the module gives: a record, or nothing before the
/// read timed out.
#[derive(Clone, PartialEq, Eq, Debug)]
pub enum Reply {
    Record(SkRxD),
    Timeout,
}

} // verus!
