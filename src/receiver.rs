//! The decisions of the acquisition loop's receiver: which records end the
//! session, and what a received datagram becomes.
use crate::frame::{decode_frame, EchonetliteFrame, FrameError};
use crate::measurements::{measurement_result, measurements_of_frame, Measurement, MeasurementView, RecordError};
use crate::send_receive::{ECHONET_LITE_PORT, PANA_PORT};
use crate::skrxd::{Erxudp, SkRxD};
use crate::smart_electric_energy_meter::UnitForCumlativeAmountsPower;
use vstd::prelude::*;

verus! {

/// Why the receiver stops.
#[derive(Clone, Copy, PartialEq, Eq, Debug)]
pub enum ReceiverError {
    /// The module reported a failed command, with its error code.
    CommandFail(u8),
    /// The PANA session failed, ended or expired.
    SessionDisconnected,
}

/// What the receiver does with a record.
#[derive(Clone, Copy, PartialEq, Eq, Debug)]
pub enum ReceiverStep {
    /// Note it and read on.
    Continue,
    /// Hand the datagram to `rx_erxudp`, then read on.
    Datagram,
    /// Stop, and restart the acquisition after a pause.
    Stop(ReceiverError),
}

/// The events that end a session: a PANA failure while connecting (0x24),
/// a session end (0x27), a session end that timed out (0x28), and an
/// expired session (0x29). A request from the peer to end the session
/// (0x26) does not end it by itself.
pub open spec fn ends_session(code: u8) -> bool {
    code == 0x24 || code == 0x27 || code == 0x28 || code == 0x29
}

/// What the receiver does with a record.
pub open spec fn receiver_step_spec(r: SkRxD) -> ReceiverStep {
    match r {
        SkRxD::Fail(code) => ReceiverStep::Stop(ReceiverError::CommandFail(code)),
        SkRxD::Event(e) => if ends_session(e.code) {
            ReceiverStep::Stop(ReceiverError::SessionDisconnected)
        } else {
            ReceiverStep::Continue
        },
        SkRxD::Erxudp(_) => ReceiverStep::Datagram,
        _ => ReceiverStep::Continue,
    }
}

/// Decides what the receiver does with a record.
pub fn receiver_step(r: &SkRxD) -> (s: ReceiverStep)
    ensures
        s == receiver_step_spec(*r),
{
    match r {
        SkRxD::Fail(code) => ReceiverStep::Stop(ReceiverError::CommandFail(*code)),
        SkRxD::Event(e) => {
            if e.code == 0x24 || e.code == 0x27 || e.code == 0x28 || e.code == 0x29 {
                ReceiverStep::Stop(ReceiverError::SessionDisconnected)
            } else {
                ReceiverStep::Continue
            }
        },
        SkRxD::Erxudp(_) => ReceiverStep::Datagram,
        _ => ReceiverStep::Continue,
    }
}

/// The ESV of a Get response.
pub const ESV_GET_RES: u8 = 0x72;

/// The ESV of a notification.
pub const ESV_INF: u8 = 0x73;

/// What a received datagram becomes.
#[derive(Clone, PartialEq, Eq, Debug)]
pub enum DatagramOutcome {
    /// An answer or a notification: one result per property entry.
    Measurements(Vec<Result<Measurement, RecordError>>),
    /// An ECHONET Lite frame of another service, only to be noted.
    OtherService(u8),
    /// An ECHONET Lite datagram that holds no frame.
    Undecodable(FrameError),
    /// A PANA datagram, ignored by design.
    Pana,
    /// A datagram to another port.
    UnknownPort(u16),
}

/// What a datagram received at `recorded_at` becomes, on the day that
/// started at `today_start`.
pub fn rx_erxudp(erxudp: &Erxudp, unit: &UnitForCumlativeAmountsPower, recorded_at: i64, today_start: i64) -> (r: DatagramOutcome)
    requires
        unit.wf(),
    ensures
        erxudp.destination_port == PANA_PORT ==> r == DatagramOutcome::Pana,
        erxudp.destination_port != PANA_PORT && erxudp.destination_port != ECHONET_LITE_PORT ==> r
            == DatagramOutcome::UnknownPort(erxudp.destination_port),
        erxudp.destination_port == ECHONET_LITE_PORT ==> match decode_frame(erxudp.data@) {
            Err(e) => r == DatagramOutcome::Undecodable(e),
            Ok((f, _)) => if f.esv == ESV_GET_RES || f.esv == ESV_INF {
                r matches DatagramOutcome::Measurements(ms) && ms@.len() == f.edata.len() && forall|i: int|
                    0 <= i < ms@.len() ==> match #[trigger] ms@[i] {
                        Ok(m) => measurement_result(f.edata[i], unit.0, recorded_at, today_start) == Ok::<MeasurementView, RecordError>(m@),
                        Err(e) => measurement_result(f.edata[i], unit.0, recorded_at, today_start) == Err::<MeasurementView, RecordError>(e),
                    }
            } else {
                r == DatagramOutcome::OtherService(f.esv)
            },
        },
{
    if erxudp.destination_port == PANA_PORT {
        return DatagramOutcome::Pana;
    }
    if erxudp.destination_port != ECHONET_LITE_PORT {
        return DatagramOutcome::UnknownPort(erxudp.destination_port);
    }
    match EchonetliteFrame::borrow_decode(erxudp.data.as_slice()) {
        Err(e) => DatagramOutcome::Undecodable(e),
        Ok((frame, _)) => {
            if frame.esv == ESV_GET_RES || frame.esv == ESV_INF {
                let ms = measurements_of_frame(&frame, unit, recorded_at, today_start);
                proof {
                    assert forall|i: int| 0 <= i < frame.edata@.len() implies frame@.edata[i] == #[trigger] frame.edata@[i]@ by {}
                }
                DatagramOutcome::Measurements(ms)
            } else {
                DatagramOutcome::OtherService(frame.esv)
            }
        },
    }
}

} // verus!
