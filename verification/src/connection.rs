//! The device session: which device is held, and what the bus has to do next.
//!
//! The session never touches the bus. It is told what happened there, as
//! hotplug messages and as outcomes of the work it asked for, and it answers
//! with the next piece of work for the owner of the USB handle. Hotplug
//! messages are staged in a queue and only change the session when the owner
//! polls it.

use std::collections::VecDeque;
use vstd::prelude::*;
use crate::error::DriverError;
use crate::messages::DeviceMessage;
use crate::messages::HostMessage;
pub use crate::messages::USB_DEVICE_MSG_LEN;
pub use crate::messages::USB_HOST_MSG_LEN;
use crate::transport::carries;
use crate::transport::frame_views;
use crate::transport::join_payload;
use crate::transport::received;
use crate::transport::split_payload;

verus! {

/// Vendor identifier of the device.
pub const USB_DEVICE_VID: u16 = 0x0483;

/// Product identifier of the device.
pub const USB_DEVICE_PID: u16 = 0x0456;

/// Bulk endpoint that takes host messages.
pub const EPNUM_HOST_MSG: u8 = 0x01;

/// Bulk endpoint that gives device messages.
pub const EPNUM_DEVICE_MSG: u8 = 0x82;

/// The interface that carries both endpoints.
pub const ITF_NUM_MSG: u8 = 0;

/// A device as the bus shows it: where it sits and what it says it is.
#[derive(Debug, Clone, Copy, PartialEq, Eq, Structural)]
pub struct UsbDevice {
    pub bus: u8,
    pub address: u8,
    pub vendor_id: u16,
    pub product_id: u16,
}

impl UsbDevice {
    /// The device carries the identifiers of the display.
    pub open spec fn is_target(self) -> bool {
        self.vendor_id == USB_DEVICE_VID && self.product_id == USB_DEVICE_PID
    }

    /// Both sit at the same place on the bus, so they are one device.
    pub open spec fn same_place(self, other: UsbDevice) -> bool {
        self.bus == other.bus && self.address == other.address
    }

    /// Whether the device carries the identifiers of the display.
    pub fn matches_target(&self) -> (b: bool)
        ensures
            b == self.is_target(),
    {
        self.vendor_id == USB_DEVICE_VID && self.product_id == USB_DEVICE_PID
    }

    /// Whether both sit at the same place on the bus.
    pub fn is_same_device(&self, other: &UsbDevice) -> (b: bool)
        ensures
            b == self.same_place(*other),
    {
        self.bus == other.bus && self.address == other.address
    }
}

/// What the hotplug watcher saw.
#[derive(Debug, Clone, Copy, PartialEq, Eq, Structural)]
pub enum HotplugMessage {
    DeviceArrived(UsbDevice),
    DeviceLeft(UsbDevice),
}

/// The work that the session asks of the owner of the USB handle.
#[derive(Debug, Clone, Copy, PartialEq, Eq, Structural)]
pub enum SessionAction {
    /// Nothing is to be done.
    Idle,
    /// Release the claimed interface and drop the handle.
    Release,
    /// Release and drop what is held, if anything; then open the device and
    /// claim its interface, and report how that went.
    Attach(UsbDevice),
}

/// How opening a device and claiming its interface went.
#[derive(Debug, Clone, Copy, PartialEq, Eq, Structural)]
pub enum AttachOutcome {
    /// The device is open and its interface claimed.
    Claimed,
    /// The device could not be opened.
    OpenFailed,
    /// The device was opened, but its interface could not be claimed.
    ClaimFailed,
}

/// The session as a value: the device that is held, if any, and the hotplug
/// messages that wait to be applied, oldest first.
pub struct Session {
    pub held: Option<UsbDevice>,
    pub pending: Seq<HotplugMessage>,
}

impl Session {
    /// The interfaces that are claimed: the message interface while a device
    /// is held, none otherwise.
    pub open spec fn claimed(self) -> Set<u8> {
        if self.held is Some {
            set![ITF_NUM_MSG]
        } else {
            Set::empty()
        }
    }
}

/// What one hotplug message does to the held device, and the work it asks for.
/// The arrival of a display takes the place of whatever is held. A departure
/// counts only if it is that of the held device.
pub open spec fn applied(held: Option<UsbDevice>, message: HotplugMessage) -> (
    Option<UsbDevice>,
    SessionAction,
) {
    match message {
        HotplugMessage::DeviceArrived(device) => if device.is_target() {
            (None, SessionAction::Attach(device))
        } else {
            (held, SessionAction::Idle)
        },
        HotplugMessage::DeviceLeft(device) => if held matches Some(h) && h.same_place(device) {
            (None, SessionAction::Release)
        } else {
            (held, SessionAction::Idle)
        },
    }
}

/// What a poll does: the staged messages are applied in order up to and with
/// the first that asks for work; the rest stays staged.
pub open spec fn polled(session: Session) -> (Session, SessionAction)
    decreases session.pending.len(),
{
    if session.pending.len() == 0 {
        (session, SessionAction::Idle)
    } else {
        let (held, action) = applied(session.held, session.pending[0]);
        let next = Session { held, pending: session.pending.subrange(1, session.pending.len() as int) };
        if action is Idle {
            polled(next)
        } else {
            (next, action)
        }
    }
}

/// The first display among the attached devices.
pub open spec fn first_target(attached: Seq<UsbDevice>) -> Option<UsbDevice>
    decreases attached.len(),
{
    if attached.len() == 0 {
        None
    } else if attached[0].is_target() {
        Some(attached[0])
    } else {
        first_target(attached.subrange(1, attached.len() as int))
    }
}

/// What an explicit open decides. A session that holds a device has nothing
/// to do; otherwise the first display among the attached devices is to be
/// attached, and without one the open fails.
pub open spec fn opened(session: Session, attached: Seq<UsbDevice>) -> Result<
    SessionAction,
    DriverError,
> {
    if session.held is Some {
        Ok(SessionAction::Idle)
    } else {
        match first_target(attached) {
            Some(device) => Ok(SessionAction::Attach(device)),
            None => Err(DriverError::DeviceNotFound),
        }
    }
}

/// The session after an attach has been reported, and what the caller is told.
/// A device that was claimed is held from then on. A failed attach changes
/// nothing: the session gave up what it held when it asked for the attach.
pub open spec fn attached(session: Session, device: UsbDevice, outcome: AttachOutcome) -> (
    Session,
    Result<(), DriverError>,
) {
    if outcome is Claimed {
        (Session { held: Some(device), pending: session.pending }, Ok(()))
    } else {
        (session, Err(DriverError::ClaimFailed))
    }
}

/// The session after a close, and the work that the close asks for.
pub open spec fn closed(session: Session) -> (Session, SessionAction) {
    if session.held is Some {
        (Session { held: None, pending: session.pending }, SessionAction::Release)
    } else {
        (session, SessionAction::Idle)
    }
}

/// The driver's side of the connection to the display.
#[derive(Debug)]
pub struct UsbConnection {
    held: Option<UsbDevice>,
    pending: VecDeque<HotplugMessage>,
}

impl View for UsbConnection {
    type V = Session;

    closed spec fn view(&self) -> Session {
        Session { held: self.held, pending: self.pending@ }
    }
}

impl UsbConnection {
    /// A session that holds no device and has nothing staged.
    pub fn new() -> (connection: UsbConnection)
        ensures
            connection@.held is None,
            connection@.pending.len() == 0,
    {
        UsbConnection { held: None, pending: VecDeque::new() }
    }

    /// Whether a device is held. No bus traffic is involved.
    pub fn is_connected(&self) -> (connected: bool)
        ensures
            connected == self@.held is Some,
    {
        self.held.is_some()
    }

    /// The device that is held, if any.
    pub fn device(&self) -> (held: Option<UsbDevice>)
        ensures
            held == self@.held,
    {
        self.held
    }

    /// The interfaces that are claimed on the held device.
    pub fn claimed_interfaces(&self) -> (claimed: Vec<u8>)
        ensures
            claimed@.to_set() == self@.claimed(),
            claimed@.len() <= 1,
    {
        let mut claimed: Vec<u8> = Vec::new();
        if self.held.is_some() {
            claimed.push(ITF_NUM_MSG);
            assert(claimed@ =~= seq![ITF_NUM_MSG]);
            assert(claimed@.to_set() =~= set![ITF_NUM_MSG]) by {
                assert forall|x: u8| claimed@.to_set().contains(x) <==> x == ITF_NUM_MSG by {
                    if x == ITF_NUM_MSG {
                        assert(claimed@[0] == x);
                    }
                }
            }
        } else {
            assert(claimed@.to_set() =~= Set::<u8>::empty());
        }
        claimed
    }

    /// Stages a hotplug message. The session itself does not change before
    /// the next poll.
    pub fn stage(&mut self, message: HotplugMessage)
        ensures
            final(self)@.held == old(self)@.held,
            final(self)@.pending == old(self)@.pending.push(message),
    {
        self.pending.push_back(message);
    }

    /// Applies the staged hotplug messages, oldest first, until one asks for
    /// work on the bus, and returns that work; `Idle` once nothing is staged.
    /// After `Attach` the session holds no device until the outcome is
    /// reported with `attach_finished`.
    pub fn handle_events(&mut self) -> (action: SessionAction)
        ensures
            (final(self)@, action) == polled(old(self)@),
    {
        loop
            invariant
                polled(self@) == polled(old(self)@),
            decreases self@.pending.len(),
        {
            let ghost before = self@;
            match self.pending.pop_front() {
                None => {
                    return SessionAction::Idle;
                },
                Some(HotplugMessage::DeviceArrived(device)) => {
                    if device.matches_target() {
                        self.held = None;
                        return SessionAction::Attach(device);
                    }
                },
                Some(HotplugMessage::DeviceLeft(device)) => {
                    let leaves = match self.held {
                        Some(h) => h.is_same_device(&device),
                        None => false,
                    };
                    if leaves {
                        self.held = None;
                        return SessionAction::Release;
                    }
                },
            }
        }
    }

    /// Takes the outcome of an attach. With `Claimed` the session holds the
    /// device from now on. Any other outcome changes nothing, which after
    /// `Attach` means that no device is held, and is reported as
    /// `ClaimFailed`; a caller that polls may log and drop it.
    pub fn attach_finished(&mut self, device: UsbDevice, outcome: AttachOutcome) -> (res: Result<
        (),
        DriverError,
    >)
        ensures
            (final(self)@, res) == attached(old(self)@, device, outcome),
    {
        match outcome {
            AttachOutcome::Claimed => {
                self.held = Some(device);
                Ok(())
            },
            _ => Err(DriverError::ClaimFailed),
        }
    }

    /// Decides what an explicit open has to do, given the devices on the bus.
    /// The session changes only when the attach is reported.
    pub fn open(&self, devices: &[UsbDevice]) -> (res: Result<SessionAction, DriverError>)
        ensures
            res == opened(self@, devices@),
    {
        if self.held.is_some() {
            return Ok(SessionAction::Idle);
        }
        let mut i: usize = 0;
        assert(devices@.subrange(0, devices@.len() as int) =~= devices@);
        while i < devices.len()
            invariant
                self@.held is None,
                i <= devices@.len(),
                first_target(devices@) == first_target(devices@.subrange(i as int, devices@.len() as int)),
            decreases devices@.len() - i,
        {
            let ghost rest = devices@.subrange(i as int, devices@.len() as int);
            assert(rest[0] == devices@[i as int]);
            assert(rest.subrange(1, rest.len() as int) =~= devices@.subrange(
                i as int + 1,
                devices@.len() as int,
            ));
            if devices[i].matches_target() {
                return Ok(SessionAction::Attach(devices[i]));
            }
            i += 1;
        }
        Err(DriverError::DeviceNotFound)
    }

    /// Lets go of the device. Closing a session that holds none does nothing.
    pub fn close(&mut self) -> (action: SessionAction)
        ensures
            (final(self)@, action) == closed(old(self)@),
    {
        if self.held.is_some() {
            self.held = None;
            SessionAction::Release
        } else {
            SessionAction::Idle
        }
    }

    /// The frame to write to the host endpoint for a message.
    pub fn send_host_message(&self, msg: HostMessage) -> (res: Result<
        [u8; USB_HOST_MSG_LEN],
        DriverError,
    >)
        ensures
            match res {
                Ok(frame) => self@.held is Some && frame@ == msg.wire_bytes(),
                Err(e) => self@.held is None && e == DriverError::NotConnected,
            },
    {
        if self.held.is_none() {
            return Err(DriverError::NotConnected);
        }
        Ok(msg.into_data())
    }

    /// The message that a frame read from the device endpoint holds.
    pub fn read_device_message(&self, data: &[u8; USB_DEVICE_MSG_LEN]) -> (res: Result<
        DeviceMessage,
        DriverError,
    >)
        ensures
            self@.held is Some ==> res == DeviceMessage::parse(data@),
            self@.held is None ==> res == Err::<DeviceMessage, DriverError>(DriverError::NotConnected),
    {
        if self.held.is_none() {
            return Err(DriverError::NotConnected);
        }
        DeviceMessage::from_data(data)
    }

    /// The data messages that carry a payload. The message that ends the
    /// payload is not among them: the caller sends it.
    pub fn transmit_host_data(&self, data: &[u8]) -> (res: Result<Vec<HostMessage>, DriverError>)
        ensures
            match res {
                Ok(msgs) => self@.held is Some && carries(msgs@, data@),
                Err(e) => self@.held is None && e == DriverError::NotConnected,
            },
    {
        if self.held.is_none() {
            return Err(DriverError::NotConnected);
        }
        Ok(split_payload(data))
    }

    /// The payload of `expected_len` bytes that the frames read for it hold.
    pub fn receive_device_data(
        &self,
        frames: &[[u8; USB_DEVICE_MSG_LEN]],
        expected_len: usize,
    ) -> (res: Result<Vec<u8>, DriverError>)
        ensures
            self@.held is None ==> res == Err::<Vec<u8>, DriverError>(DriverError::NotConnected),
            self@.held is Some ==> match res {
                Ok(payload) => received(frame_views(frames@), expected_len as nat) == Ok::<
                    Seq<u8>,
                    DriverError,
                >(payload@),
                Err(e) => received(frame_views(frames@), expected_len as nat) == Err::<
                    Seq<u8>,
                    DriverError,
                >(e),
            },
    {
        if self.held.is_none() {
            return Err(DriverError::NotConnected);
        }
        join_payload(frames, expected_len)
    }
}

/// An open on a session that holds a device asks for nothing and succeeds,
/// whatever is on the bus. So of two opens in a row, with the attach of the
/// first reported as claimed, the second is a no-op.
pub proof fn lemma_open_twice(
    session: Session,
    first: Seq<UsbDevice>,
    second: Seq<UsbDevice>,
    device: UsbDevice,
)
    requires
        opened(session, first) == Ok::<SessionAction, DriverError>(SessionAction::Attach(device)),
    ensures
        attached(session, device, AttachOutcome::Claimed).1 is Ok,
        opened(attached(session, device, AttachOutcome::Claimed).0, second) == Ok::<
            SessionAction,
            DriverError,
        >(SessionAction::Idle),
{
}

/// An open finds the display wherever it stands among the attached devices,
/// and fails only where none of them is the display.
pub proof fn lemma_first_target(devices: Seq<UsbDevice>)
    ensures
        match first_target(devices) {
            Some(device) => exists|i: int|
                0 <= i < devices.len() && #[trigger] devices[i] == device && device.is_target()
                    && forall|k: int| 0 <= k < i ==> !(#[trigger] devices[k]).is_target(),
            None => forall|k: int| 0 <= k < devices.len() ==> !(#[trigger] devices[k]).is_target(),
        },
    decreases devices.len(),
{
    if devices.len() == 0 {
    } else if devices[0].is_target() {
        assert(devices[0] == devices[0]);
    } else {
        let rest = devices.subrange(1, devices.len() as int);
        lemma_first_target(rest);
        assert(forall|k: int| 0 <= k < rest.len() ==> rest[k] == devices[k + 1]);
        match first_target(rest) {
            Some(device) => {
                let i = choose|i: int|
                    0 <= i < rest.len() && #[trigger] rest[i] == device && device.is_target()
                        && forall|k: int| 0 <= k < i ==> !(#[trigger] rest[k]).is_target();
                assert(devices[i + 1] == device);
                assert forall|k: int| 0 <= k < i + 1 implies !(#[trigger] devices[k]).is_target() by {
                    if k > 0 {
                        assert(rest[k - 1] == devices[k]);
                    }
                }
            },
            None => {
                assert forall|k: int| 0 <= k < devices.len() implies !(
                #[trigger] devices[k]).is_target() by {
                    if k > 0 {
                        assert(rest[k - 1] == devices[k]);
                    }
                }
            },
        }
    }
}

/// Closing twice is closing once: the second close finds nothing to release
/// and leaves the session as the first left it.
pub proof fn lemma_close_twice(session: Session)
    ensures
        closed(session).0.held is None,
        closed(closed(session).0) == (closed(session).0, SessionAction::Idle),
{
}

/// The departure of a device other than the held one changes nothing, whether
/// it is looked at alone or polled from the queue.
pub proof fn lemma_departure_of_other_device(session: Session, held: UsbDevice, left: UsbDevice)
    requires
        session.held == Some(held),
        !held.same_place(left),
    ensures
        applied(session.held, HotplugMessage::DeviceLeft(left)) == (
            session.held,
            SessionAction::Idle,
        ),
        session.pending == seq![HotplugMessage::DeviceLeft(left)] ==> polled(session).0.held
            == Some(held) && polled(session).1 == SessionAction::Idle,
{
    if session.pending == seq![HotplugMessage::DeviceLeft(left)] {
        let next = Session { held: session.held, pending: session.pending.subrange(1, 1) };
        assert(next.pending.len() == 0);
        assert(polled(next) == (next, SessionAction::Idle));
    }
}

/// The departure of the held device ends the connection and asks for its
/// release.
pub proof fn lemma_departure_of_held_device(held: UsbDevice, left: UsbDevice)
    requires
        held.same_place(left),
    ensures
        applied(Some(held), HotplugMessage::DeviceLeft(left)) == (
            None::<UsbDevice>,
            SessionAction::Release,
        ),
{
}

/// A poll never leaves work behind unseen: it returns `Idle` only with the
/// queue empty, and what it leaves staged is the end of what was staged.
pub proof fn lemma_poll_drains(session: Session)
    ensures
        polled(session).1 is Idle ==> polled(session).0.pending.len() == 0,
        polled(session).0.pending.len() <= session.pending.len(),
        polled(session).0.pending == session.pending.subrange(
            session.pending.len() - polled(session).0.pending.len(),
            session.pending.len() as int,
        ),
    decreases session.pending.len(),
{
    let len = session.pending.len() as int;
    if len > 0 {
        let (held, action) = applied(session.held, session.pending[0]);
        let next = Session { held, pending: session.pending.subrange(1, len) };
        lemma_poll_drains(next);
        let left = polled(next).0.pending;
        assert(next.pending.subrange(next.pending.len() - left.len(), next.pending.len() as int)
            =~= session.pending.subrange(len - left.len(), len));
        assert(next.pending =~= session.pending.subrange(len - next.pending.len(), len));
    } else {
        assert(session.pending =~= session.pending.subrange(0, 0));
    }
}

/// The session never lets go of a device in silence: whenever a step takes
/// it from holding a device to holding none, the step asks for the release
/// of what was held, by `Release` or as the first part of `Attach`.
pub proof fn lemma_exit_releases(
    session: Session,
    message: HotplugMessage,
    device: UsbDevice,
    outcome: AttachOutcome,
)
    requires
        session.held is Some,
    ensures
        applied(session.held, message).0 is None ==> !(applied(session.held, message).1 is Idle),
        closed(session).0.held is None && closed(session).1 is Release,
        attached(session, device, outcome).0.held is Some,
        polled(session).0.held is None ==> !(polled(session).1 is Idle),
    decreases session.pending.len(),
{
    if session.pending.len() > 0 {
        let (held, action) = applied(session.held, session.pending[0]);
        let next = Session {
            held,
            pending: session.pending.subrange(1, session.pending.len() as int),
        };
        if action is Idle {
            lemma_exit_releases(next, message, device, outcome);
        }
    }
}

} // verus!
