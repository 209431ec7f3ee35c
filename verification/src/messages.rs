//! The wire protocol: messages and their fixed-size frames.
//!
//! Every message travels as one frame of 64 bytes. Byte 0 is the tag of the
//! variant, the fields follow from byte 1 on, integers of more than one byte
//! with the most significant byte first, and the rest of the frame is zero.

use vstd::prelude::*;
use crate::epdimage::EpdImageFormat;
use crate::error::DriverError;
use crate::page::DeviceStatus;
use crate::page::EpdPage;

verus! {

/// Length of a frame from host to device.
pub const USB_HOST_MSG_LEN: usize = 64;

/// Length of a frame from device to host.
pub const USB_DEVICE_MSG_LEN: usize = 64;

/// Payload bytes that one data frame carries: a frame less its tag.
pub const USB_DATA_CHUNK_LEN: usize = 63;

/// The two bytes of the low sixteen bits of `value`, most significant first.
pub open spec fn be16(value: int) -> Seq<u8> {
    seq![((value / 256) % 256) as u8, (value % 256) as u8]
}

/// The frame that starts with `head` and is zero from there on.
pub open spec fn zero_padded(head: Seq<u8>) -> Seq<u8> {
    Seq::new(USB_HOST_MSG_LEN as nat, |i: int| if i < head.len() { head[i] } else { 0u8 })
}

/// A message from host to device.
#[derive(Debug, Clone, Copy, PartialEq, Eq)]
pub enum HostMessage {
    /// One chunk of a larger payload.
    Data { data: [u8; USB_DATA_CHUNK_LEN] },
    /// The end of a chunked payload.
    DataComplete,
    RequestDeviceStatus,
    RefreshDisplay,
    SwitchPage(EpdPage),
    /// Announces a packed image for the user-image page.
    UpdateUserImage { format: EpdImageFormat },
    /// Announces an application name, of the given length, and its packed image.
    UpdateAppImage { app_name_str_len: u16, format: EpdImageFormat },
    /// Announces the name, of the given length, of the application in front.
    ReportActiveApp { str_len: u16 },
    RequestListAppImages,
}

impl HostMessage {
    /// The tag in byte 0 of the message's frame.
    pub open spec fn tag(self) -> u8 {
        match self {
            HostMessage::Data { .. } => 0x00,
            HostMessage::DataComplete => 0x01,
            HostMessage::RequestDeviceStatus => 0x02,
            HostMessage::RefreshDisplay => 0x03,
            HostMessage::SwitchPage(_) => 0x04,
            HostMessage::UpdateUserImage { .. } => 0x05,
            HostMessage::UpdateAppImage { .. } => 0x06,
            HostMessage::ReportActiveApp { .. } => 0x07,
            HostMessage::RequestListAppImages => 0x08,
        }
    }

    /// The bytes of the message's fields, as they follow the tag.
    pub open spec fn field_bytes(self) -> Seq<u8> {
        match self {
            HostMessage::Data { data } => data@,
            HostMessage::SwitchPage(page) => seq![page.ordinal()],
            HostMessage::UpdateUserImage { format } => be16(format.width as int) + be16(
                format.height as int,
            ),
            HostMessage::UpdateAppImage { app_name_str_len, format } => be16(format.width as int)
                + be16(format.height as int) + be16(app_name_str_len as int),
            HostMessage::ReportActiveApp { str_len } => be16(str_len as int),
            _ => Seq::empty(),
        }
    }

    /// The frame of the message: tag, fields, zeros.
    pub open spec fn wire_bytes(self) -> Seq<u8> {
        zero_padded(seq![self.tag()] + self.field_bytes())
    }

    /// Encodes the message into its frame.
    pub fn into_data(self) -> (frame: [u8; USB_HOST_MSG_LEN])
        ensures
            frame@ == self.wire_bytes(),
    {
        let mut msg_data: [u8; USB_HOST_MSG_LEN] = [0u8; 64];

        match self {
            HostMessage::Data { data } => {
                msg_data[0] = 0x00;
                let mut i: usize = 0;
                while i < USB_DATA_CHUNK_LEN
                    invariant
                        i <= USB_DATA_CHUNK_LEN,
                        msg_data@.len() == 64,
                        msg_data@[0] == 0u8,
                        forall|k: int| 0 <= k < i ==> msg_data@[k + 1] == data@[k],
                    decreases USB_DATA_CHUNK_LEN - i,
                {
                    msg_data[i + 1] = data[i];
                    i += 1;
                }
            },
            HostMessage::DataComplete => {
                msg_data[0] = 0x01;
            },
            HostMessage::RequestDeviceStatus => {
                msg_data[0] = 0x02;
            },
            HostMessage::RefreshDisplay => {
                msg_data[0] = 0x03;
            },
            HostMessage::SwitchPage(page) => {
                msg_data[0] = 0x04;
                msg_data[1] = match page {
                    EpdPage::Overview => 0,
                    EpdPage::AppScreen => 1,
                    EpdPage::UserImage => 2,
                };
            },
            HostMessage::UpdateUserImage { format } => {
                msg_data[0] = 0x05;
                msg_data[1] = high_byte(format.width);
                msg_data[2] = low_byte(format.width);
                msg_data[3] = high_byte(format.height);
                msg_data[4] = low_byte(format.height);
            },
            HostMessage::UpdateAppImage { app_name_str_len, format } => {
                msg_data[0] = 0x06;
                msg_data[1] = high_byte(format.width);
                msg_data[2] = low_byte(format.width);
                msg_data[3] = high_byte(format.height);
                msg_data[4] = low_byte(format.height);
                msg_data[5] = high_byte(app_name_str_len as u32);
                msg_data[6] = low_byte(app_name_str_len as u32);
            },
            HostMessage::ReportActiveApp { str_len } => {
                msg_data[0] = 0x07;
                msg_data[1] = high_byte(str_len as u32);
                msg_data[2] = low_byte(str_len as u32);
            },
            HostMessage::RequestListAppImages => {
                msg_data[0] = 0x08;
            },
        }

        assert(msg_data@ =~= self.wire_bytes());
        msg_data
    }
}

/// Bits 8 to 15 of `value`.
fn high_byte(value: u32) -> (byte: u8)
    ensures
        byte == (value as int / 256) % 256,
{
    assert(((value >> 8) & 0xff) == (value / 256) % 256) by (bit_vector);
    ((value >> 8) & 0xff) as u8
}

/// Bits 0 to 7 of `value`.
fn low_byte(value: u32) -> (byte: u8)
    ensures
        byte == value as int % 256,
{
    assert((value & 0xff) == value % 256) by (bit_vector);
    (value & 0xff) as u8
}

/// The two bytes of a 16-bit value give the value back, the first byte
/// counting 256 times the second.
pub proof fn lemma_be16(value: u16)
    ensures
        be16(value as int).len() == 2,
        be16(value as int)[0] * 256 + be16(value as int)[1] == value,
{
}

/// Every frame from the host is 64 bytes: the tag, the fields, and zeros to
/// the end.
pub proof fn lemma_wire_layout(msg: HostMessage)
    ensures
        msg.wire_bytes().len() == USB_HOST_MSG_LEN,
        msg.wire_bytes()[0] == msg.tag(),
        msg.field_bytes().len() < USB_HOST_MSG_LEN,
        forall|i: int|
            0 <= i < msg.field_bytes().len() ==> msg.wire_bytes()[1 + i] == msg.field_bytes()[i],
        forall|i: int| 1 + msg.field_bytes().len() <= i < USB_HOST_MSG_LEN ==> msg.wire_bytes()[i] == 0,
{
}

/// A message from device to host.
#[derive(Debug, Clone, Copy, PartialEq, Eq, Structural)]
pub enum DeviceMessage {
    /// The device's status, sent in answer to a status request.
    DeviceStatus(DeviceStatus),
    /// The length in bytes of the list of application names that follows as data.
    ListAppImages { str_len: u16 },
}

impl DeviceMessage {
    /// The tag in byte 0 of the message's frame.
    pub open spec fn tag(self) -> u8 {
        match self {
            DeviceMessage::DeviceStatus(_) => 0x00,
            DeviceMessage::ListAppImages { .. } => 0x01,
        }
    }

    /// The tag of the message.
    pub fn kind(&self) -> (tag: u8)
        ensures
            tag == self.tag(),
    {
        match self {
            DeviceMessage::DeviceStatus(_) => 0x00,
            DeviceMessage::ListAppImages { .. } => 0x01,
        }
    }

    /// The frame of the message, as the device sends it.
    pub open spec fn wire_bytes(self) -> Seq<u8> {
        match self {
            DeviceMessage::DeviceStatus(status) => zero_padded(
                seq![0x00u8, status.current_epd_page.ordinal()],
            ),
            DeviceMessage::ListAppImages { str_len } => zero_padded(
                seq![0x01u8] + be16(str_len as int),
            ),
        }
    }

    /// What a frame decodes to. Only the tag and the bytes of the tagged
    /// variant's fields are read.
    pub open spec fn parse(frame: Seq<u8>) -> Result<DeviceMessage, DriverError> {
        if frame[0] == 0x00 {
            match EpdPage::of_ordinal(frame[1]) {
                Some(page) => Ok(DeviceMessage::DeviceStatus(DeviceStatus { current_epd_page: page })),
                None => Err(DriverError::InvalidField(frame[1])),
            }
        } else if frame[0] == 0x01 {
            Ok(DeviceMessage::ListAppImages { str_len: (frame[1] * 256 + frame[2]) as u16 })
        } else {
            Err(DriverError::UnknownVariant(frame[0]))
        }
    }

    /// Decodes a frame. An unknown tag gives `UnknownVariant` with the tag, a
    /// page ordinal out of range gives `InvalidField` with the byte.
    pub fn from_data(data: &[u8; USB_DEVICE_MSG_LEN]) -> (res: Result<DeviceMessage, DriverError>)
        ensures
            res == DeviceMessage::parse(data@),
    {
        if data[0] == 0x00 {
            match EpdPage::try_from(data[1]) {
                Ok(page) => Ok(DeviceMessage::DeviceStatus(DeviceStatus { current_epd_page: page })),
                Err(e) => Err(e),
            }
        } else if data[0] == 0x01 {
            let str_len: u16 = (data[1] as u16) * 256 + (data[2] as u16);
            Ok(DeviceMessage::ListAppImages { str_len })
        } else {
            Err(DriverError::UnknownVariant(data[0]))
        }
    }
}

/// Decoding undoes the device's encoding: the frame of a message decodes to
/// that message.
pub proof fn lemma_parse_wire_bytes(msg: DeviceMessage)
    ensures
        DeviceMessage::parse(msg.wire_bytes()) == Ok::<DeviceMessage, DriverError>(msg),
{
    match msg {
        DeviceMessage::DeviceStatus(status) => {
            let head = seq![0x00u8, status.current_epd_page.ordinal()];
            assert(zero_padded(head)[0] == head[0]);
            assert(zero_padded(head)[1] == head[1]);
        },
        DeviceMessage::ListAppImages { str_len } => {
            let head = seq![0x01u8] + be16(str_len as int);
            assert(zero_padded(head)[0] == head[0]);
            assert(zero_padded(head)[1] == head[1]);
            assert(zero_padded(head)[2] == head[2]);
        },
    }
}

} // verus!
