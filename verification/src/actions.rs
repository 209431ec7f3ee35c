//! The operations of the driver, as the messages they put on the bus and as
//! what they make of the device's answers.
//!
//! Every operation asks for a session that holds a device and fails with
//! `NotConnected` otherwise. An operation that sends returns its messages in
//! the order in which they go out; the caller writes each, and stops at the
//! first that the bus refuses. Nothing is sent twice.

use vstd::prelude::*;
use vstd::slice::slice_subrange;
use vstd::slice::slice_to_vec;
use vstd::utf8::encode_utf8;
use vstd::utf8::valid_utf8;
use crate::connection::UsbConnection;
use crate::epdimage::decoded_rgba;
use crate::epdimage::decoded_image;
use crate::epdimage::exported;
use crate::epdimage::EpdImage;
use crate::epdimage::EpdImageFormat;
use crate::epdimage::EPD_HEIGHT;
use crate::epdimage::EPD_WIDTH;
use crate::error::DriverError;
use crate::messages::DeviceMessage;
use crate::messages::HostMessage;
use crate::page::DeviceStatus;
use crate::page::EpdPage;
use crate::transport::carries;
use crate::transport::frame_count;
use crate::transport::split_payload;

verus! {

/// `msgs` are one segment: the data messages of `payload`, then the message
/// that ends it.
pub open spec fn is_segment(msgs: Seq<HostMessage>, payload: Seq<u8>) -> bool {
    &&& msgs.len() == frame_count(payload.len()) + 1
    &&& carries(msgs.subrange(0, msgs.len() - 1), payload)
    &&& msgs[msgs.len() - 1] == HostMessage::DataComplete
}

/// The geometry of the panel.
pub open spec fn panel_format() -> EpdImageFormat {
    EpdImageFormat { width: EPD_WIDTH, height: EPD_HEIGHT }
}

/// Whether a name can be sent: it holds no zero byte, and with its
/// terminator it is no longer than a 16-bit length can say.
pub open spec fn name_is_sendable(name: Seq<u8>) -> bool {
    &&& forall|i: int| 0 <= i < name.len() ==> name[i] != 0
    &&& name.len() + 1 <= u16::MAX
}

/// Appends one segment to `msgs`.
fn push_segment(msgs: &mut Vec<HostMessage>, payload: &[u8])
    ensures
        final(msgs)@.len() == old(msgs)@.len() + frame_count(payload@.len()) + 1,
        final(msgs)@.subrange(0, old(msgs)@.len() as int) == old(msgs)@,
        is_segment(
            final(msgs)@.subrange(old(msgs)@.len() as int, final(msgs)@.len() as int),
            payload@,
        ),
{
    let mut data = split_payload(payload);
    let ghost before = msgs@;
    let ghost chunks = data@;
    msgs.append(&mut data);
    msgs.push(HostMessage::DataComplete);
    proof {
        let segment = msgs@.subrange(before.len() as int, msgs@.len() as int);
        assert(msgs@.subrange(0, before.len() as int) =~= before);
        assert(segment.subrange(0, segment.len() - 1) =~= chunks);
    }
}

/// The name as the terminated byte string that goes over the wire. A name
/// that cannot be sent is refused with `EncodingError`.
pub fn encode_app_name(app_name: &str) -> (res: Result<Vec<u8>, DriverError>)
    ensures
        match res {
            Ok(bytes) => name_is_sendable(encode_utf8(app_name@)) && bytes@ == encode_utf8(
                app_name@,
            ).push(0u8),
            Err(e) => e == DriverError::EncodingError && !name_is_sendable(
                encode_utf8(app_name@),
            ),
        },
{
    let name = app_name.as_bytes();
    if name.len() >= 0xffff {
        return Err(DriverError::EncodingError);
    }
    let mut bytes: Vec<u8> = Vec::new();
    let mut i: usize = 0;
    while i < name.len()
        invariant
            name@ == encode_utf8(app_name@),
            i <= name@.len(),
            bytes@ == name@.subrange(0, i as int),
            forall|k: int| 0 <= k < i ==> name@[k] != 0,
        decreases name@.len() - i,
    {
        if name[i] == 0 {
            return Err(DriverError::EncodingError);
        }
        bytes.push(name[i]);
        assert(bytes@ =~= name@.subrange(0, i as int + 1));
        i += 1;
    }
    assert(name@.subrange(0, name@.len() as int) =~= name@);
    bytes.push(0);
    Ok(bytes)
}

/// Asks the device for its status: one request. The answer goes to
/// [`device_status_reply`].
pub fn retreive_device_status(connection: &UsbConnection) -> (res: Result<
    Vec<HostMessage>,
    DriverError,
>)
    ensures
        match res {
            Ok(msgs) => connection@.held is Some && msgs@ == seq![
                HostMessage::RequestDeviceStatus,
            ],
            Err(e) => connection@.held is None && e == DriverError::NotConnected,
        },
{
    if !connection.is_connected() {
        return Err(DriverError::NotConnected);
    }
    let mut msgs: Vec<HostMessage> = Vec::new();
    msgs.push(HostMessage::RequestDeviceStatus);
    assert(msgs@ =~= seq![HostMessage::RequestDeviceStatus]);
    Ok(msgs)
}

/// The status that the device's answer holds. Any other message is
/// refused with `UnexpectedMessage` and its tag.
pub fn device_status_reply(reply: DeviceMessage) -> (res: Result<DeviceStatus, DriverError>)
    ensures
        res == match reply {
            DeviceMessage::DeviceStatus(status) => Ok::<DeviceStatus, DriverError>(status),
            _ => Err::<DeviceStatus, DriverError>(DriverError::UnexpectedMessage(reply.tag())),
        },
{
    match reply {
        DeviceMessage::DeviceStatus(status) => Ok(status),
        msg => Err(DriverError::UnexpectedMessage(msg.kind())),
    }
}

/// Has the display drawn again: one message.
pub fn refresh_display(connection: &UsbConnection) -> (res: Result<Vec<HostMessage>, DriverError>)
    ensures
        match res {
            Ok(msgs) => connection@.held is Some && msgs@ == seq![HostMessage::RefreshDisplay],
            Err(e) => connection@.held is None && e == DriverError::NotConnected,
        },
{
    if !connection.is_connected() {
        return Err(DriverError::NotConnected);
    }
    let mut msgs: Vec<HostMessage> = Vec::new();
    msgs.push(HostMessage::RefreshDisplay);
    assert(msgs@ =~= seq![HostMessage::RefreshDisplay]);
    Ok(msgs)
}

/// Switches the display to a page: one message.
pub fn switch_page(connection: &UsbConnection, page: EpdPage) -> (res: Result<
    Vec<HostMessage>,
    DriverError,
>)
    ensures
        match res {
            Ok(msgs) => connection@.held is Some && msgs@ == seq![HostMessage::SwitchPage(page)],
            Err(e) => connection@.held is None && e == DriverError::NotConnected,
        },
{
    if !connection.is_connected() {
        return Err(DriverError::NotConnected);
    }
    let mut msgs: Vec<HostMessage> = Vec::new();
    msgs.push(HostMessage::SwitchPage(page));
    assert(msgs@ =~= seq![HostMessage::SwitchPage(page)]);
    Ok(msgs)
}

/// `msgs` announce a user image of the panel's geometry and carry `frame`
/// as one segment.
pub open spec fn is_user_image_update(msgs: Seq<HostMessage>, frame: Seq<u8>) -> bool {
    &&& msgs.len() == frame_count(frame.len()) + 2
    &&& msgs[0] == HostMessage::UpdateUserImage { format: panel_format() }
    &&& is_segment(msgs.subrange(1, msgs.len() as int), frame)
}

/// `msgs` announce an application image of the panel's geometry under a
/// name of `name.len()` bytes, and carry first `name`, then `frame`, each as
/// one segment.
pub open spec fn is_app_image_update(msgs: Seq<HostMessage>, name: Seq<u8>, frame: Seq<u8>) -> bool {
    let name_end = frame_count(name.len()) + 2;
    &&& msgs.len() == name_end + frame_count(frame.len()) + 1
    &&& msgs[0] == HostMessage::UpdateAppImage {
        app_name_str_len: name.len() as u16,
        format: panel_format(),
    }
    &&& is_segment(msgs.subrange(1, name_end as int), name)
    &&& is_segment(msgs.subrange(name_end as int, msgs.len() as int), frame)
}

/// `msgs` announce the name, of `name.len()` bytes, of the application in
/// front and carry it as one segment.
pub open spec fn is_active_app_report(msgs: Seq<HostMessage>, name: Seq<u8>) -> bool {
    &&& msgs.len() == frame_count(name.len()) + 2
    &&& msgs[0] == HostMessage::ReportActiveApp { str_len: name.len() as u16 }
    &&& is_segment(msgs.subrange(1, msgs.len() as int), name)
}

/// Shows an image on the user-image page: the announcement, the packed
/// image, the end of the data. The image is fitted to the panel first.
pub fn update_user_image(connection: &UsbConnection, image: EpdImage) -> (res: Result<
    Vec<HostMessage>,
    DriverError,
>)
    ensures
        connection@.held is None ==> res == Err::<Vec<HostMessage>, DriverError>(
            DriverError::NotConnected,
        ),
        connection@.held is Some ==> match res {
            Ok(msgs) => exported(image@, panel_format()) matches Ok(frame) && is_user_image_update(
                msgs@,
                frame,
            ),
            Err(e) => exported(image@, panel_format()) == Err::<Seq<u8>, DriverError>(e),
        },
{
    if !connection.is_connected() {
        return Err(DriverError::NotConnected);
    }
    let format = EpdImageFormat { width: EPD_WIDTH, height: EPD_HEIGHT };
    let frame = match image.export(&format) {
        Ok(frame) => frame,
        Err(e) => {
            return Err(e);
        },
    };
    let mut msgs: Vec<HostMessage> = Vec::new();
    msgs.push(HostMessage::UpdateUserImage { format });
    push_segment(&mut msgs, frame.as_slice());
    assert(msgs@[0] == msgs@.subrange(0, 1)[0]);
    assert(is_user_image_update(msgs@, frame@));
    Ok(msgs)
}

/// Shows the image that a file holds on the user-image page. `file` is the
/// file's content, in any format that the decoder knows.
pub fn update_user_image_from_file(connection: &UsbConnection, file: &[u8]) -> (res: Result<
    Vec<HostMessage>,
    DriverError,
>)
    ensures
        connection@.held is None ==> res == Err::<Vec<HostMessage>, DriverError>(
            DriverError::NotConnected,
        ),
        connection@.held is Some ==> match decoded_rgba(file@) {
            None => res matches Err(e) && e is ImageDecodeError,
            Some(raster) => match decoded_image(raster) {
                Err(failure) => res == Err::<Vec<HostMessage>, DriverError>(failure),
                Ok(image) => match res {
                    Ok(msgs) => exported(image, panel_format()) matches Ok(frame)
                        && is_user_image_update(msgs@, frame),
                    Err(e) => exported(image, panel_format()) == Err::<Seq<u8>, DriverError>(e),
                },
            },
        },
{
    if !connection.is_connected() {
        return Err(DriverError::NotConnected);
    }
    match EpdImage::decode(file) {
        Ok(image) => update_user_image(connection, image),
        Err(e) => Err(e),
    }
}

/// Stores an image on the device under an application's name: the
/// announcement, the name and the end of its data, the packed image and the
/// end of its data. Nothing is returned for a name that cannot be sent.
pub fn update_app_image(connection: &UsbConnection, app_name: &str, image: EpdImage) -> (res:
    Result<Vec<HostMessage>, DriverError>)
    ensures
        connection@.held is None ==> res == Err::<Vec<HostMessage>, DriverError>(
            DriverError::NotConnected,
        ),
        connection@.held is Some && !name_is_sendable(encode_utf8(app_name@)) ==> res == Err::<
            Vec<HostMessage>,
            DriverError,
        >(DriverError::EncodingError),
        connection@.held is Some && name_is_sendable(encode_utf8(app_name@)) ==> match res {
            Ok(msgs) => exported(image@, panel_format()) matches Ok(frame) && is_app_image_update(
                msgs@,
                encode_utf8(app_name@).push(0u8),
                frame,
            ),
            Err(e) => exported(image@, panel_format()) == Err::<Seq<u8>, DriverError>(e),
        },
{
    if !connection.is_connected() {
        return Err(DriverError::NotConnected);
    }
    let name = match encode_app_name(app_name) {
        Ok(name) => name,
        Err(e) => {
            return Err(e);
        },
    };
    let format = EpdImageFormat { width: EPD_WIDTH, height: EPD_HEIGHT };
    let frame = match image.export(&format) {
        Ok(frame) => frame,
        Err(e) => {
            return Err(e);
        },
    };
    let mut msgs: Vec<HostMessage> = Vec::new();
    msgs.push(HostMessage::UpdateAppImage { app_name_str_len: name.len() as u16, format });
    push_segment(&mut msgs, name.as_slice());
    assert(msgs@[0] == msgs@.subrange(0, 1)[0]);
    let ghost with_name = msgs@;
    push_segment(&mut msgs, frame.as_slice());
    proof {
        let name_end = frame_count(name@.len()) + 2;
        assert(msgs@.subrange(0, with_name.len() as int)[0] == msgs@[0]);
        assert(msgs@.subrange(1, name_end as int) =~= with_name.subrange(
            1,
            with_name.len() as int,
        ));
        assert(is_app_image_update(msgs@, name@, frame@));
    }
    Ok(msgs)
}

/// Stores the image that a file holds under an application's name. `file` is
/// the file's content. The name is looked at before the image.
pub fn update_app_image_from_file(connection: &UsbConnection, app_name: &str, file: &[u8]) -> (res:
    Result<Vec<HostMessage>, DriverError>)
    ensures
        connection@.held is None ==> res == Err::<Vec<HostMessage>, DriverError>(
            DriverError::NotConnected,
        ),
        connection@.held is Some && !name_is_sendable(encode_utf8(app_name@)) ==> res == Err::<
            Vec<HostMessage>,
            DriverError,
        >(DriverError::EncodingError),
        connection@.held is Some && name_is_sendable(encode_utf8(app_name@)) ==> match decoded_rgba(
            file@,
        ) {
            None => res matches Err(e) && e is ImageDecodeError,
            Some(raster) => match decoded_image(raster) {
                Err(failure) => res == Err::<Vec<HostMessage>, DriverError>(failure),
                Ok(image) => match res {
                    Ok(msgs) => exported(image, panel_format()) matches Ok(frame)
                        && is_app_image_update(msgs@, encode_utf8(app_name@).push(0u8), frame),
                    Err(e) => exported(image, panel_format()) == Err::<Seq<u8>, DriverError>(e),
                },
            },
        },
{
    if !connection.is_connected() {
        return Err(DriverError::NotConnected);
    }
    match encode_app_name(app_name) {
        Ok(_) => {},
        Err(e) => {
            return Err(e);
        },
    }
    match EpdImage::decode(file) {
        Ok(image) => update_app_image(connection, app_name, image),
        Err(e) => Err(e),
    }
}

/// Tells the device which application is in front: the announcement, the
/// name, the end of the data.
pub fn report_active_app(connection: &UsbConnection, app_name: &str) -> (res: Result<
    Vec<HostMessage>,
    DriverError,
>)
    ensures
        connection@.held is None ==> res == Err::<Vec<HostMessage>, DriverError>(
            DriverError::NotConnected,
        ),
        connection@.held is Some ==> match res {
            Ok(msgs) => name_is_sendable(encode_utf8(app_name@)) && is_active_app_report(
                msgs@,
                encode_utf8(app_name@).push(0u8),
            ),
            Err(e) => e == DriverError::EncodingError && !name_is_sendable(
                encode_utf8(app_name@),
            ),
        },
{
    if !connection.is_connected() {
        return Err(DriverError::NotConnected);
    }
    let name = match encode_app_name(app_name) {
        Ok(name) => name,
        Err(e) => {
            return Err(e);
        },
    };
    let mut msgs: Vec<HostMessage> = Vec::new();
    msgs.push(HostMessage::ReportActiveApp { str_len: name.len() as u16 });
    push_segment(&mut msgs, name.as_slice());
    assert(msgs@[0] == msgs@.subrange(0, 1)[0]);
    assert(is_active_app_report(msgs@, name@));
    Ok(msgs)
}

/// Asks the device for the names under which it holds images: one request.
/// The answer goes to [`app_images_list_reply`], the data that follows to
/// [`app_images_list`].
pub fn retreive_app_images_list(connection: &UsbConnection) -> (res: Result<
    Vec<HostMessage>,
    DriverError,
>)
    ensures
        match res {
            Ok(msgs) => connection@.held is Some && msgs@ == seq![
                HostMessage::RequestListAppImages,
            ],
            Err(e) => connection@.held is None && e == DriverError::NotConnected,
        },
{
    if !connection.is_connected() {
        return Err(DriverError::NotConnected);
    }
    let mut msgs: Vec<HostMessage> = Vec::new();
    msgs.push(HostMessage::RequestListAppImages);
    assert(msgs@ =~= seq![HostMessage::RequestListAppImages]);
    Ok(msgs)
}

/// The length in bytes of the list of names that the device announces. Any
/// other message is refused with `UnexpectedMessage` and its tag.
pub fn app_images_list_reply(reply: DeviceMessage) -> (res: Result<u16, DriverError>)
    ensures
        res == match reply {
            DeviceMessage::ListAppImages { str_len } => Ok::<u16, DriverError>(str_len),
            _ => Err::<u16, DriverError>(DriverError::UnexpectedMessage(reply.tag())),
        },
{
    match reply {
        DeviceMessage::ListAppImages { str_len } => Ok(str_len),
        msg => Err(DriverError::UnexpectedMessage(msg.kind())),
    }
}

/// The lines of `bytes` from `start` on, where the bytes before `at` hold no
/// line end: each line ends before a newline byte or with the bytes, and
/// nothing follows a last newline.
pub open spec fn lines_from(bytes: Seq<u8>, start: int, at: int) -> Seq<Seq<u8>>
    decreases bytes.len() - at,
{
    if at >= bytes.len() {
        if start < bytes.len() {
            seq![bytes.subrange(start, bytes.len() as int)]
        } else {
            Seq::empty()
        }
    } else if bytes[at] == 0x0a {
        seq![bytes.subrange(start, at)] + lines_from(bytes, at + 1, at + 1)
    } else {
        lines_from(bytes, start, at + 1)
    }
}

/// The lines of `bytes`: the runs between newline bytes, in order. A newline
/// at the very end ends the last line and begins none.
pub open spec fn lines_of(bytes: Seq<u8>) -> Seq<Seq<u8>> {
    lines_from(bytes, 0, 0)
}

/// The lines put together again, each followed by a newline byte.
pub open spec fn joined(lines: Seq<Seq<u8>>) -> Seq<u8>
    decreases lines.len(),
{
    if lines.len() == 0 {
        Seq::empty()
    } else {
        lines[0] + seq![0x0au8] + joined(lines.subrange(1, lines.len() as int))
    }
}

/// The bytes with a newline byte at their end: as they are where they are
/// empty or end in one, with one added otherwise.
pub open spec fn newline_ended(bytes: Seq<u8>) -> Seq<u8> {
    if bytes.len() == 0 || bytes[bytes.len() - 1] == 0x0a {
        bytes
    } else {
        bytes.push(0x0au8)
    }
}

/// The lines from `start` on, put together again, are the bytes from `start`
/// on, ended by a newline.
proof fn lemma_lines_from_rejoin(bytes: Seq<u8>, start: int, at: int)
    requires
        0 <= start <= at <= bytes.len(),
        forall|i: int| start <= i < at ==> bytes[i] != 0x0a,
    ensures
        joined(lines_from(bytes, start, at)) == if start == bytes.len() {
            Seq::<u8>::empty()
        } else {
            newline_ended(bytes).subrange(start, newline_ended(bytes).len() as int)
        },
    decreases bytes.len() - at,
{
    let len = bytes.len() as int;
    let ended = newline_ended(bytes);
    if at >= len {
        if start < len {
            let line = bytes.subrange(start, len);
            let lines = seq![line];
            assert(lines.subrange(1, 1) =~= Seq::<Seq<u8>>::empty());
            assert(joined(Seq::<Seq<u8>>::empty()) =~= Seq::<u8>::empty());
            assert(joined(lines) =~= line + seq![0x0au8]);
            assert(bytes[len - 1] != 0x0a);
            assert(line + seq![0x0au8] =~= ended.subrange(start, ended.len() as int));
        }
    } else if bytes[at] == 0x0a {
        let line = bytes.subrange(start, at);
        let rest = lines_from(bytes, at + 1, at + 1);
        let lines = seq![line] + rest;
        lemma_lines_from_rejoin(bytes, at + 1, at + 1);
        assert(lines.subrange(1, lines.len() as int) =~= rest);
        assert(lines[0] == line);
        assert(joined(lines) == line + seq![0x0au8] + joined(rest));
        if at + 1 == len {
            assert(joined(rest) =~= Seq::<u8>::empty());
            assert(line + seq![0x0au8] + joined(rest) =~= ended.subrange(start, ended.len() as int));
        } else {
            assert(line + seq![0x0au8] + ended.subrange(at + 1, ended.len() as int)
                =~= ended.subrange(start, ended.len() as int));
        }
    } else {
        lemma_lines_from_rejoin(bytes, start, at + 1);
    }
}

/// Cutting into lines loses nothing but the newlines: the lines, each
/// followed by a newline byte, are the buffer, with a newline added at its
/// end where it is not empty and has none there.
pub proof fn lemma_lines_rejoin(bytes: Seq<u8>)
    ensures
        joined(lines_of(bytes)) == newline_ended(bytes),
{
    lemma_lines_from_rejoin(bytes, 0, 0);
    if bytes.len() > 0 {
        assert(newline_ended(bytes).subrange(0, newline_ended(bytes).len() as int)
            =~= newline_ended(bytes));
    }
}

/// No line holds a newline byte.
pub proof fn lemma_lines_hold_no_newline(bytes: Seq<u8>)
    ensures
        forall|k: int, j: int|
            0 <= k < lines_of(bytes).len() && 0 <= j < lines_of(bytes)[k].len()
                ==> #[trigger] lines_of(bytes)[k][j] != 0x0a,
{
    lemma_lines_from_hold_no_newline(bytes, 0, 0);
}

/// No line from `start` on holds a newline byte.
proof fn lemma_lines_from_hold_no_newline(bytes: Seq<u8>, start: int, at: int)
    requires
        0 <= start <= at <= bytes.len(),
        forall|i: int| start <= i < at ==> bytes[i] != 0x0a,
    ensures
        forall|k: int, j: int|
            0 <= k < lines_from(bytes, start, at).len() && 0 <= j < lines_from(bytes, start, at)[k].len()
                ==> #[trigger] lines_from(bytes, start, at)[k][j] != 0x0a,
    decreases bytes.len() - at,
{
    let len = bytes.len() as int;
    if at >= len {
        let lines = lines_from(bytes, start, at);
        assert forall|k: int, j: int| 0 <= k < lines.len() && 0 <= j < lines[k].len() implies
            #[trigger] lines[k][j] != 0x0a by {
            assert(lines[k] == bytes.subrange(start, len));
            assert(lines[k][j] == bytes[start + j]);
        }
    } else if bytes[at] == 0x0a {
        lemma_lines_from_hold_no_newline(bytes, at + 1, at + 1);
        let rest = lines_from(bytes, at + 1, at + 1);
        let lines = seq![bytes.subrange(start, at)] + rest;
        assert forall|k: int, j: int| 0 <= k < lines.len() && 0 <= j < lines[k].len() implies
            #[trigger] lines[k][j] != 0x0a by {
            if k > 0 {
                assert(lines[k] == rest[k - 1]);
            } else {
                assert(lines[k] == bytes.subrange(start, at));
                assert(lines[k][j] == bytes[start + j]);
            }
        }
    } else {
        lemma_lines_from_hold_no_newline(bytes, start, at + 1);
        assert(lines_from(bytes, start, at) == lines_from(bytes, start, at + 1));
    }
}

/// The contents of a run of byte vectors.
pub open spec fn contents(lines: Seq<Vec<u8>>) -> Seq<Seq<u8>> {
    Seq::new(lines.len(), |i: int| lines[i]@)
}

/// Cuts a buffer into its lines at the newline bytes.
pub fn split_lines(bytes: &[u8]) -> (lines: Vec<Vec<u8>>)
    ensures
        contents(lines@) == lines_of(bytes@),
{
    let mut lines: Vec<Vec<u8>> = Vec::new();
    let mut start: usize = 0;
    let mut at: usize = 0;
    assert(contents(lines@) + lines_from(bytes@, 0, 0) =~= lines_of(bytes@));
    while at < bytes.len()
        invariant
            start <= at <= bytes@.len(),
            contents(lines@) + lines_from(bytes@, start as int, at as int) == lines_of(bytes@),
        decreases bytes@.len() - at,
    {
        if bytes[at] == 0x0a {
            let ghost before = contents(lines@);
            let line = slice_to_vec(slice_subrange(bytes, start, at));
            lines.push(line);
            assert(contents(lines@) =~= before + seq![bytes@.subrange(start as int, at as int)]);
            start = at + 1;
        }
        at += 1;
    }
    if start < bytes.len() {
        let ghost before = contents(lines@);
        let line = slice_to_vec(slice_subrange(bytes, start, bytes.len()));
        lines.push(line);
        assert(contents(lines@) =~= before + seq![
            bytes@.subrange(start as int, bytes@.len() as int),
        ]);
    } else {
        assert(contents(lines@) + Seq::<Seq<u8>>::empty() =~= contents(lines@));
    }
    lines
}

/// Calls `String::from_utf8`. Trusted: it succeeds on the byte strings that
/// are UTF-8 and on no others, and the string it gives holds those bytes.
#[verifier::external_body]
fn string_from_utf8(bytes: Vec<u8>) -> (res: Option<String>)
    ensures
        res is Some <==> valid_utf8(bytes@),
        res matches Some(text) ==> encode_utf8(text@) == bytes@,
{
    String::from_utf8(bytes).ok()
}

/// The names in the list that the device sent, in the device's order: the
/// lines of the payload, each as a string. A line that is not UTF-8 is
/// refused with `EncodingError`.
pub fn app_images_list(payload: &[u8]) -> (res: Result<Vec<String>, DriverError>)
    ensures
        match res {
            Ok(names) => {
                &&& names@.len() == lines_of(payload@).len()
                &&& forall|i: int|
                    0 <= i < names@.len() ==> valid_utf8(#[trigger] lines_of(payload@)[i])
                &&& forall|i: int|
                    0 <= i < names@.len() ==> encode_utf8(#[trigger] names@[i]@) == lines_of(
                        payload@,
                    )[i]
            },
            Err(e) => e == DriverError::EncodingError && exists|i: int|
                0 <= i < lines_of(payload@).len() && !valid_utf8(#[trigger] lines_of(payload@)[i]),
        },
{
    let lines = split_lines(payload);
    let mut names: Vec<String> = Vec::new();
    let mut i: usize = 0;
    while i < lines.len()
        invariant
            i <= lines@.len(),
            contents(lines@) == lines_of(payload@),
            names@.len() == i,
            forall|k: int| 0 <= k < i ==> valid_utf8(#[trigger] lines_of(payload@)[k]),
            forall|k: int|
                0 <= k < i ==> encode_utf8(#[trigger] names@[k]@) == lines_of(payload@)[k],
        decreases lines@.len() - i,
    {
        let line = lines[i].clone();
        assert(line@ =~= lines@[i as int]@);
        assert(contents(lines@)[i as int] == lines@[i as int]@);
        let ghost wanted = lines_of(payload@)[i as int];
        assert(line@ == wanted);
        match string_from_utf8(line) {
            Some(text) => {
                names.push(text);
            },
            None => {
                return Err(DriverError::EncodingError);
            },
        }
        i += 1;
    }
    Ok(names)
}

} // verus!
