use deskassistant_driver::error::BusFailure;
use deskassistant_driver::transport::frames_needed;
use deskassistant_driver::transport::receive_failure;
use deskassistant_driver::transport::send_failure;
use deskassistant_driver::transport::join_payload;
use deskassistant_driver::transport::split_payload;
use deskassistant_driver::DriverError;
use deskassistant_driver::HostMessage;

fn payload_of(len: usize) -> Vec<u8> {
    (0..len).map(|i| (i % 251) as u8 + 1).collect()
}

fn frames_of(msgs: &[HostMessage]) -> Vec<[u8; 64]> {
    msgs.iter().map(|m| m.into_data()).collect()
}

fn round_trip(len: usize) {
    let payload = payload_of(len);
    let msgs = split_payload(&payload);
    assert_eq!(msgs.len(), len / 63 + 1);
    assert_eq!(msgs.len(), frames_needed(len));
    for msg in &msgs {
        assert!(matches!(msg, HostMessage::Data { .. }));
    }
    let frames = frames_of(&msgs);
    assert_eq!(join_payload(&frames, len), Ok(payload));
}

#[test]
fn round_trip_of_empty_payload() {
    round_trip(0);
}

#[test]
fn round_trip_of_one_byte() {
    round_trip(1);
}

#[test]
fn round_trip_of_one_byte_less_than_a_chunk() {
    round_trip(62);
}

#[test]
fn round_trip_of_exactly_one_chunk() {
    round_trip(63);
}

#[test]
fn round_trip_of_a_frame_length() {
    round_trip(64);
}

#[test]
fn round_trip_of_two_chunks_and_five() {
    round_trip(2 * 63 + 5);
}

#[test]
fn frame_counts() {
    assert_eq!(frames_needed(0), 1);
    assert_eq!(frames_needed(1), 1);
    assert_eq!(frames_needed(62), 1);
    assert_eq!(frames_needed(63), 2);
    assert_eq!(frames_needed(64), 2);
    assert_eq!(frames_needed(131), 3);
    assert_eq!(frames_needed(15000), 239);
    assert_eq!(frames_needed(usize::MAX), usize::MAX / 63 + 1);
}

#[test]
fn empty_payload_goes_as_one_frame_of_zeros() {
    let msgs = split_payload(&[]);
    assert_eq!(msgs, vec![HostMessage::Data { data: [0u8; 63] }]);
}

#[test]
fn full_chunk_is_followed_by_a_frame_of_zeros() {
    let payload = [0xabu8; 63];
    let msgs = split_payload(&payload);
    assert_eq!(
        msgs,
        vec![HostMessage::Data { data: [0xab; 63] }, HostMessage::Data { data: [0u8; 63] }]
    );
}

#[test]
fn last_chunk_is_padded_with_zeros() {
    let payload = payload_of(70);
    let msgs = split_payload(&payload);
    assert_eq!(msgs.len(), 2);
    let mut first = [0u8; 63];
    first.copy_from_slice(&payload[..63]);
    let mut second = [0u8; 63];
    second[..7].copy_from_slice(&payload[63..]);
    assert_eq!(msgs[0], HostMessage::Data { data: first });
    assert_eq!(msgs[1], HostMessage::Data { data: second });
}

#[test]
fn receive_cuts_the_padding_off() {
    let mut frame = [0x55u8; 64];
    frame[0] = 0x00;
    assert_eq!(join_payload(&[frame], 0), Ok(vec![]));
    assert_eq!(join_payload(&[frame], 3), Ok(vec![0x55; 3]));
    assert_eq!(join_payload(&[frame], 62), Ok(vec![0x55; 62]));
}

#[test]
fn receive_reads_no_more_frames_than_the_payload_takes() {
    let mut data = [0x11u8; 64];
    data[0] = 0x00;
    let mut other = [0x22u8; 64];
    other[0] = 0x07;
    assert_eq!(join_payload(&[data, other], 5), Ok(vec![0x11; 5]));
}

#[test]
fn receive_with_too_few_frames_is_a_partial_transfer() {
    let mut frame = [0x33u8; 64];
    frame[0] = 0x00;
    assert_eq!(join_payload(&[], 0), Err(DriverError::PartialTransfer(0)));
    assert_eq!(join_payload(&[], 100), Err(DriverError::PartialTransfer(0)));
    assert_eq!(join_payload(&[frame], 63), Err(DriverError::PartialTransfer(63)));
    assert_eq!(join_payload(&[frame, frame], 200), Err(DriverError::PartialTransfer(126)));
}

#[test]
fn receive_of_a_frame_that_is_no_data_frame_is_unexpected() {
    let mut data = [0x44u8; 64];
    data[0] = 0x00;
    let mut other = [0u8; 64];
    other[0] = 0x01;
    assert_eq!(join_payload(&[other], 10), Err(DriverError::UnexpectedMessage(0x01)));
    assert_eq!(join_payload(&[data, other, data], 130), Err(DriverError::UnexpectedMessage(0x01)));
    assert_eq!(join_payload(&[data, other], 100), Err(DriverError::UnexpectedMessage(0x01)));
}

#[test]
fn failure_on_a_single_message() {
    let msgs = [HostMessage::RefreshDisplay];
    assert_eq!(send_failure(&msgs, 0, BusFailure::TimedOut), DriverError::TimedOut);
    assert_eq!(send_failure(&msgs, 0, BusFailure::Other), DriverError::PartialTransfer(0));
}

#[test]
fn failure_on_a_data_message_counts_what_went_out() {
    let chunk = HostMessage::Data { data: [7; 63] };
    let msgs = [
        HostMessage::UpdateAppImage {
            app_name_str_len: 100,
            format: deskassistant_driver::EpdImageFormat { width: 400, height: 300 },
        },
        chunk,
        chunk,
        HostMessage::DataComplete,
        chunk,
        chunk,
        chunk,
        HostMessage::DataComplete,
    ];
    assert_eq!(send_failure(&msgs, 0, BusFailure::TimedOut), DriverError::TimedOut);
    assert_eq!(send_failure(&msgs, 1, BusFailure::TimedOut), DriverError::PartialTransfer(0));
    assert_eq!(send_failure(&msgs, 2, BusFailure::Other), DriverError::PartialTransfer(63));
    assert_eq!(send_failure(&msgs, 3, BusFailure::TimedOut), DriverError::TimedOut);
    assert_eq!(send_failure(&msgs, 3, BusFailure::Other), DriverError::PartialTransfer(0));
    assert_eq!(send_failure(&msgs, 4, BusFailure::Other), DriverError::PartialTransfer(0));
    assert_eq!(send_failure(&msgs, 5, BusFailure::TimedOut), DriverError::PartialTransfer(63));
    assert_eq!(send_failure(&msgs, 6, BusFailure::TimedOut), DriverError::PartialTransfer(126));
    assert_eq!(send_failure(&msgs, 7, BusFailure::TimedOut), DriverError::TimedOut);
}

#[test]
fn failure_past_the_messages_is_no_partial_transfer_of_data() {
    let msgs = [HostMessage::Data { data: [7; 63] }];
    assert_eq!(send_failure(&msgs, 1, BusFailure::TimedOut), DriverError::TimedOut);
    assert_eq!(send_failure(&[], 0, BusFailure::Other), DriverError::PartialTransfer(0));
}

#[test]
fn failure_while_a_frame_is_awaited() {
    assert_eq!(receive_failure(BusFailure::TimedOut), DriverError::TimedOut);
    assert_eq!(receive_failure(BusFailure::Other), DriverError::PartialTransfer(0));
}
