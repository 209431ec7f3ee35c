use deskassistant_driver::actions::app_images_list;
use deskassistant_driver::actions::app_images_list_reply;
use deskassistant_driver::actions::device_status_reply;
use deskassistant_driver::actions::encode_app_name;
use deskassistant_driver::actions::refresh_display;
use deskassistant_driver::actions::report_active_app;
use deskassistant_driver::actions::retreive_app_images_list;
use deskassistant_driver::actions::retreive_device_status;
use deskassistant_driver::actions::split_lines;
use deskassistant_driver::actions::switch_page;
use deskassistant_driver::actions::update_app_image;
use deskassistant_driver::actions::update_app_image_from_file;
use deskassistant_driver::actions::update_user_image;
use deskassistant_driver::actions::update_user_image_from_file;
use deskassistant_driver::connection::AttachOutcome;
use deskassistant_driver::connection::UsbDevice;
use deskassistant_driver::error::ImageFailure;
use deskassistant_driver::transport::join_payload;
use deskassistant_driver::DeviceMessage;
use deskassistant_driver::DeviceStatus;
use deskassistant_driver::DriverError;
use deskassistant_driver::EpdImage;
use deskassistant_driver::EpdImageFormat;
use deskassistant_driver::EpdPage;
use deskassistant_driver::HostMessage;
use deskassistant_driver::UsbConnection;

fn connected() -> UsbConnection {
    let device = UsbDevice { bus: 1, address: 2, vendor_id: 0x0483, product_id: 0x0456 };
    let mut connection = UsbConnection::new();
    connection.attach_finished(device, AttachOutcome::Claimed).unwrap();
    connection
}

fn solid(width: u32, height: u32, rgba: [u8; 4]) -> EpdImage {
    let mut pixels = Vec::new();
    for _ in 0..(width as usize * height as usize) {
        pixels.extend_from_slice(&rgba);
    }
    EpdImage::from_rgba8(width, height, pixels).unwrap()
}

fn png_of(width: u32, height: u32, rgba: [u8; 4]) -> Vec<u8> {
    let buffer = image::RgbaImage::from_pixel(width, height, image::Rgba(rgba));
    let mut bytes = std::io::Cursor::new(Vec::new());
    image::DynamicImage::ImageRgba8(buffer)
        .write_to(&mut bytes, image::ImageOutputFormat::Png)
        .unwrap();
    bytes.into_inner()
}

fn chunk_of(bytes: &[u8]) -> HostMessage {
    let mut data = [0u8; 63];
    data[..bytes.len()].copy_from_slice(bytes);
    HostMessage::Data { data }
}

fn payload_of(msgs: &[HostMessage], len: usize) -> Vec<u8> {
    let frames: Vec<[u8; 64]> = msgs.iter().map(|m| m.into_data()).collect();
    join_payload(&frames, len).unwrap()
}

#[test]
fn every_operation_needs_a_connection() {
    let connection = UsbConnection::new();
    let not_connected = Err(DriverError::NotConnected);
    assert_eq!(retreive_device_status(&connection), not_connected);
    assert_eq!(refresh_display(&connection), not_connected);
    assert_eq!(switch_page(&connection, EpdPage::Overview), not_connected);
    assert_eq!(update_user_image(&connection, solid(2, 2, [0, 0, 0, 255])), not_connected);
    assert_eq!(update_user_image_from_file(&connection, b"no image"), not_connected);
    assert_eq!(update_app_image(&connection, "a", solid(2, 2, [0, 0, 0, 255])), not_connected);
    assert_eq!(update_app_image_from_file(&connection, "a\0b", b"no image"), not_connected);
    assert_eq!(report_active_app(&connection, "a\0b"), not_connected);
    assert_eq!(retreive_app_images_list(&connection), not_connected);
}

#[test]
fn operations_of_one_message() {
    let connection = connected();
    assert_eq!(retreive_device_status(&connection), Ok(vec![HostMessage::RequestDeviceStatus]));
    assert_eq!(refresh_display(&connection), Ok(vec![HostMessage::RefreshDisplay]));
    assert_eq!(
        switch_page(&connection, EpdPage::AppScreen),
        Ok(vec![HostMessage::SwitchPage(EpdPage::AppScreen)])
    );
    assert_eq!(
        retreive_app_images_list(&connection),
        Ok(vec![HostMessage::RequestListAppImages])
    );
}

#[test]
fn status_reply() {
    let status = DeviceStatus { current_epd_page: EpdPage::UserImage };
    assert_eq!(device_status_reply(DeviceMessage::DeviceStatus(status)), Ok(status));
    assert_eq!(
        device_status_reply(DeviceMessage::ListAppImages { str_len: 4 }),
        Err(DriverError::UnexpectedMessage(0x01))
    );
}

#[test]
fn list_reply() {
    assert_eq!(app_images_list_reply(DeviceMessage::ListAppImages { str_len: 521 }), Ok(521));
    let status = DeviceStatus { current_epd_page: EpdPage::Overview };
    assert_eq!(
        app_images_list_reply(DeviceMessage::DeviceStatus(status)),
        Err(DriverError::UnexpectedMessage(0x00))
    );
}

#[test]
fn app_name_is_terminated() {
    assert_eq!(encode_app_name("shell.exe"), Ok(b"shell.exe\0".to_vec()));
    assert_eq!(encode_app_name(""), Ok(vec![0]));
    assert_eq!(encode_app_name("\u{e9}"), Ok(vec![0xc3, 0xa9, 0]));
}

#[test]
fn app_name_with_a_terminator_inside_is_refused() {
    assert_eq!(encode_app_name("shell\0exe"), Err(DriverError::EncodingError));
    assert_eq!(encode_app_name("\0"), Err(DriverError::EncodingError));
    assert_eq!(encode_app_name("shell.exe\0"), Err(DriverError::EncodingError));
}

#[test]
fn app_name_beyond_a_sixteen_bit_length_is_refused() {
    let longest = "a".repeat(0xfffe);
    assert_eq!(encode_app_name(&longest).map(|bytes| bytes.len()), Ok(0xffff));
    let too_long = "a".repeat(0xffff);
    assert_eq!(encode_app_name(&too_long), Err(DriverError::EncodingError));
}

#[test]
fn report_active_app_scenario() {
    let connection = connected();
    let msgs = report_active_app(&connection, "shell.exe").unwrap();
    assert_eq!(
        msgs,
        vec![
            HostMessage::ReportActiveApp { str_len: 10 },
            chunk_of(b"shell.exe\0"),
            HostMessage::DataComplete,
        ]
    );
    let header = msgs[0].into_data();
    assert_eq!(&header[..3], &[0x07, 0x00, 0x0a]);
    assert_eq!(&header[3..], &[0u8; 61]);
}

#[test]
fn report_active_app_with_a_long_name() {
    let connection = connected();
    let name = "n".repeat(62);
    let msgs = report_active_app(&connection, &name).unwrap();
    assert_eq!(msgs.len(), 4);
    assert_eq!(msgs[0], HostMessage::ReportActiveApp { str_len: 63 });
    assert_eq!(msgs[1], chunk_of(&[b"n".repeat(62), vec![0]].concat()));
    assert_eq!(msgs[2], chunk_of(&[]));
    assert_eq!(msgs[3], HostMessage::DataComplete);
}

#[test]
fn report_active_app_refuses_a_bad_name() {
    let connection = connected();
    assert_eq!(report_active_app(&connection, "a\0b"), Err(DriverError::EncodingError));
}

#[test]
fn update_user_image_scenario() {
    let connection = connected();
    let msgs = update_user_image(&connection, solid(400, 300, [255, 255, 255, 255])).unwrap();
    assert_eq!(msgs.len(), 1 + 239 + 1);
    assert_eq!(
        msgs[0],
        HostMessage::UpdateUserImage { format: EpdImageFormat { width: 400, height: 300 } }
    );
    for msg in &msgs[1..239] {
        assert_eq!(*msg, HostMessage::Data { data: [0xff; 63] });
    }
    assert_eq!(msgs[239], chunk_of(&[0xff; 6]));
    assert_eq!(msgs[240], HostMessage::DataComplete);
    assert_eq!(payload_of(&msgs[1..240], 15000), vec![0xffu8; 15000]);
}

#[test]
fn update_user_image_fits_the_image_to_the_panel() {
    let connection = connected();
    let msgs = update_user_image(&connection, solid(20, 10, [0, 0, 0, 255])).unwrap();
    assert_eq!(msgs.len(), 241);
    assert_eq!(payload_of(&msgs[1..240], 15000), vec![0u8; 15000]);
}

#[test]
fn update_user_image_from_file_decodes_first() {
    let connection = connected();
    let msgs =
        update_user_image_from_file(&connection, &png_of(400, 300, [255, 255, 255, 255])).unwrap();
    assert_eq!(msgs, update_user_image(&connection, solid(400, 300, [255, 255, 255, 255])).unwrap());
    assert_eq!(
        update_user_image_from_file(&connection, b"no image"),
        Err(DriverError::ImageDecodeError(ImageFailure::Unsupported))
    );
}

#[test]
fn update_app_image_sends_two_segments() {
    let connection = connected();
    let msgs = update_app_image(&connection, "shell.exe", solid(400, 300, [0, 0, 0, 255])).unwrap();
    assert_eq!(msgs.len(), 1 + 1 + 1 + 239 + 1);
    assert_eq!(
        msgs[0],
        HostMessage::UpdateAppImage {
            app_name_str_len: 10,
            format: EpdImageFormat { width: 400, height: 300 },
        }
    );
    assert_eq!(msgs[1], chunk_of(b"shell.exe\0"));
    assert_eq!(msgs[2], HostMessage::DataComplete);
    for msg in &msgs[3..242] {
        assert_eq!(*msg, HostMessage::Data { data: [0; 63] });
    }
    assert_eq!(msgs[242], HostMessage::DataComplete);
    let header = msgs[0].into_data();
    assert_eq!(&header[..7], &[0x06, 0x01, 0x90, 0x01, 0x2c, 0x00, 0x0a]);
}

#[test]
fn update_app_image_refuses_a_bad_name() {
    let connection = connected();
    assert_eq!(
        update_app_image(&connection, "a\0", solid(2, 2, [0, 0, 0, 255])),
        Err(DriverError::EncodingError)
    );
    assert_eq!(
        update_app_image_from_file(&connection, "a\0", b"no image"),
        Err(DriverError::EncodingError)
    );
}

#[test]
fn update_app_image_from_file_decodes_first() {
    let connection = connected();
    let msgs =
        update_app_image_from_file(&connection, "calc", &png_of(400, 300, [0, 0, 0, 255])).unwrap();
    assert_eq!(msgs, update_app_image(&connection, "calc", solid(400, 300, [0, 0, 0, 255])).unwrap());
    assert_eq!(
        update_app_image_from_file(&connection, "calc", b"no image"),
        Err(DriverError::ImageDecodeError(ImageFailure::Unsupported))
    );
}

#[test]
fn lines_are_cut_at_newlines() {
    assert_eq!(split_lines(b""), Vec::<Vec<u8>>::new());
    assert_eq!(split_lines(b"one"), vec![b"one".to_vec()]);
    assert_eq!(split_lines(b"one\n"), vec![b"one".to_vec()]);
    assert_eq!(split_lines(b"one\ntwo"), vec![b"one".to_vec(), b"two".to_vec()]);
    assert_eq!(split_lines(b"one\ntwo\n"), vec![b"one".to_vec(), b"two".to_vec()]);
    assert_eq!(split_lines(b"\n"), vec![Vec::<u8>::new()]);
    assert_eq!(split_lines(b"\n\n"), vec![Vec::<u8>::new(), Vec::new()]);
    assert_eq!(split_lines(b"a\n\nb"), vec![b"a".to_vec(), Vec::new(), b"b".to_vec()]);
    assert_eq!(split_lines(b"a\r\nb"), vec![b"a\r".to_vec(), b"b".to_vec()]);
}

#[test]
fn app_images_list_gives_the_names_in_order() {
    assert_eq!(
        app_images_list(b"shell.exe\ncalc.exe\nnotes"),
        Ok(vec!["shell.exe".to_string(), "calc.exe".to_string(), "notes".to_string()])
    );
    assert_eq!(app_images_list(b""), Ok(vec![]));
    assert_eq!(app_images_list(b"caf\xc3\xa9\n"), Ok(vec!["caf\u{e9}".to_string()]));
}

#[test]
fn app_images_list_refuses_what_is_not_text() {
    assert_eq!(app_images_list(b"good\n\xff\xfe\n"), Err(DriverError::EncodingError));
    assert_eq!(app_images_list(b"\xc3"), Err(DriverError::EncodingError));
}

#[test]
fn app_images_list_from_received_frames() {
    let connection = connected();
    let list = b"shell.exe\ncalc.exe\n";
    let mut frame = [0u8; 64];
    frame[1..1 + list.len()].copy_from_slice(list);
    let mut meta = [0u8; 64];
    meta[0] = 0x01;
    meta[2] = list.len() as u8;
    let announced = connection.read_device_message(&meta).unwrap();
    let len = app_images_list_reply(announced).unwrap();
    assert_eq!(len, 19);
    let payload = connection.receive_device_data(&[frame], len as usize).unwrap();
    assert_eq!(
        app_images_list(&payload),
        Ok(vec!["shell.exe".to_string(), "calc.exe".to_string()])
    );
}
