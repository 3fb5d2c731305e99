use smart_house::sdcp::results::{FrameError, RecvError, RequestError};
use smart_house::sdcp::{
    envelope, finish_request, make_frame, make_packet, parse_packet, ParamItem, SdcpFrame,
    SDCP_COMMANDS, SDCP_OK, SDCP_PACKET_HEADER,
};
use smart_house::console::command_frame;
use smart_house::sdcpu;
use smart_house::socket_device::SocketDevice;

fn frame(data: &str) -> SdcpFrame {
    make_frame(String::from(data)).ok().expect("the text should decode")
}

fn params(f: &SdcpFrame) -> Vec<(String, String)> {
    f.parameters.iter().map(|p| (p.name.clone(), p.value.clone())).collect()
}

fn pair(name: &str, value: &str) -> (String, String) {
    (String::from(name), String::from(value))
}

fn serve(device: &mut SocketDevice, request: &str) -> String {
    make_packet(device.handler(make_frame(String::from(request))))
}

#[test]
fn decode_reads_command_and_upper_cases_parameters() {
    let f = frame("Command=setp;STATUS=true;");
    assert_eq!(f.protocol, SDCP_PACKET_HEADER);
    assert_eq!(f.command, "SETP");
    assert_eq!(f.result, SDCP_OK);
    assert_eq!(params(&f), vec![pair("STATUS", "TRUE")]);
}

#[test]
fn decode_upper_cases_lower_case_names() {
    let f = frame("command=GETP;result=failed;status=on");
    assert_eq!(f.command, "GETP");
    assert_eq!(f.result, "FAILED");
    assert_eq!(params(&f), vec![pair("STATUS", "ON")]);
}

#[test]
fn decode_splits_at_first_equals_sign() {
    let f = frame("Command=SETP;NAME=A=B;");
    assert_eq!(params(&f), vec![pair("NAME", "A=B")]);
}

#[test]
fn decode_keeps_parameter_order_and_repeats() {
    let f = frame("Command=GETP;Result=OK;PWRCON=;STATUS=;PWRCON=;");
    assert_eq!(params(&f), vec![pair("PWRCON", ""), pair("STATUS", ""), pair("PWRCON", "")]);
}

#[test]
fn decode_rejects_frame_without_parameters() {
    assert!(matches!(
        make_frame(String::from("Command=GETP;Result=OK;")),
        Err(FrameError::InvalidPacket)
    ));
    assert!(matches!(make_frame(String::new()), Err(FrameError::InvalidPacket)));
    assert!(matches!(make_frame(String::from(";;;")), Err(FrameError::InvalidPacket)));
}

#[test]
fn decode_rejects_piece_without_equals_sign() {
    assert!(matches!(
        make_frame(String::from("Command=GETP;STATUS;")),
        Err(FrameError::InvalidPacket)
    ));
    assert!(matches!(
        make_frame(String::from("STATUS;Command=GETP;PWRCON=;")),
        Err(FrameError::InvalidPacket)
    ));
}

#[test]
fn encode_writes_command_result_and_parameters() {
    let f = SdcpFrame {
        protocol: String::from(SDCP_PACKET_HEADER),
        command: String::from(SDCP_COMMANDS::SETP),
        parameters: vec![
            ParamItem::new(String::from("STATUS"), String::from("TRUE")),
            ParamItem::new(String::from("PWRCON"), String::from("7")),
        ],
        result: String::from(SDCP_OK),
    };
    assert_eq!(make_packet(f), "Command=SETP;Result=OK;STATUS=TRUE;PWRCON=7;");
}

#[test]
fn encode_then_decode_gives_frame_back() {
    let f = SdcpFrame {
        protocol: String::from("OTHER"),
        command: String::from(SDCP_COMMANDS::GETP),
        parameters: vec![
            ParamItem::new(String::from("PWRCON"), String::from("")),
            ParamItem::new(String::from("STATUS"), String::from("X=Y")),
        ],
        result: String::from("FAILED"),
    };
    let back = frame(&make_packet(f));
    assert_eq!(back.protocol, SDCP_PACKET_HEADER);
    assert_eq!(back.command, "GETP");
    assert_eq!(back.result, "FAILED");
    assert_eq!(params(&back), vec![pair("PWRCON", ""), pair("STATUS", "X=Y")]);
}

#[test]
fn envelope_prefixes_marker_and_big_endian_length() {
    let bytes = envelope("Command=GETP;PWRCON=;");
    let mut expected: Vec<u8> = b"SDCP 0.0.1".to_vec();
    expected.extend_from_slice(&[0, 0, 0, 21]);
    expected.extend_from_slice(b"Command=GETP;PWRCON=;");
    assert_eq!(bytes, expected);
}

#[test]
fn envelope_counts_bytes_not_characters() {
    let bytes = envelope("\u{e9}");
    assert_eq!(&bytes[10..14], &[0, 0, 0, 2]);
    assert_eq!(bytes.len(), 16);
}

#[test]
fn packet_round_trips_through_envelope() {
    let text = parse_packet(&envelope("Command=INFO;X=1;")).ok().expect("valid packet");
    assert_eq!(text, "Command=INFO;X=1;");
}

#[test]
fn packet_ignores_bytes_after_payload() {
    let mut bytes = envelope("A=1;");
    bytes.extend_from_slice(b"garbage");
    assert_eq!(parse_packet(&bytes).ok().expect("valid packet"), "A=1;");
}

#[test]
fn packet_shorter_than_announced_is_invalid() {
    let mut bytes = envelope("Command=GETP;PWRCON=;");
    bytes.pop();
    assert!(matches!(parse_packet(&bytes), Err(RecvError::InvalidPacket)));
    assert!(matches!(parse_packet(&bytes[..13]), Err(RecvError::InvalidPacket)));
    assert!(matches!(parse_packet(&[]), Err(RecvError::InvalidPacket)));
}

#[test]
fn packet_with_foreign_marker_is_invalid() {
    let mut bytes = envelope("Command=GETP;PWRCON=;");
    bytes[0] = b'X';
    assert!(matches!(parse_packet(&bytes), Err(RecvError::InvalidPacket)));
    let mut other: Vec<u8> = b"SDCP 0.0.2".to_vec();
    other.extend_from_slice(&[0, 0, 0, 4]);
    other.extend_from_slice(b"A=1;");
    assert!(matches!(parse_packet(&other), Err(RecvError::InvalidPacket)));
}

#[test]
fn packet_with_non_utf8_payload_is_bad_encoding() {
    let mut bytes: Vec<u8> = b"SDCP 0.0.1".to_vec();
    bytes.extend_from_slice(&[0, 0, 0, 2, 0xff, 0xfe]);
    assert!(matches!(parse_packet(&bytes), Err(RecvError::BadEncoding)));
}

#[test]
fn request_outcome_classifies_errors() {
    let ok = finish_request(Ok(String::from("Command=GETP;Result=OK;PWRCON=0;")))
        .ok()
        .expect("decodes");
    assert_eq!(params(&ok), vec![pair("PWRCON", "0")]);
    assert!(matches!(
        finish_request(Ok(String::from("Command=GETP;Result=OK;"))),
        Err(RequestError::InvalidPacket)
    ));
    assert!(matches!(
        finish_request(Err(RecvError::BadEncoding)),
        Err(RequestError::Recv(RecvError::BadEncoding))
    ));
}

#[test]
fn setp_status_switches_socket_on() {
    let mut device = SocketDevice::new();
    let response = serve(&mut device, "Command=SETP;STATUS=true;");
    assert_eq!(response, "Command=SETP;Result=OK;STATUS=TRUE;");
    assert!(device.status);
}

#[test]
fn getp_power_of_fresh_socket_is_zero() {
    let mut device = SocketDevice::new();
    let response = serve(&mut device, "Command=GETP;PWRCON=;");
    assert_eq!(response, "Command=GETP;Result=OK;PWRCON=0;");
}

#[test]
fn getp_unknown_name_gets_sentinel() {
    let mut device = SocketDevice::new();
    device.power_consumption = 150;
    let response = serve(&mut device, "Command=GETP;STATUS=;COLOR=;PWRCON=;");
    assert_eq!(
        response,
        "Command=GETP;Result=OK;STATUS=false;COLOR=UNKNOWN;PWRCON=150;"
    );
}

#[test]
fn setp_with_bad_value_fails_whole_request() {
    let mut device = SocketDevice::new();
    let response = serve(&mut device, "Command=SETP;STATUS=true;PWRCON=abc;");
    assert_eq!(response, "Command=SETP;Result=FAILED;");
    assert!(!device.status);
    assert_eq!(device.power_consumption, 0);
}

#[test]
fn setp_power_accepts_plus_sign_and_rejects_overflow() {
    let mut device = SocketDevice::new();
    let response = serve(&mut device, "Command=SETP;PWRCON=+42;");
    assert_eq!(response, "Command=SETP;Result=OK;PWRCON=+42;");
    assert_eq!(device.power_consumption, 42);
    let response = serve(&mut device, "Command=SETP;PWRCON=4294967296;");
    assert_eq!(response, "Command=SETP;Result=FAILED;");
    assert_eq!(device.power_consumption, 42);
    let response = serve(&mut device, "Command=SETP;PWRCON=4294967295;");
    assert_eq!(response, "Command=SETP;Result=OK;PWRCON=4294967295;");
    assert_eq!(device.power_consumption, u32::MAX);
}

#[test]
fn setp_status_rejects_other_words() {
    let mut device = SocketDevice::new();
    let response = serve(&mut device, "Command=SETP;STATUS=on;");
    assert_eq!(response, "Command=SETP;Result=FAILED;");
    let response = serve(&mut device, "Command=SETP;STATUS=False;OTHER=x;");
    assert_eq!(response, "Command=SETP;Result=OK;STATUS=FALSE;OTHER=X;");
}

#[test]
fn other_commands_are_acknowledged() {
    let mut device = SocketDevice::new();
    assert_eq!(serve(&mut device, "Command=INFO;X=1;"), "Command=INFO;Result=OK;");
    assert_eq!(serve(&mut device, "Command=BEAT;X=1;"), "Command=BEAT;Result=OK;");
}

#[test]
fn undecodable_request_gets_failed_none() {
    let mut device = SocketDevice::new();
    assert_eq!(serve(&mut device, "Command=GETP;"), "Command=NONE;Result=FAILED;");
}

#[test]
fn telemetry_datagram_updates_reading() {
    let datagram = b"HEADER=SDCPU 0.0.1;TEMPERATURE=21.5;";
    let f = sdcpu::received_frame(datagram, datagram.len());
    assert_eq!(f.protocol, "SDCPU 0.0.1");
    assert_eq!(f.reading("TEMPERATURE"), Some(String::from("21.5")));
    assert_eq!(f.reading("HEADER"), Some(String::from("SDCPU 0.0.1")));
    assert_eq!(f.reading("HUMIDITY"), None);
}

#[test]
fn telemetry_names_are_upper_cased_and_pieces_without_equals_skipped() {
    let datagram = b"header=sdcpu 0.0.2;junk;temperature=abc;;";
    let f = sdcpu::make_frame(datagram, datagram.len()).ok().expect("decodes");
    assert_eq!(f.protocol, "SDCPU 0.0.2");
    let ps: Vec<(String, String)> =
        f.parameters.iter().map(|p| (p.name.clone(), p.value.clone())).collect();
    assert_eq!(ps, vec![pair("HEADER", "SDCPU 0.0.2"), pair("TEMPERATURE", "ABC")]);
}

#[test]
fn telemetry_without_header_keeps_default_protocol() {
    let datagram = b"TEMPERATURE=3;ignored tail";
    let f = sdcpu::make_frame(datagram, 14).ok().expect("decodes");
    assert_eq!(f.protocol, sdcpu::SDCPU_PACKET_HEADER);
    assert_eq!(f.parameters.len(), 1);
}

#[test]
fn telemetry_bad_encoding_empties_slot() {
    let datagram = [b'A', b'=', 0xff];
    assert!(matches!(
        sdcpu::make_frame(&datagram, 3),
        Err(sdcpu::results::FrameError::EncodingError(_))
    ));
    let f = sdcpu::received_frame(&datagram, 3);
    assert_eq!(f.protocol, sdcpu::SDCPU_PACKET_HEADER);
    assert!(f.parameters.is_empty());
}

#[test]
fn telemetry_encode_writes_header_first() {
    let f = sdcpu::SdcpuFrame {
        protocol: String::from(sdcpu::SDCPU_PACKET_HEADER),
        parameters: vec![sdcpu::ParamItem::new(String::from("TEMPERATURE"), String::from("10.25"))],
    };
    assert_eq!(sdcpu::make_packet(&f), "HEADER=SDCPU 0.0.1;TEMPERATURE=10.25;");
}

#[test]
fn console_set_builds_setp_request() {
    let f = command_frame("set STATUS true").expect("a request");
    assert_eq!(f.command, "SETP");
    assert_eq!(f.result, SDCP_OK);
    assert_eq!(params(&f), vec![pair("STATUS", "true")]);
    assert_eq!(make_packet(f), "Command=SETP;Result=OK;STATUS=true;");
}

#[test]
fn console_get_builds_getp_request() {
    let f = command_frame("GET PWRCON").expect("a request");
    assert_eq!(f.command, "GETP");
    assert_eq!(params(&f), vec![pair("PWRCON", "")]);
}

#[test]
fn console_rejects_other_lines() {
    assert!(command_frame("GET").is_none());
    assert!(command_frame("GET A B").is_none());
    assert!(command_frame("SET A").is_none());
    assert!(command_frame("SET  A B").is_none());
    assert!(command_frame("PUT A B").is_none());
    assert!(command_frame("").is_none());
}

#[test]
fn console_words_split_at_each_space() {
    let w = smart_house::console::split_words("a  b c");
    assert_eq!(w, vec![String::from("a"), String::new(), String::from("b"), String::from("c")]);
}
