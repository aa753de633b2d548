//! Tests of the packet layer: the tagged-union decode, its cross-field
//! validation, and the `ServerInfo` frame encoder.

use bananas_server::protocol::{
    from_bytes, read_packet, to_bytes, ClientInfoExtIdContentInfo, ClientInfoExtIdMd5ContentInfo,
    ClientInfoIdContentInfo, ClientInfoListBranch, ClientPacket, ContentType, ServerInfo,
};
use bananas_server::wire::Error;

fn info_list_body(version: [u8; 4], branches: Option<&[(&str, &str)]>) -> Vec<u8> {
    let mut body = vec![0x00, 0x01];
    body.extend_from_slice(&version);
    if let Some(bs) = branches {
        body.push(bs.len() as u8);
        for (branch, ver) in bs {
            body.extend_from_slice(branch.as_bytes());
            body.push(0);
            body.extend_from_slice(ver.as_bytes());
            body.push(0);
        }
    }
    body
}

#[test]
fn decode_info_list_with_branches() {
    let body = info_list_body([0xFF, 0xFF, 0xFF, 0xFF], Some(&[("trunk", "1")]));
    let packet = read_packet(&body).unwrap();
    assert_eq!(
        packet,
        ClientPacket::ClientInfoList {
            content_type: ContentType::BaseGraphics,
            openttd_version: 0xFFFFFFFF,
            branches: Some(vec![ClientInfoListBranch {
                branch: "trunk".to_string(),
                version: "1".to_string(),
            }]),
        }
    );
}

#[test]
fn decode_info_list_without_branches() {
    let body = info_list_body([0x07, 0x00, 0x00, 0x00], None);
    let packet = read_packet(&body).unwrap();
    assert_eq!(
        packet,
        ClientPacket::ClientInfoList {
            content_type: ContentType::BaseGraphics,
            openttd_version: 7,
            branches: None,
        }
    );
}

#[test]
fn validation_rejects_branches_without_sentinel() {
    let body = info_list_body([0x07, 0x00, 0x00, 0x00], Some(&[("trunk", "1")]));
    assert_eq!(read_packet(&body), Err(Error::ValidationError));
}

#[test]
fn validation_rejects_sentinel_without_branches() {
    let body = info_list_body([0xFF, 0xFF, 0xFF, 0xFF], None);
    assert_eq!(read_packet(&body), Err(Error::ValidationError));
}

#[test]
fn structural_decode_skips_validation() {
    let body = info_list_body([0xFF, 0xFF, 0xFF, 0xFF], None);
    let packet = from_bytes(&body).unwrap();
    assert_eq!(
        packet,
        ClientPacket::ClientInfoList {
            content_type: ContentType::BaseGraphics,
            openttd_version: 0xFFFFFFFF,
            branches: None,
        }
    );
}

#[test]
fn decode_info_id() {
    let body = vec![
        0x01, 0x02, 0x00, 0x0A, 0x00, 0x00, 0x00, 0x0B, 0x00, 0x00, 0x00,
    ];
    let packet = read_packet(&body).unwrap();
    assert_eq!(
        packet,
        ClientPacket::ClientInfoId {
            content_infos: vec![
                ClientInfoIdContentInfo { content_id: 10 },
                ClientInfoIdContentInfo { content_id: 11 },
            ],
        }
    );
}

#[test]
fn decode_info_ext_id() {
    let body = vec![0x02, 0x01, 0x03, 0x2A, 0x00, 0x00, 0x00];
    let packet = read_packet(&body).unwrap();
    assert_eq!(
        packet,
        ClientPacket::ClientInfoExtId {
            content_infos: vec![ClientInfoExtIdContentInfo {
                content_type: ContentType::AI,
                unique_id: 42,
            }],
        }
    );
}

#[test]
fn decode_info_ext_id_md5() {
    let mut body = vec![0x03, 0x01, 0x05, 0x2A, 0x00, 0x00, 0x00];
    body.extend_from_slice(&[0xAA; 16]);
    let packet = read_packet(&body).unwrap();
    assert_eq!(
        packet,
        ClientPacket::ClientInfoExtIdMd5 {
            content_infos: vec![ClientInfoExtIdMd5ContentInfo {
                content_type: ContentType::Scenario,
                unique_id: 42,
                md5: vec![0xAA; 16],
            }],
        }
    );
}

#[test]
fn decode_client_content() {
    let body = vec![0x05, 0x01, 0x00, 0x63, 0x00, 0x00, 0x00];
    let packet = read_packet(&body).unwrap();
    assert_eq!(
        packet,
        ClientPacket::ClientContent {
            content_infos: vec![ClientInfoIdContentInfo { content_id: 99 }],
        }
    );
}

#[test]
fn server_tags_are_not_client_packets() {
    assert_eq!(read_packet(&[0x04, 0x00]), Err(Error::NotSupported));
    assert_eq!(read_packet(&[0x06]), Err(Error::NotSupported));
    assert_eq!(read_packet(&[0x07]), Err(Error::NotSupported));
}

#[test]
fn content_type_codes() {
    assert_eq!(ContentType::from_code(1), Ok(ContentType::BaseGraphics));
    assert_eq!(ContentType::from_code(10), Ok(ContentType::GameLibrary));
    assert_eq!(ContentType::from_code(0), Err(Error::ValueOutOfRange));
    assert_eq!(ContentType::from_code(11), Err(Error::ValueOutOfRange));
    assert_eq!(ContentType::GameLibrary.code(), 10);
}

#[test]
fn out_of_range_content_type_fails_decode() {
    let body = vec![0x02, 0x01, 0x0B, 0x2A, 0x00, 0x00, 0x00];
    assert_eq!(read_packet(&body), Err(Error::ValueOutOfRange));
}

#[test]
fn trailing_bytes_fail_too_long() {
    let mut body = vec![0x01, 0x01, 0x00, 0x0A, 0x00, 0x00, 0x00];
    body.push(0x99);
    assert_eq!(read_packet(&body), Err(Error::PacketTooLong));
}

#[test]
fn truncations_fail_too_short() {
    let full = vec![
        0x01, 0x02, 0x00, 0x0A, 0x00, 0x00, 0x00, 0x0B, 0x00, 0x00, 0x00,
    ];
    for n in 0..full.len() {
        assert_eq!(read_packet(&full[..n]), Err(Error::PacketTooShort), "cut at {}", n);
    }
}

#[test]
fn info_list_truncations_fail_too_short() {
    // Cuts inside the fixed fields, inside the branch strings, and at
    // element boundaries all lack a terminator or a whole field; only the
    // cut exactly at the trailing-optional boundary (offset 6) is a
    // complete branchless shape, judged by validation instead.
    let full = info_list_body([0xFF, 0xFF, 0xFF, 0xFF], Some(&[("trunk", "1")]));
    for n in 0..full.len() {
        if n == 6 {
            assert_eq!(read_packet(&full[..n]), Err(Error::ValidationError));
        } else {
            assert_eq!(read_packet(&full[..n]), Err(Error::PacketTooShort), "cut at {}", n);
        }
    }
}

#[test]
fn md5_truncations_fail_too_short() {
    let mut full = vec![0x03, 0x01, 0x05, 0x2A, 0x00, 0x00, 0x00];
    full.extend_from_slice(&[0xAA; 16]);
    for n in 0..full.len() {
        assert_eq!(read_packet(&full[..n]), Err(Error::PacketTooShort), "cut at {}", n);
    }
}

#[test]
fn sequence_consumes_exactly_declared_count() {
    // One element is declared but a second element's worth of bytes
    // follows: the sequence stops after the first, and the leftover bytes
    // make the packet too long.
    let body = vec![
        0x02, 0x01, 0x03, 0x2A, 0x00, 0x00, 0x00, 0x03, 0x2B, 0x00, 0x00, 0x00,
    ];
    assert_eq!(read_packet(&body), Err(Error::PacketTooLong));
}

#[test]
fn empty_sequence_is_legal() {
    let body = vec![0x01, 0x00, 0x00];
    let packet = read_packet(&body).unwrap();
    assert_eq!(packet, ClientPacket::ClientInfoId { content_infos: vec![] });
}

fn sample_server_info() -> ServerInfo {
    ServerInfo {
        content_type: ContentType::BaseGraphics,
        content_id: 0,
        filesize: 1,
        name: "test".to_string(),
        version: "1.0".to_string(),
        url: "".to_string(),
        description: "description".to_string(),
        unique_id: 123,
        md5: vec![0; 16],
        dependencies: vec![],
        tags: vec!["test".to_string(), "bla".to_string()],
    }
}

fn sample_server_frame() -> Vec<u8> {
    let mut expected = vec![0x41, 0x00, 0x04, 0x01];
    expected.extend_from_slice(&[0x00, 0x00, 0x00, 0x00]); // content_id
    expected.extend_from_slice(&[0x01, 0x00, 0x00, 0x00]); // filesize
    expected.extend_from_slice(b"test\0");
    expected.extend_from_slice(b"1.0\0");
    expected.extend_from_slice(b"\0");
    expected.extend_from_slice(b"description\0");
    expected.extend_from_slice(&[0x7B, 0x00, 0x00, 0x00]); // unique_id
    expected.extend_from_slice(&[0x00; 16]); // md5
    expected.push(0x00); // dependency count
    expected.push(0x02); // tag count
    expected.extend_from_slice(b"test\0");
    expected.extend_from_slice(b"bla\0");
    expected
}

#[test]
fn server_info_frame_layout() {
    let frame = to_bytes(&sample_server_info()).unwrap();
    assert_eq!(frame, sample_server_frame());
    assert_eq!(frame.len(), 0x41);
}

#[test]
fn server_info_with_dependencies() {
    let mut info = sample_server_info();
    info.dependencies = vec![0x01020304];
    let frame = to_bytes(&info).unwrap();
    // One dependency adds four bytes and bumps the count byte, which sits
    // right after the sixteen digest bytes.
    assert_eq!(frame[0], 0x45);
    assert_eq!(frame[54], 0x01);
    assert_eq!(&frame[55..59], &[0x04, 0x03, 0x02, 0x01]);
}

#[test]
fn server_info_refuses_oversized_sequence() {
    let mut info = sample_server_info();
    info.tags = (0..256).map(|i| format!("t{}", i)).collect();
    assert_eq!(to_bytes(&info), Err(Error::Message));
}
