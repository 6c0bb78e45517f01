use hyades::chunk::{AnyChunk, CookieAck, Data, Init, InitAck, ParamType, Parameter};
use hyades::error::SCTPError;
use hyades::packet::{decode_packet, CommonHeader, Packet};

fn sample_packet() -> Packet {
    let mut p = Packet::new(6000, 6001);
    p.add_chunk(AnyChunk::Init(Init::new(
        77,
        10000,
        1,
        1,
        Some(vec![Parameter::new(ParamType::StateCookie, vec![1, 2, 3])]),
    )));
    p.add_chunk(AnyChunk::Data(Data::new(9, 1, 2, 0, true, true, vec![1, 2, 3, 4, 5])));
    p.add_chunk(AnyChunk::CookieAck(CookieAck::new()));
    p
}

#[test]
fn packet_round_trips_with_mixed_chunks() {
    let p = sample_packet();
    let bytes = p.to_bytes();
    let back = decode_packet(&bytes).unwrap();
    assert_eq!(back.header.src_port, 6000);
    assert_eq!(back.header.dst_port, 6001);
    assert_eq!(back.header.ver_tag, 0);
    assert_eq!(back.chunks, p.chunks);
}

#[test]
fn empty_packet_round_trips() {
    let p = Packet::new(1, 2);
    let back = decode_packet(&p.to_bytes()).unwrap();
    assert_eq!(back.chunks.len(), 0);
    assert_eq!(back.header.src_port, 1);
    assert_eq!(back.header.dst_port, 2);
}

#[test]
fn unaligned_chunks_walk_back_to_back() {
    // a five-byte cookie gives an unaligned CookieEcho; the following
    // chunk still decodes because only Data chunks are padded
    let mut p = Packet::new(10, 20);
    p.add_chunk(AnyChunk::CookieEcho(hyades::chunk::CookieEcho::new(
        hyades::cookie::Cookie::from_bytes(vec![1, 2, 3, 4, 5]),
    )));
    p.add_chunk(AnyChunk::CookieAck(CookieAck::new()));
    let back = decode_packet(&p.to_bytes()).unwrap();
    assert_eq!(back.chunks, p.chunks);
}

#[test]
fn checksum_flipping_any_bit_in_chunk_region_fails_decode() {
    let p = sample_packet();
    let bytes = p.to_bytes();
    assert!(decode_packet(&bytes).is_ok());
    for byte_index in 12..bytes.len() {
        for bit in 0..8u8 {
            let mut corrupted = bytes.clone();
            corrupted[byte_index] ^= 1 << bit;
            assert_eq!(
                decode_packet(&corrupted),
                Err(SCTPError::ChecksumMismatch),
                "flipping bit {} of byte {} must fail the checksum",
                bit,
                byte_index
            );
        }
    }
}

#[test]
fn corrupted_checksum_field_fails_decode() {
    let p = sample_packet();
    let bytes = p.to_bytes();
    for byte_index in 8..12 {
        for bit in 0..8u8 {
            let mut corrupted = bytes.clone();
            corrupted[byte_index] ^= 1 << bit;
            assert_eq!(decode_packet(&corrupted), Err(SCTPError::ChecksumMismatch));
        }
    }
}

#[test]
fn short_buffer_is_truncated_packet() {
    let buf = vec![0u8; 11];
    assert_eq!(decode_packet(&buf), Err(SCTPError::TruncatedPacket));
}

#[test]
fn chunk_length_past_buffer_end_is_rejected() {
    // a valid header (checksum of the zeroed buffer patched in), then
    // a chunk declaring more bytes than remain
    let mut p = Packet::new(1, 2);
    p.add_chunk(AnyChunk::CookieAck(CookieAck::new()));
    let mut bytes = p.to_bytes();
    // grow the declared chunk length from 4 to 400
    bytes[14] = 1;
    bytes[15] = 144;
    // re-patch the checksum so only the length check can fail
    let mut zeroed = bytes.clone();
    zeroed[8] = 0;
    zeroed[9] = 0;
    zeroed[10] = 0;
    zeroed[11] = 0;
    let ck = crc32c::crc32c(&zeroed);
    bytes[8..12].copy_from_slice(&ck.to_be_bytes());
    assert_eq!(decode_packet(&bytes), Err(SCTPError::InvalidChunkLength));
}

#[test]
fn default_common_header_is_zeroed() {
    let h = CommonHeader::default();
    assert_eq!(h.src_port, 0);
    assert_eq!(h.dst_port, 0);
    assert_eq!(h.ver_tag, 0);
    assert_eq!(h.checksum, 0);
}

#[test]
fn encoded_checksum_matches_crc32c_of_zeroed_form() {
    let p = sample_packet();
    let bytes = p.to_bytes();
    let mut zeroed = bytes.clone();
    zeroed[8] = 0;
    zeroed[9] = 0;
    zeroed[10] = 0;
    zeroed[11] = 0;
    let expected = crc32c::crc32c(&zeroed);
    let stored = u32::from_be_bytes([bytes[8], bytes[9], bytes[10], bytes[11]]);
    assert_eq!(stored, expected);
    // the standard CRC32C check value guards against a stub checksum
    assert_eq!(crc32c::crc32c(b"123456789"), 0xE3069283);
}

#[test]
fn error_messages_name_each_failure() {
    assert_eq!(SCTPError::ChecksumMismatch.message(), "packet checksum mismatch");
    assert_eq!(SCTPError::TruncatedPacket.message(), "buffer too short");
    assert_eq!(SCTPError::NoCookieError.message(), "init ack carried no state cookie");
    assert!(!SCTPError::SocketBindError.message().is_empty());
}

#[test]
fn init_ack_new_echoes_init_fields() {
    let init = Init::new(42, 9000, 3, 5, None);
    let ack = InitAck::new(init);
    assert_eq!(ack.init_tag, 42);
    assert_eq!(ack.a_rwnd, 9000);
    assert_eq!(ack.num_ob_streams, 3);
    assert_eq!(ack.num_ib_streams, 5);
    assert_eq!(ack.header.length, 20);
    assert!(ack.optional_params.is_none());
}
