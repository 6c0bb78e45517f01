use hyades::chunk::{
    AnyChunk, Abort, Chunk, ChunkHeader, CookieAck, CookieEcho, Data, Init, InitAck, ParamType,
    Parameter, RawChunk,
};
use hyades::cookie::Cookie;
use hyades::decode::decode_chunk;
use hyades::error::SCTPError;

#[test]
fn chunk_test_init_conversion() {
    let buf = vec![
        1u8, 1, 0, 1, 0, 0, 0, 1, 0, 0, 0, 1, 0, 1, 0, 1, 0, 0, 0, 1, // optional params
        0, 7, 0, 4, 0, 1, 0, 1,
    ];
    let chunk = Init::from_bytes(&buf).unwrap();
    assert!(chunk.num_ib_streams == 1);
    assert!(chunk.optional_params.is_some());
    let params = chunk.optional_params.unwrap();
    assert!(params.len() == 1);
    let param = &params[0];
    assert!(param.param_type.code() == 7);
    assert!(param.len == 4);
    assert!(param.value == vec![0, 1, 0, 1]);
}

#[test]
fn chunk_test_init_conversion_2() {
    let buf = vec![
        1u8, 1, 0, 1, 0, 0, 0, 1, 0, 0, 0, 1, 0, 1, 0, 1, 0, 0, 0, 1,
        // optional params
        // param 1
        0, 7, 0, 4, 0, 1, 0, 1, // param 2
        0, 11, 0, 4, 0, 1, 0, 1,
    ];
    let chunk = Init::from_bytes(&buf).unwrap();
    assert!(chunk.num_ib_streams == 1);
    assert!(chunk.optional_params.is_some());
    let params = chunk.optional_params.unwrap();
    assert!(params.len() == 2);
    let param = &params[1];
    assert!(param.param_type.code() == 11);
    assert!(param.len == 4);
    assert!(param.value == vec![0, 1, 0, 1]);
}

#[test]
fn chunk_test_init_conversion_with_no_params() {
    let buf = vec![
        1u8, 1, 0, 1, 0, 0, 0, 1, 0, 0, 0, 1, 0, 1, 0, 1, 0, 0, 0, 1,
        // no optional params
    ];
    let chunk = Init::from_bytes(&buf).unwrap();
    assert!(chunk.num_ib_streams == 1);
    assert!(chunk.optional_params.is_none());
}

#[test]
fn chunks_tests_test_init_conversion() {
    let buf = vec![
        1u8, 1, 0, 1, 0, 0, 0, 1, 0, 0, 0, 1, 0, 1, 0, 1, 0, 0, 0, 1, // optional params
        0, 7, 0, 4, 0, 1, 0, 1,
    ];
    let chunk = Init::from_bytes(&buf).unwrap();
    assert!(chunk.optional_params.is_some());
    let params = chunk.optional_params.unwrap();
    assert!(params.len() == 1);
    let param = &params[0];
    assert!(param.param_type == ParamType::StateCookie);
    assert!(param.value == vec![0, 1, 0, 1]);
}

#[test]
fn chunks_tests_test_init_conversion_2() {
    let buf = vec![
        1u8, 1, 0, 1, 0, 0, 0, 1, 0, 0, 0, 1, 0, 1, 0, 1, 0, 0, 0, 1,
        // optional params
        // param 1
        0, 7, 0, 4, 0, 1, 0, 1, // param 2
        0, 11, 0, 4, 0, 1, 0, 1,
    ];
    let chunk = Init::from_bytes(&buf).unwrap();
    assert!(chunk.optional_params.is_some());
    let params = chunk.optional_params.unwrap();
    assert!(params.len() == 2);
    let param = &params[1];
    assert!(param.param_type == ParamType::HostNameAddr);
    assert!(param.value == vec![0, 1, 0, 1]);
}

#[test]
fn chunks_tests_test_init_conversion_with_no_params() {
    let buf = vec![
        1u8, 1, 0, 1, 0, 0, 0, 1, 0, 0, 0, 1, 0, 1, 0, 1, 0, 0, 0, 1,
        // no optional params
    ];
    let chunk = Init::from_bytes(&buf).unwrap();
    assert!(chunk.optional_params.is_none());
}

#[test]
fn test_data_chunk() {
    let chunk = Data::new(0, 1, 1, 0, true, false, vec![1, 2, 3]);
    assert!(chunk.data.len() == 4);
    assert!(chunk.data == vec![1, 2, 3, 0]);

    let chunk = Data::new(0, 1, 1, 0, true, false, vec![1, 2, 3, 4]);
    assert!(chunk.data.len() == 4);
    assert!(chunk.data == vec![1, 2, 3, 4]);

    let chunk = Data::new(0, 1, 1, 0, true, false, vec![1, 2, 3, 4]);
    assert!(chunk.data.len() == 4);
    assert!(chunk.data == vec![1, 2, 3, 4]);
}

#[test]
fn data_padding_leaves_length_unpadded() {
    // three payload bytes pad to four on the wire, but the declared
    // length still counts sixteen header bytes plus three
    let chunk = Data::new(7, 2, 3, 9, true, true, vec![1, 2, 3]);
    assert_eq!(chunk.header.length, 19);
    let bytes = chunk.get_bytes();
    assert_eq!(bytes.len(), 20);
    assert_eq!(&bytes[2..4], &[0, 19]);
    assert_eq!(&bytes[16..20], &[1, 2, 3, 0]);

    let aligned = Data::new(7, 2, 3, 9, true, true, vec![1, 2, 3, 4]);
    assert_eq!(aligned.header.length, 20);
    assert_eq!(aligned.get_bytes().len(), 20);
}

#[test]
fn data_flags_mark_fragment_position() {
    let first = Data::new(0, 0, 0, 0, true, false, vec![1]);
    assert_eq!(first.header.flags, 2);
    assert!(first.begin() && !first.end());
    let middle = Data::new(0, 0, 0, 0, false, false, vec![1]);
    assert_eq!(middle.header.flags, 0);
    let last = Data::new(0, 0, 0, 0, false, true, vec![1]);
    assert_eq!(last.header.flags, 1);
    let whole = Data::new(0, 0, 0, 0, true, true, vec![1]);
    assert_eq!(whole.header.flags, 3);
}

#[test]
fn init_round_trips_through_bytes() {
    let params = vec![
        Parameter::new(ParamType::StateCookie, vec![9, 8, 7]),
        Parameter::new(ParamType::HostNameAddr, vec![5]),
    ];
    let init = Init::new(0xDEADBEEF, 4096, 3, 2, Some(params));
    let bytes = init.get_bytes();
    let back = Init::from_bytes(&bytes).unwrap();
    assert_eq!(back, init);
}

#[test]
fn init_without_params_round_trips() {
    let init = Init::new(1, 10000, 1, 1, None);
    assert_eq!(init.header.length, 20);
    let back = Init::from_bytes(&init.get_bytes()).unwrap();
    assert_eq!(back, init);
}

#[test]
fn init_ack_round_trips_with_cookie_param() {
    let init = Init::new(42, 10000, 1, 1, None);
    let mut ack = InitAck::with_tsn(init, 777);
    ack.add_param(Parameter::new(ParamType::StateCookie, vec![1, 2, 3, 4]));
    assert_eq!(ack.header.length, 28);
    let back = InitAck::from_bytes(&ack.get_bytes()).unwrap();
    assert_eq!(back, ack);
}

#[test]
fn every_chunk_variant_round_trips() {
    let cases: Vec<AnyChunk> = vec![
        AnyChunk::Data(Data::new(5, 1, 2, 3, true, false, vec![1, 2, 3, 4, 5])),
        AnyChunk::Init(Init::new(1, 2, 3, 4, None)),
        AnyChunk::InitAck({
            let mut a = InitAck::with_tsn(Init::new(1, 2, 3, 4, None), 9);
            a.add_param(Parameter::new(ParamType::StateCookie, vec![1, 2, 3, 4]));
            a
        }),
        AnyChunk::Sack(RawChunk::new(3, 0, vec![0, 0, 0, 1])),
        AnyChunk::Abort(Abort::new(Some(vec![1, 2]))),
        AnyChunk::Abort(Abort::new(None)),
        AnyChunk::Shutdown(RawChunk::new(7, 0, vec![0, 0, 0, 9])),
        AnyChunk::ShutdownAck(RawChunk::new(8, 0, vec![])),
        AnyChunk::CookieEcho(CookieEcho::new(Cookie::from_bytes(vec![4, 3, 2, 1]))),
        AnyChunk::CookieAck(CookieAck::new()),
        AnyChunk::ShutdownComplete(RawChunk::new(14, 0, vec![])),
        AnyChunk::Invalid(RawChunk::new(99, 5, vec![1, 2, 3])),
    ];
    for chunk in cases {
        let bytes = chunk.get_bytes();
        let back = decode_chunk(&bytes).unwrap();
        assert_eq!(back, chunk);
    }
}

#[test]
fn unknown_chunk_type_decodes_to_invalid() {
    let buf = vec![200u8, 0, 0, 6, 9, 9];
    match decode_chunk(&buf).unwrap() {
        AnyChunk::Invalid(raw) => {
            assert_eq!(raw.header.chunk_type, 200);
            assert_eq!(raw.header.length, 6);
            assert_eq!(raw.value, vec![9, 9]);
        }
        other => panic!("expected the invalid marker, got {:?}", other),
    }
}

#[test]
fn truncated_chunk_is_rejected() {
    let buf = vec![1u8, 0, 0];
    assert_eq!(decode_chunk(&buf), Err(SCTPError::TruncatedPacket));
    // an Init needs its twenty fixed bytes
    let short_init = vec![1u8, 0, 0, 20, 0, 0, 0, 0];
    assert_eq!(decode_chunk(&short_init), Err(SCTPError::TruncatedPacket));
}

#[test]
fn parameter_overrunning_buffer_is_rejected() {
    // TLV declares four value bytes but only two remain
    let buf = vec![
        1u8, 0, 0, 1, 0, 0, 0, 1, 0, 0, 0, 1, 0, 1, 0, 1, 0, 0, 0, 1, //
        0, 7, 0, 4, 0, 1,
    ];
    assert_eq!(decode_chunk(&buf), Err(SCTPError::InvalidSCTPPacket));
    // a cut-short TLV header fails the same way
    let buf2 = vec![
        1u8, 0, 0, 1, 0, 0, 0, 1, 0, 0, 0, 1, 0, 1, 0, 1, 0, 0, 0, 1, //
        0, 7,
    ];
    assert_eq!(decode_chunk(&buf2), Err(SCTPError::InvalidSCTPPacket));
}

#[test]
fn cookie_equality_is_bytewise() {
    let a = Cookie::from_bytes(vec![1, 2, 3, 4]);
    let b = Cookie::from_bytes(vec![1, 2, 3, 4]);
    let c = Cookie::from_bytes(vec![1, 2, 3, 5]);
    assert!(a.equals(&b));
    assert!(!a.equals(&c));
    assert_eq!(a.len(), 4);
    assert_eq!(a.to_bytes(), vec![1, 2, 3, 4]);
}

#[test]
fn fresh_cookies_are_four_bytes() {
    let c = Cookie::new();
    assert_eq!(c.len(), 4);
}

#[test]
fn chunk_header_new_keeps_fields() {
    let h = ChunkHeader::new(1, 2, 771);
    assert_eq!(h.chunk_type, 1);
    assert_eq!(h.flags, 2);
    assert_eq!(h.length, 771);
}

#[test]
fn param_type_codes_round_trip() {
    assert_eq!(ParamType::from_code(7), ParamType::StateCookie);
    assert_eq!(ParamType::from_code(11), ParamType::HostNameAddr);
    assert_eq!(ParamType::from_code(0), ParamType::Invalid);
    assert_eq!(ParamType::from_code(12345), ParamType::Invalid);
    assert_eq!(ParamType::StateCookie.code(), 7);
    assert_eq!(ParamType::HostNameAddr.code(), 11);
    assert_eq!(ParamType::Invalid.code(), 0);
}
