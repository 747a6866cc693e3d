use jsonrpc2::id::deserialize_id;
use jsonrpc2::id::serialize_id;
use jsonrpc2::request::serialize_request;
use jsonrpc2::response::serialize_response;
use jsonrpc2::utils::{
    read_request, read_response, read_response_ignore_error, write_datalass_failure,
    write_failure, write_request, write_response, write_success,
};
use jsonrpc2::{
    DecodeError, Error, ErrorCode, Field, Id, MaybeBatchedRequests, Request, Response,
    UnknownParams,
};

#[test]
fn null_id() {
    let request = br#"{"jsonrpc":"2.0","method":"","id":null}"#;
    let request: Request = read_request(request).unwrap();
    assert_eq!(request.id, Some(Id::Null));
}

#[test]
fn no_id() {
    let request = br#"{"jsonrpc":"2.0","method":""}"#;
    let request: Request = read_request(request).unwrap();
    assert_eq!(request.id, None);
}

#[test]
fn request_notification_round_trip_keeps_absent_id() {
    let out = write_request(b"notify", &UnknownParams::absent(), None);
    let back = read_request(&out).unwrap();
    assert_eq!(back.id, None);
    assert_eq!(back.method, b"notify".to_vec());
}

#[test]
fn request_null_id_round_trip_keeps_null_id() {
    let out = write_request(b"notify", &UnknownParams::absent(), Some(Id::Null));
    let back = read_request(&out).unwrap();
    assert_eq!(back.id, Some(Id::Null));
}

#[test]
fn request_encode_exact_bytes() {
    let params = UnknownParams::from_bytes(b"[42,23]".to_vec()).unwrap();
    let out = write_request(b"subtract", &params, Some(Id::Uint(1)));
    assert_eq!(
        out,
        br#"{"jsonrpc":"2.0","method":"subtract","params":[42,23],"id":1}"#.to_vec()
    );
}

#[test]
fn notification_omits_id_key() {
    let out = write_request(b"ping", &UnknownParams::absent(), None);
    assert_eq!(out, br#"{"jsonrpc":"2.0","method":"ping"}"#.to_vec());
}

#[test]
fn request_full_round_trip() {
    let params = UnknownParams::from_bytes(br#"{"a":[1,2,{"b":null}]}"#.to_vec()).unwrap();
    let out = write_request(b"do", &params, Some(Id::Str(b"k7".to_vec())));
    let back = read_request(&out).unwrap();
    assert_eq!(back.method, b"do".to_vec());
    assert_eq!(back.params.raw, Some(br#"{"a":[1,2,{"b":null}]}"#.to_vec()));
    assert_eq!(back.id, Some(Id::Str(b"k7".to_vec())));
}

#[test]
fn id_variant_fidelity() {
    // Unsigned, floating and string identifiers come back as the same
    // variant and value.
    for id in [
        Id::Uint(1),
        Id::Float(b"1.0".to_vec()),
        Id::Str(b"1".to_vec()),
        Id::Int(-1),
        Id::Null,
    ] {
        let bytes = serialize_id(&id);
        let back = deserialize_id(&bytes).unwrap();
        assert_eq!(back, id);
    }
}

#[test]
fn id_nonnegative_int_rereads_as_uint() {
    // A non-negative signed identifier encodes as a bare decimal literal,
    // which the decoder's native classification types as unsigned.
    let bytes = serialize_id(&Id::Int(1));
    assert_eq!(bytes, b"1".to_vec());
    assert_eq!(deserialize_id(&bytes).unwrap(), Id::Uint(1));
}

#[test]
fn id_number_classification() {
    assert_eq!(deserialize_id(b"18446744073709551615").unwrap(), Id::Uint(u64::MAX));
    assert_eq!(
        deserialize_id(b"18446744073709551616").unwrap(),
        Id::Float(b"18446744073709551616".to_vec())
    );
    assert_eq!(deserialize_id(b"-9223372036854775808").unwrap(), Id::Int(i64::MIN));
    assert_eq!(
        deserialize_id(b"-9223372036854775809").unwrap(),
        Id::Float(b"-9223372036854775809".to_vec())
    );
    assert_eq!(deserialize_id(b"2e5").unwrap(), Id::Float(b"2e5".to_vec()));
    assert_eq!(deserialize_id(b" 42 ").unwrap(), Id::Uint(42));
}

#[test]
fn id_rejects_other_shapes() {
    assert_eq!(deserialize_id(b"true").unwrap_err(), DecodeError::Shape);
    assert_eq!(deserialize_id(b"[1]").unwrap_err(), DecodeError::Shape);
    assert_eq!(deserialize_id(b"{}").unwrap_err(), DecodeError::Shape);
}

#[test]
fn response_both_result_and_error() {
    let input = br#"{"jsonrpc":"2.0","result":1,"error":{"code":1,"message":"m"},"id":1}"#;
    assert_eq!(read_response(input).unwrap_err(), DecodeError::BothResultAndError);
}

#[test]
fn response_neither_result_nor_error() {
    let input = br#"{"jsonrpc":"2.0","id":1}"#;
    assert_eq!(read_response(input).unwrap_err(), DecodeError::NeitherResultNorError);
}

#[test]
fn request_version_mismatch() {
    let input = br#"{"jsonrpc":"1.0","method":"a","params":[]}"#;
    assert_eq!(read_request(input).unwrap_err(), DecodeError::Version(b"1.0".to_vec()));
}

#[test]
fn response_version_mismatch() {
    let input = br#"{"jsonrpc":"1.0","result":1,"id":1}"#;
    assert_eq!(read_response(input).unwrap_err(), DecodeError::Version(b"1.0".to_vec()));
}

#[test]
fn batch_shape_dispatch() {
    let batch = MaybeBatchedRequests::deserialize(br#"[{"jsonrpc":"2.0","method":"a","params":[]}]"#)
        .unwrap();
    match batch {
        MaybeBatchedRequests::Batch(reqs) => {
            assert_eq!(reqs.len(), 1);
            assert_eq!(reqs[0].method, b"a".to_vec());
        },
        MaybeBatchedRequests::Single(_) => panic!("expected a batch"),
    }
    let single = MaybeBatchedRequests::deserialize(br#"{"jsonrpc":"2.0","method":"a","params":[]}"#)
        .unwrap();
    match single {
        MaybeBatchedRequests::Single(req) => assert_eq!(req.method, b"a".to_vec()),
        MaybeBatchedRequests::Batch(_) => panic!("expected a single request"),
    }
}

#[test]
fn batch_serialize_mirrors_variant() {
    let req = Request { method: b"a".to_vec(), params: UnknownParams::absent(), id: None };
    let single = MaybeBatchedRequests::Single(req);
    assert_eq!(single.serialize(), br#"{"jsonrpc":"2.0","method":"a"}"#.to_vec());
    let reqs = vec![
        Request { method: b"a".to_vec(), params: UnknownParams::absent(), id: None },
        Request { method: b"b".to_vec(), params: UnknownParams::absent(), id: Some(Id::Uint(2)) },
    ];
    let batch = MaybeBatchedRequests::Batch(reqs);
    assert_eq!(
        batch.serialize(),
        br#"[{"jsonrpc":"2.0","method":"a"},{"jsonrpc":"2.0","method":"b","id":2}]"#.to_vec()
    );
}

#[test]
fn batch_rejects_other_top_level_shapes() {
    assert_eq!(MaybeBatchedRequests::deserialize(b"1").unwrap_err(), DecodeError::Shape);
    assert_eq!(MaybeBatchedRequests::deserialize(b"\"x\"").unwrap_err(), DecodeError::Shape);
}

#[test]
fn empty_params_parse_as_empty_sequence() {
    let params = UnknownParams::absent();
    assert_eq!(params.parse().unwrap(), Vec::<Vec<u8>>::new());
    assert_eq!(params.raw_text(), b"[]".to_vec());
}

#[test]
fn params_parse_yields_element_spans() {
    let params = UnknownParams::from_bytes(br#"[1,"x",{"k":[]}]"#.to_vec()).unwrap();
    let items = params.parse().unwrap();
    assert_eq!(items, vec![b"1".to_vec(), br#""x""#.to_vec(), br#"{"k":[]}"#.to_vec()]);
}

#[test]
fn params_parse_rejects_non_sequence() {
    let params = UnknownParams::from_bytes(br#"{"a":1}"#.to_vec()).unwrap();
    assert_eq!(params.parse().unwrap_err(), DecodeError::Shape);
}

#[test]
fn params_reject_malformed_bytes() {
    assert_eq!(UnknownParams::from_bytes(b"[1,".to_vec()).unwrap_err(), DecodeError::Syntax);
}

#[test]
fn response_success_round_trip() {
    let out = write_success(b"\"ok\"".to_vec(), Id::Uint(7));
    assert_eq!(out, br#"{"jsonrpc":"2.0","result":"ok","id":7}"#.to_vec());
    let back = read_response(&out).unwrap();
    assert_eq!(back.result.unwrap(), b"\"ok\"".to_vec());
    assert_eq!(back.id, Id::Uint(7));
}

#[test]
fn response_failure_round_trip() {
    let out = write_failure(ErrorCode(-32601), b"not found", Id::Null, b"[5]".to_vec());
    assert_eq!(
        out,
        br#"{"jsonrpc":"2.0","error":{"code":-32601,"message":"not found","data":[5]},"id":null}"#
            .to_vec()
    );
    let back = read_response(&out).unwrap();
    let err = back.result.unwrap_err();
    assert_eq!(err.code, ErrorCode(-32601));
    assert_eq!(err.message, b"not found".to_vec());
    assert_eq!(err.data, Some(b"[5]".to_vec()));
    assert_eq!(back.id, Id::Null);
}

#[test]
fn response_dataless_failure_omits_data_key() {
    let out = write_datalass_failure(ErrorCode::parse_error(), b"bad", Id::Null);
    assert_eq!(
        out,
        br#"{"jsonrpc":"2.0","error":{"code":-32700,"message":"bad"},"id":null}"#.to_vec()
    );
}

#[test]
fn response_outcome_variant_survives_round_trip() {
    let ok = Response { result: Ok(b"3".to_vec()), id: Id::Uint(9) };
    let back = read_response(&serialize_response(&ok)).unwrap();
    assert!(back.result.is_ok());
    assert_eq!(back.id, Id::Uint(9));
    let failed = Response {
        result: Err(Error { code: ErrorCode(-1), message: b"m".to_vec(), data: None }),
        id: Id::Str(b"r".to_vec()),
    };
    let back = read_response(&serialize_response(&failed)).unwrap();
    assert!(back.result.is_err());
    assert_eq!(back.id, Id::Str(b"r".to_vec()));
}

#[test]
fn response_ignore_error_discards_data() {
    let input = br#"{"jsonrpc":"2.0","error":{"code":1,"message":"m","data":[1,2]},"id":1}"#;
    let back = read_response_ignore_error(input).unwrap();
    let err = back.result.unwrap_err();
    assert_eq!(err.data, None);
    assert_eq!(err.code, ErrorCode(1));
}

#[test]
fn missing_fields_are_reported() {
    assert_eq!(
        read_request(br#"{"method":"a"}"#).unwrap_err(),
        DecodeError::Missing(Field::Jsonrpc)
    );
    assert_eq!(
        read_request(br#"{"jsonrpc":"2.0"}"#).unwrap_err(),
        DecodeError::Missing(Field::Method)
    );
    assert_eq!(
        read_response(br#"{"jsonrpc":"2.0","result":1}"#).unwrap_err(),
        DecodeError::Missing(Field::Id)
    );
    assert_eq!(
        read_response(br#"{"jsonrpc":"2.0","error":{"message":"m"},"id":1}"#).unwrap_err(),
        DecodeError::Missing(Field::Code)
    );
    assert_eq!(
        read_response(br#"{"jsonrpc":"2.0","error":{"code":1},"id":1}"#).unwrap_err(),
        DecodeError::Missing(Field::Message)
    );
}

#[test]
fn duplicate_fields_are_reported() {
    assert_eq!(
        read_request(br#"{"jsonrpc":"2.0","jsonrpc":"2.0","method":"a"}"#).unwrap_err(),
        DecodeError::Duplicate(Field::Jsonrpc)
    );
    assert_eq!(
        read_request(br#"{"jsonrpc":"2.0","method":"a","method":"b"}"#).unwrap_err(),
        DecodeError::Duplicate(Field::Method)
    );
}

#[test]
fn syntax_errors_are_reported() {
    assert_eq!(read_request(b"{").unwrap_err(), DecodeError::Syntax);
    assert_eq!(read_request(b"").unwrap_err(), DecodeError::Syntax);
    assert_eq!(
        read_request(br#"{"jsonrpc":"2.0","method":"a"} trailing"#).unwrap_err(),
        DecodeError::Syntax
    );
    assert_eq!(
        read_request(br#"{"jsonrpc":"2.0","method":"a","params":[1,]}"#).unwrap_err(),
        DecodeError::Syntax
    );
}

#[test]
fn shape_errors_are_reported() {
    assert_eq!(read_request(b"[1]").unwrap_err(), DecodeError::Shape);
    assert_eq!(
        read_request(br#"{"jsonrpc":"2.0","method":"a","id":true}"#).unwrap_err(),
        DecodeError::Shape
    );
    assert_eq!(
        read_request(br#"{"jsonrpc":2.0,"method":"a"}"#).unwrap_err(),
        DecodeError::Shape
    );
    assert_eq!(
        read_response(br#"{"jsonrpc":"2.0","error":{"code":1.5,"message":"m"},"id":1}"#)
            .unwrap_err(),
        DecodeError::Shape
    );
}

#[test]
fn whitespace_between_tokens_is_accepted() {
    let input = b" { \"jsonrpc\" : \"2.0\" ,\n\t\"method\" : \"spaced\" , \"id\" : 3 } ";
    let back = read_request(input).unwrap();
    assert_eq!(back.method, b"spaced".to_vec());
    assert_eq!(back.id, Some(Id::Uint(3)));
}

#[test]
fn unknown_fields_are_ignored() {
    let input = br#"{"jsonrpc":"2.0","extra":{"deep":[1,2]},"method":"a"}"#;
    let back = read_request(input).unwrap();
    assert_eq!(back.method, b"a".to_vec());
}

#[test]
fn string_escapes_round_trip() {
    let method: Vec<u8> = b"a\"b\\c\nd\x01e".to_vec();
    let out = write_request(&method, &UnknownParams::absent(), None);
    assert_eq!(
        out,
        b"{\"jsonrpc\":\"2.0\",\"method\":\"a\\\"b\\\\c\\nd\\u0001e\"}".to_vec()
    );
    let back = read_request(&out).unwrap();
    assert_eq!(back.method, method);
}

#[test]
fn unicode_escapes_decode_to_utf8() {
    let input = br#"{"jsonrpc":"2.0","method":"A\u00e9\ud83d\ude00"}"#;
    let back = read_request(input).unwrap();
    assert_eq!(back.method, "A\u{e9}\u{1f600}".as_bytes().to_vec());
}

#[test]
fn lone_surrogate_is_rejected() {
    let input = br#"{"jsonrpc":"2.0","method":"\ud83d"}"#;
    assert_eq!(read_request(input).unwrap_err(), DecodeError::Syntax);
}

#[test]
fn reserved_error_codes() {
    assert_eq!(ErrorCode::parse_error(), ErrorCode(-32700));
    assert_eq!(ErrorCode::invalid_request(), ErrorCode(-32600));
    assert_eq!(ErrorCode::method_not_found(), ErrorCode(-32601));
    assert_eq!(ErrorCode::invalid_params(), ErrorCode(-32602));
    assert_eq!(ErrorCode::internal_error(), ErrorCode(-32603));
}

#[test]
fn id_reborrow_is_equal() {
    let id = Id::Str(b"abc".to_vec());
    assert_eq!(id.reborrow(), id);
    let id = Id::Float(b"2.5".to_vec());
    assert_eq!(jsonrpc2::response::id_as_ref(&id), id);
}

#[test]
fn serialize_request_matches_write_request() {
    let req = Request {
        method: b"m".to_vec(),
        params: UnknownParams::from_bytes(b"[]".to_vec()).unwrap(),
        id: Some(Id::Int(-3)),
    };
    let direct = serialize_request(&req);
    assert_eq!(direct, br#"{"jsonrpc":"2.0","method":"m","params":[],"id":-3}"#.to_vec());
    let via_helper = write_request(&req.method, &req.params, req.id.clone());
    assert_eq!(direct, via_helper);
}

#[test]
fn write_response_dispatches_on_outcome() {
    let ok = write_response(Ok(b"true".to_vec()), Id::Uint(4));
    assert_eq!(ok, br#"{"jsonrpc":"2.0","result":true,"id":4}"#.to_vec());
    let err = write_response(
        Err(Error { code: ErrorCode(10), message: b"e".to_vec(), data: None }),
        Id::Uint(4),
    );
    assert_eq!(err, br#"{"jsonrpc":"2.0","error":{"code":10,"message":"e"},"id":4}"#.to_vec());
}
