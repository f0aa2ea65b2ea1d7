use servant::codec::{decode_outcome, decode_record, encode_outcome, encode_record, frame_payload, read_frame_header};
use servant::oid::{Context, Oid, ServantError};
use servant::servant::Record;

#[test]
fn notice_round_trip() {
    let r = Record::Notice { id: 7, msg: vec![1, 2, 3] };
    let bytes = encode_record(&r);
    match decode_record(&bytes) {
        Some(Record::Notice { id, msg }) => {
            assert_eq!(id, 7);
            assert_eq!(msg, vec![1, 2, 3]);
        }
        _ => panic!("notice did not round-trip"),
    }
}

#[test]
fn report_round_trip() {
    let r = Record::Report { id: 9, oid: Oid::new("foo", "Echo"), msg: vec![4, 5] };
    let bytes = encode_record(&r);
    match decode_record(&bytes) {
        Some(Record::Report { id, oid, msg }) => {
            assert_eq!(id, 9);
            assert_eq!(oid, Oid::new("foo", "Echo"));
            assert_eq!(msg, vec![4, 5]);
        }
        _ => panic!("report did not round-trip"),
    }
}

#[test]
fn request_round_trip_with_context() {
    let ctx = Context {
        timeout_millisecond: Some(250),
        user_cookie: None,
        connection_id: Some(String::from("127.0.0.1:4000")),
        attributes: vec![(String::from("k"), String::from("v"))],
    };
    let r = Record::Request {
        id: 11,
        ctx: Some(ctx),
        oid: Some(Oid::new("foo", "Echo")),
        req: vec![1, 2, 3],
    };
    let bytes = encode_record(&r);
    match decode_record(&bytes) {
        Some(Record::Request { id, ctx: Some(c), oid: Some(o), req }) => {
            assert_eq!(id, 11);
            assert_eq!(c.timeout_millisecond, Some(250));
            assert_eq!(c.user_cookie, None);
            assert_eq!(c.connection_id, Some(String::from("127.0.0.1:4000")));
            assert_eq!(c.attributes, vec![(String::from("k"), String::from("v"))]);
            assert_eq!(o, Oid::new("foo", "Echo"));
            assert_eq!(req, vec![1, 2, 3]);
        }
        _ => panic!("request did not round-trip"),
    }
}

#[test]
fn response_round_trip() {
    let ret = encode_outcome(&Ok(vec![8, 9]));
    let r = Record::Response { id: 3, oid: None, ret: ret.clone() };
    let bytes = encode_record(&r);
    match decode_record(&bytes) {
        Some(Record::Response { id, oid, ret: ret2 }) => {
            assert_eq!(id, 3);
            assert!(oid.is_none());
            assert_eq!(ret2, ret);
        }
        _ => panic!("response did not round-trip"),
    }
}

#[test]
fn garbage_is_refused() {
    assert!(decode_record(&vec![]).is_none());
    assert!(decode_record(&vec![9, 9, 9]).is_none());
    // a valid record with a trailing byte is refused as well
    let mut bytes = encode_record(&Record::Notice { id: 1, msg: vec![] });
    bytes.push(0);
    assert!(decode_record(&bytes).is_none());
}

#[test]
fn outcome_round_trips() {
    for outcome in [
        Ok(vec![1, 2, 3]),
        Ok(vec![]),
        Err(ServantError::NoSupportSerializable),
        Err(ServantError::DuplicateOid),
        Err(ServantError::Other(String::from("watch servant doesn't exist."))),
    ] {
        let bytes = encode_outcome(&outcome);
        let back = decode_outcome(&bytes).expect("outcome did not parse");
        assert_eq!(back, outcome);
    }
    assert!(decode_outcome(&vec![7]).is_none());
}

#[test]
fn frame_round_trip() {
    let payload = encode_record(&Record::Notice { id: 1, msg: vec![1, 2, 3] });
    let framed = frame_payload(&payload).expect("frame");
    assert_eq!(framed.len(), payload.len() + 4);
    let header: Vec<u8> = framed[0..4].to_vec();
    let n = read_frame_header(&header);
    assert_eq!(n as usize, payload.len());
    assert_eq!(&framed[4..], &payload[..]);
}
