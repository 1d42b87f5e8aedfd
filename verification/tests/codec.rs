use barcode_service::protocol::{Date, Request, Response, Row};
use barcode_service::wire::{
    decode_request, decode_response, encode_request, encode_response, frame_payload, take_frame,
};

fn d(year: u16, month: u8, day: u8) -> Date {
    Date { year, month, day }
}

#[test]
fn request_bytes_are_exact() {
    let rq = Request { start: d(0x0102, 3, 4), end: d(0x0506, 7, 8) };
    let bytes = encode_request(&rq);
    assert_eq!(bytes, vec![0x02, 0x01, 3, 4, 0x06, 0x05, 7, 8]);
}

#[test]
fn request_round_trips() {
    let rq = Request { start: d(2024, 5, 1), end: d(2024, 5, 3) };
    let bytes = encode_request(&rq);
    assert_eq!(decode_request(&bytes), Some(rq));
}

#[test]
fn request_wrong_length_is_rejected() {
    assert_eq!(decode_request(&[0u8; 7]), None);
    assert_eq!(decode_request(&[0u8; 9]), None);
    assert_eq!(decode_request(&[]), None);
}

#[test]
fn response_round_trips() {
    let resp = Response(vec![
        Row { date: d(2024, 5, 1), code: "ABC123".to_owned(), count: 1 },
        Row { date: d(2024, 5, 3), code: "XYZ789".to_owned(), count: 10 },
    ]);
    let payload = encode_response(&resp).unwrap();
    assert_eq!(decode_response(&payload), Some(resp));
}

#[test]
fn empty_response_round_trips() {
    let resp = Response(Vec::new());
    let payload = encode_response(&resp).unwrap();
    assert_eq!(payload, vec![0, 0, 0, 0]);
    assert_eq!(decode_response(&payload), Some(resp));
}

#[test]
fn response_with_non_ascii_code_round_trips() {
    let resp = Response(vec![Row { date: d(2024, 1, 2), code: "caf\u{e9}-\u{2603}".to_owned(), count: 7 }]);
    let payload = encode_response(&resp).unwrap();
    assert_eq!(decode_response(&payload), Some(resp));
}

#[test]
fn response_bytes_are_exact() {
    let resp = Response(vec![Row { date: d(0x0102, 3, 4), code: "AB".to_owned(), count: 0x0708 }]);
    let payload = encode_response(&resp).unwrap();
    assert_eq!(
        payload,
        vec![
            1, 0, 0, 0, // one row
            0x02, 0x01, 3, 4, // date
            2, 0, 0, 0, // code length
            b'A', b'B', // code
            0x08, 0x07, 0, 0, // count
        ]
    );
}

#[test]
fn response_invalid_utf8_code_is_rejected() {
    // one row whose 2-byte code is not valid UTF-8
    let payload = vec![1, 0, 0, 0, 0x02, 0x01, 3, 4, 2, 0, 0, 0, 0xff, 0xfe, 8, 0, 0, 0];
    assert_eq!(decode_response(&payload), None);
}

#[test]
fn response_trailing_bytes_are_rejected() {
    let resp = Response(Vec::new());
    let mut payload = encode_response(&resp).unwrap();
    payload.push(0);
    assert_eq!(decode_response(&payload), None);
}

#[test]
fn response_truncated_row_is_rejected() {
    let resp = Response(vec![Row { date: d(2024, 1, 2), code: "AB".to_owned(), count: 7 }]);
    let mut payload = encode_response(&resp).unwrap();
    payload.pop();
    assert_eq!(decode_response(&payload), None);
}

#[test]
fn frame_survives_partial_delivery() {
    let payload = vec![9u8, 8, 7];
    let frame = frame_payload(payload.clone()).unwrap();
    assert_eq!(frame, vec![3, 0, 0, 0, 9, 8, 7]);

    // deliver the frame byte by byte: no payload until it is complete
    let mut buf: Vec<u8> = Vec::new();
    for (i, b) in frame.iter().enumerate() {
        buf.push(*b);
        if i + 1 < frame.len() {
            assert_eq!(take_frame(&buf), None);
        }
    }
    assert_eq!(take_frame(&buf), Some(payload));
}

#[test]
fn frame_ignores_bytes_past_the_first_frame() {
    let frame = frame_payload(vec![1, 2]).unwrap();
    let mut buf = frame.clone();
    buf.extend_from_slice(&[0xaa, 0xbb]);
    assert_eq!(take_frame(&buf), Some(vec![1, 2]));
}
