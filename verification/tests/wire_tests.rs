use kvs::command::{
    decode_request, decode_response, encode_request, encode_response, CommandRequest,
    CommandResponse,
};
use kvs::error::Error;

#[test]
fn a_get_request_round_trips() {
    let req = CommandRequest::Get {
        key: "some key".to_owned(),
    };
    let bytes = encode_request(&req);
    match decode_request(&bytes) {
        Ok(CommandRequest::Get { key }) => assert_eq!("some key", key),
        other => panic!("unexpected decode: {:?}", other),
    }
}

#[test]
fn a_put_request_round_trips() {
    let req = CommandRequest::Put {
        key: "k".to_owned(),
        value: Some("v".to_owned()),
    };
    let bytes = encode_request(&req);
    match decode_request(&bytes) {
        Ok(CommandRequest::Put { key, value }) => {
            assert_eq!("k", key);
            assert_eq!(Some("v".to_owned()), value);
        },
        other => panic!("unexpected decode: {:?}", other),
    }
}

#[test]
fn a_removal_request_round_trips() {
    let req = CommandRequest::Put {
        key: "gone".to_owned(),
        value: None,
    };
    let bytes = encode_request(&req);
    match decode_request(&bytes) {
        Ok(CommandRequest::Put { key, value }) => {
            assert_eq!("gone", key);
            assert_eq!(None, value);
        },
        other => panic!("unexpected decode: {:?}", other),
    }
}

#[test]
fn responses_round_trip() {
    let msg = CommandResponse::Message("hello".to_owned());
    match decode_response(&encode_response(&msg)) {
        Ok(CommandResponse::Message(s)) => assert_eq!("hello", s),
        other => panic!("unexpected decode: {:?}", other),
    }
    match decode_response(&encode_response(&CommandResponse::KeyNotFound)) {
        Ok(CommandResponse::KeyNotFound) => (),
        other => panic!("unexpected decode: {:?}", other),
    }
}

#[test]
fn a_truncated_request_is_refused() {
    let req = CommandRequest::Get {
        key: "some key".to_owned(),
    };
    let mut bytes = encode_request(&req);
    bytes.pop();
    assert!(matches!(decode_request(&bytes), Err(Error::Decode)));
    assert!(matches!(decode_request(&Vec::new()), Err(Error::Decode)));
}

#[test]
fn a_bad_tag_is_refused() {
    let bytes = vec![9u8, 0, 0, 0, 0, 0, 0, 0, 0];
    assert!(matches!(decode_request(&bytes), Err(Error::Decode)));
    assert!(matches!(decode_response(&bytes), Err(Error::Decode)));
}

#[test]
fn the_key_not_found_response_prints_its_line() {
    assert_eq!("Key not found", CommandResponse::KeyNotFound.message());
    assert_eq!(
        "oops",
        CommandResponse::Message("oops".to_owned()).message()
    );
}
