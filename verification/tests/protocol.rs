use chicon_runner::protocol::{decode_message, DecodeError, Frame, ScanRequest};

#[test]
fn should_decode_basic_message() {
    let message = Frame::Text(
        "v1;7b2c112a-f7e5-4106-bffe-4734eb4fe49a;4ed8e41b-d226-4b4c-a55c-e22099173730"
            .to_string(),
    );
    let expected_request = ScanRequest {
        version: "v1".to_string(),
        repositories: vec!["7b2c112a-f7e5-4106-bffe-4734eb4fe49a".into()],
        functions: vec!["4ed8e41b-d226-4b4c-a55c-e22099173730".into()],
    };

    let decoded_message = decode_message(message).unwrap();
    assert_eq!(expected_request, decoded_message);
}

#[test]
fn should_decode_multi_function_message() {
    let message = Frame::Text(
        "v1;7b2c112a-f7e5-4106-bffe-4734eb4fe49a;4ed8e41b-d226-4b4c-a55c-e22099173730,aebe69bd-5245-4dff-aa0b-d7cbb6a4efdf"
            .to_string(),
    );
    let expected_request = ScanRequest {
        version: "v1".to_string(),
        repositories: vec!["7b2c112a-f7e5-4106-bffe-4734eb4fe49a".into()],
        functions: vec![
            "4ed8e41b-d226-4b4c-a55c-e22099173730".into(),
            "aebe69bd-5245-4dff-aa0b-d7cbb6a4efdf".into(),
        ],
    };

    let decoded_message = decode_message(message).unwrap();
    assert_eq!(expected_request, decoded_message);
}

#[test]
fn should_decode_wildcard_function_message() {
    let message = Frame::Text("v1;7b2c112a-f7e5-4106-bffe-4734eb4fe49a;*".to_string());
    let expected_request = ScanRequest {
        version: "v1".to_string(),
        repositories: vec!["7b2c112a-f7e5-4106-bffe-4734eb4fe49a".into()],
        functions: vec!["*".into()],
    };

    let decoded_message = decode_message(message).unwrap();
    assert_eq!(expected_request, decoded_message);
}

#[test]
fn should_reject_empty_function() {
    let message = Frame::Text("v1;7b2c112a-f7e5-4106-bffe-4734eb4fe49a;".to_string());

    assert!(matches!(decode_message(message), Err(_)));
}

#[test]
fn should_reject_empty_function_with_spaces() {
    let message = Frame::Text("v1;7b2c112a-f7e5-4106-bffe-4734eb4fe49a;       ".to_string());

    assert!(matches!(decode_message(message), Err(_)));
}

#[test]
fn should_reject_binary_message() {
    assert!(matches!(decode_message(Frame::Binary(vec![0, 1, 0, 1])), Err(_)));
}

#[test]
fn should_reject_ping_message() {
    assert!(matches!(decode_message(Frame::Ping(vec![0])), Err(_)));
}

#[test]
fn should_reject_pong_message() {
    assert!(matches!(decode_message(Frame::Ping(vec![1])), Err(_)));
}

#[test]
fn should_reject_close_message() {
    assert!(matches!(decode_message(Frame::Close), Err(_)));
}

#[test]
fn should_reject_too_many_components() {
    let message = Frame::Text(
        "v1;7b2c112a-f7e5-4106-bffe-4734eb4fe49a;7b2c112a-f7e5-4106-bffe-4734eb4fe49a;extra"
            .to_string(),
    );

    assert!(matches!(decode_message(message), Err(_)));
}

#[test]
fn should_reject_without_functions() {
    let message = Frame::Text("v1;7b2c112a-f7e5-4106-bffe-4734eb4fe49a".to_string());

    assert!(matches!(decode_message(message), Err(_)));
}

#[test]
fn should_reject_without_version() {
    let message = Frame::Text(
        "7b2c112a-f7e5-4106-bffe-4734eb4fe49a;4ed8e41b-d226-4b4c-a55c-e22099173730".to_string(),
    );

    assert!(matches!(decode_message(message), Err(_)));
}

#[test]
fn should_reject_unknown_versions() {
    let message = Frame::Text(
        "v2;7b2c112a-f7e5-4106-bffe-4734eb4fe49a;4ed8e41b-d226-4b4c-a55c-e22099173730"
            .to_string(),
    );

    assert!(matches!(decode_message(message), Err(_)));
}

#[test]
fn decode_errors_name_their_cause() {
    assert_eq!(
        decode_message(Frame::Binary(vec![1])).unwrap_err(),
        DecodeError::NotText
    );
    assert_eq!(
        decode_message(Frame::Text("v1;rid".to_string())).unwrap_err(),
        DecodeError::WrongComponentCount
    );
    assert_eq!(
        decode_message(Frame::Text("v2;rid;fid".to_string())).unwrap_err(),
        DecodeError::UnknownVersion
    );
    assert_eq!(
        decode_message(Frame::Text("v1;   ;fid".to_string())).unwrap_err(),
        DecodeError::EmptyRepository
    );
    assert_eq!(
        decode_message(Frame::Text("v1;rid; ".to_string())).unwrap_err(),
        DecodeError::EmptyFunctions
    );
}

#[test]
fn decode_trims_components_but_not_function_ids() {
    let message = Frame::Text("v1;  rid  ; fid1, fid2 ".to_string());
    let decoded = decode_message(message).unwrap();
    assert_eq!(decoded.repositories, vec!["rid".to_string()]);
    assert_eq!(decoded.functions, vec!["fid1".to_string(), " fid2".to_string()]);
}
