use appbiotic_error::ErrorDetails;
use appbiotic_error::ErrorInfo;
use appbiotic_error::Status;
use appbiotic_error::StatusDetails;
use appbiotic_error::ValidationError;

fn sample_status() -> Status {
    Status::new_unknown(StatusDetails::new(
        "Unsure about that".to_string(),
        vec![ErrorDetails::new_error_info(ErrorInfo::new(
            "UNKNOWN_FAULT".to_string(),
            "com.appbiotic.error".to_string(),
        ))],
    ))
}

#[test]
fn status_serialization() {
    let status = sample_status();
    let value: serde_json::Value = serde_json::from_str(&status.to_json()).unwrap();
    let mut detail = serde_json::Map::new();
    detail.insert(
        "type".to_string(),
        serde_json::Value::String("ERROR_INFO".to_string()),
    );
    detail.insert(
        "reason".to_string(),
        serde_json::Value::String("UNKNOWN_FAULT".to_string()),
    );
    detail.insert(
        "domain".to_string(),
        serde_json::Value::String("com.appbiotic.error".to_string()),
    );
    let mut object = serde_json::Map::new();
    object.insert(
        "code".to_string(),
        serde_json::Value::String("UNKNOWN".to_string()),
    );
    object.insert(
        "message".to_string(),
        serde_json::Value::String("Unsure about that".to_string()),
    );
    object.insert(
        "error_details".to_string(),
        serde_json::Value::Array(vec![serde_json::Value::Object(detail)]),
    );
    let expected = serde_json::Value::Object(object);
    assert_eq!(value, expected);
}

#[test]
fn validation_error_serialization() {
    let error = ValidationError::new_invalid_format("did not match regex".to_string());
    let value: serde_json::Value = serde_json::from_str(&error.to_json()).unwrap();
    let mut object = serde_json::Map::new();
    object.insert(
        "type".to_string(),
        serde_json::Value::String("INVALID_FORMAT".to_string()),
    );
    object.insert(
        "message".to_string(),
        serde_json::Value::String("did not match regex".to_string()),
    );
    let expected = serde_json::Value::Object(object);
    assert_eq!(value, expected);
}

#[test]
fn end_to_end_unknown_status() {
    let status = sample_status();
    assert_eq!(
        "{\"code\":\"UNKNOWN\",\"message\":\"Unsure about that\",\"error_details\":[{\"type\":\"ERROR_INFO\",\"reason\":\"UNKNOWN_FAULT\",\"domain\":\"com.appbiotic.error\"}]}",
        status.to_json()
    );
    assert_eq!("UNKNOWN: Unsure about that", status.to_string());
}

#[test]
fn validation_error_exact_form() {
    let error = ValidationError::new_invalid_format("did not match regex".to_string());
    assert_eq!(
        "{\"type\":\"INVALID_FORMAT\",\"message\":\"did not match regex\"}",
        error.to_json()
    );
}

#[test]
fn empty_error_details_key_is_absent() {
    let status = Status::new_internal(StatusDetails::from_error("oops".to_string()));
    assert_eq!("{\"code\":\"INTERNAL\",\"message\":\"oops\"}", status.to_json());
    let value: serde_json::Value = serde_json::from_str(&status.to_json()).unwrap();
    assert!(value.get("error_details").is_none());
    let populated = sample_status();
    let value: serde_json::Value = serde_json::from_str(&populated.to_json()).unwrap();
    assert!(value.get("error_details").is_some());
}

#[test]
fn error_details_order_is_preserved() {
    let status = Status::new_aborted(StatusDetails::new(
        "two details".to_string(),
        vec![
            ErrorDetails::new_error_info(ErrorInfo::new(
                "FIRST".to_string(),
                "d.example".to_string(),
            )),
            ErrorDetails::new_error_info(ErrorInfo::new(
                "SECOND".to_string(),
                "d.example".to_string(),
            )),
        ],
    ));
    let value: serde_json::Value = serde_json::from_str(&status.to_json()).unwrap();
    let details = value.get("error_details").unwrap().as_array().unwrap();
    assert_eq!(2, details.len());
    assert_eq!("FIRST", details[0].get("reason").unwrap().as_str().unwrap());
    assert_eq!("SECOND", details[1].get("reason").unwrap().as_str().unwrap());
}

#[test]
fn empty_metadata_key_is_absent() {
    let info = ErrorInfo::new("R".to_string(), "d.example".to_string());
    let value: serde_json::Value = serde_json::from_str(&info.to_json()).unwrap();
    assert!(value.get("metadata").is_none());
    let with = ErrorInfo::with_metadata(
        "R".to_string(),
        "d.example".to_string(),
        vec![("k".to_string(), "v".to_string())],
    );
    let value: serde_json::Value = serde_json::from_str(&with.to_json()).unwrap();
    assert_eq!("v", value.get("metadata").unwrap().get("k").unwrap().as_str().unwrap());
}

#[test]
fn round_trip_all_codes() {
    let plain: Vec<Status> = vec![
        Status::new_cancelled(StatusDetails::from_error("m".to_string())),
        Status::new_unknown(StatusDetails::from_error("m".to_string())),
        Status::new_invalid_argument(StatusDetails::from_error("m".to_string())),
        Status::new_deadline_exceeded(StatusDetails::from_error("m".to_string())),
        Status::new_not_found(StatusDetails::from_error("m".to_string())),
        Status::new_already_exists(StatusDetails::from_error("m".to_string())),
        Status::new_permission_denied(StatusDetails::from_error("m".to_string())),
        Status::new_unauthenticated(StatusDetails::from_error("m".to_string())),
        Status::new_resource_exhausted(StatusDetails::from_error("m".to_string())),
        Status::new_failed_precondition(StatusDetails::from_error("m".to_string())),
        Status::new_aborted(StatusDetails::from_error("m".to_string())),
        Status::new_out_of_range(StatusDetails::from_error("m".to_string())),
        Status::new_unimplemented(StatusDetails::from_error("m".to_string())),
        Status::new_internal(StatusDetails::from_error("m".to_string())),
        Status::new_unavailable(StatusDetails::from_error("m".to_string())),
        Status::new_data_loss(StatusDetails::from_error("m".to_string())),
    ];
    assert_eq!(plain.len(), 16);
    for status in plain {
        let parsed = Status::from_json(&status.to_json()).unwrap();
        assert_eq!(status, parsed);
    }
}

#[test]
fn round_trip_with_details_and_metadata() {
    let info = ErrorInfo::with_metadata(
        "QUOTA".to_string(),
        "com.appbiotic.error".to_string(),
        vec![
            ("limit".to_string(), "10".to_string()),
            ("window".to_string(), "60s".to_string()),
        ],
    );
    let status = Status::new_resource_exhausted(StatusDetails::new(
        "too many requests".to_string(),
        vec![ErrorDetails::new_error_info(info)],
    ));
    let parsed = Status::from_json(&status.to_json()).unwrap();
    assert_eq!(status, parsed);
}

#[test]
fn round_trip_escaped_characters() {
    let status = Status::new_internal(StatusDetails::from_error(
        "quote \" backslash \\ newline \n tab \t return \r done".to_string(),
    ));
    let json = status.to_json();
    let parsed = Status::from_json(&json).unwrap();
    assert_eq!(status, parsed);
    let value: serde_json::Value = serde_json::from_str(&json).unwrap();
    assert_eq!(
        "quote \" backslash \\ newline \n tab \t return \r done",
        value.get("message").unwrap().as_str().unwrap()
    );
}

#[test]
fn round_trip_unicode_and_empty_message() {
    let status = Status::new_unavailable(StatusDetails::from_error(
        "zone \u{00fc}ber-1 \u{4e16}\u{754c} offline".to_string(),
    ));
    let parsed = Status::from_json(&status.to_json()).unwrap();
    assert_eq!(status, parsed);
    let empty = Status::new_cancelled(StatusDetails::from_error(String::new()));
    assert_eq!("{\"code\":\"CANCELLED\",\"message\":\"\"}", empty.to_json());
    assert_eq!(empty, Status::from_json(&empty.to_json()).unwrap());
}

#[test]
fn round_trip_validation_error() {
    let error = ValidationError::new_invalid_format("did not match regex".to_string());
    let parsed = ValidationError::from_json(&error.to_json()).unwrap();
    assert_eq!(error, parsed);
}

#[test]
fn malformed_input_is_rejected() {
    assert!(Status::from_json("").is_none());
    assert!(Status::from_json("{}").is_none());
    assert!(Status::from_json("{\"code\":\"NO_SUCH_CODE\",\"message\":\"m\"}").is_none());
    assert!(Status::from_json("{\"code\":\"UNKNOWN\",\"message\":\"m\"} ").is_none());
    assert!(Status::from_json("{\"code\":\"UNKNOWN\",\"message\":\"m\"").is_none());
    assert!(ValidationError::from_json("{\"type\":\"OTHER\",\"message\":\"m\"}").is_none());
}
