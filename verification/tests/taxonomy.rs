use appbiotic_error::Code;
use appbiotic_error::ErrorDetails;
use appbiotic_error::ErrorInfo;
use appbiotic_error::Status;
use appbiotic_error::StatusDetails;
use appbiotic_error::ValidationError;

fn sample_details() -> StatusDetails {
    StatusDetails::new(
        "Unsure about that".to_string(),
        vec![ErrorDetails::new_error_info(ErrorInfo::new(
            "UNKNOWN_FAULT".to_string(),
            "com.appbiotic.error".to_string(),
        ))],
    )
}

#[test]
fn status_message() {
    let status = Status::new_unknown(sample_details());
    assert_eq!("UNKNOWN: Unsure about that", status.to_string());
}

#[test]
fn validation_error_message() {
    let error = ValidationError::new_invalid_format("did not match regex".to_string());
    assert_eq!("INVALID_FORMAT: did not match regex", error.to_string());
}

#[test]
fn render_all_codes() {
    let cases: Vec<(Status, &str)> = vec![
        (Status::new_cancelled(StatusDetails::from_error("m".to_string())), "CANCELLED: m"),
        (Status::new_unknown(StatusDetails::from_error("m".to_string())), "UNKNOWN: m"),
        (
            Status::new_invalid_argument(StatusDetails::from_error("m".to_string())),
            "INVALID_ARGUMENT: m",
        ),
        (
            Status::new_deadline_exceeded(StatusDetails::from_error("m".to_string())),
            "DEADLINE_EXCEEDED: m",
        ),
        (Status::new_not_found(StatusDetails::from_error("m".to_string())), "NOT_FOUND: m"),
        (
            Status::new_already_exists(StatusDetails::from_error("m".to_string())),
            "ALREADY_EXISTS: m",
        ),
        (
            Status::new_permission_denied(StatusDetails::from_error("m".to_string())),
            "PERMISSION_DENIED: m",
        ),
        (
            Status::new_unauthenticated(StatusDetails::from_error("m".to_string())),
            "UNAUTHENTICATED: m",
        ),
        (
            Status::new_resource_exhausted(StatusDetails::from_error("m".to_string())),
            "RESOURCE_EXHAUSTED: m",
        ),
        (
            Status::new_failed_precondition(StatusDetails::from_error("m".to_string())),
            "FAILED_PRECONDITION: m",
        ),
        (Status::new_aborted(StatusDetails::from_error("m".to_string())), "ABORTED: m"),
        (Status::new_out_of_range(StatusDetails::from_error("m".to_string())), "OUT_OF_RANGE: m"),
        (Status::new_unimplemented(StatusDetails::from_error("m".to_string())), "UNIMPLEMENTED: m"),
        (Status::new_internal(StatusDetails::from_error("m".to_string())), "INTERNAL: m"),
        (Status::new_unavailable(StatusDetails::from_error("m".to_string())), "UNAVAILABLE: m"),
        (Status::new_data_loss(StatusDetails::from_error("m".to_string())), "DATA_LOSS: m"),
    ];
    assert_eq!(cases.len(), 16);
    for (status, expected) in cases {
        assert_eq!(expected, status.to_string());
    }
}

#[test]
fn render_empty_message() {
    let status = Status::new_not_found(StatusDetails::from_error(String::new()));
    assert_eq!("NOT_FOUND: ", status.to_string());
}

#[test]
fn from_error_helpers() {
    assert_eq!("INTERNAL: bug", Status::from_error_as_internal("bug".to_string()).to_string());
    assert_eq!(
        "FAILED_PRECONDITION: not ready",
        Status::from_error_as_failed_precondition("not ready".to_string()).to_string()
    );
    assert_eq!(
        "INVALID_ARGUMENT: bad input",
        Status::from_error_as_invalid_argument("bad input".to_string()).to_string()
    );
    assert_eq!("UNKNOWN: what", Status::from_error_as_unknown("what".to_string()).to_string());
    let status = Status::from_error_as_internal("bug".to_string());
    assert!(status.details().error_details.is_empty());
}

#[test]
fn status_details_renders_message_only() {
    let details = sample_details();
    assert_eq!("Unsure about that", details.to_string());
    let from_error = StatusDetails::from_error("boom".to_string());
    assert_eq!("boom", from_error.to_string());
    assert!(from_error.error_details.is_empty());
}

#[test]
fn error_info_equality_is_structural() {
    let a = ErrorInfo::with_metadata(
        "R".to_string(),
        "d.example".to_string(),
        vec![("a".to_string(), "1".to_string()), ("b".to_string(), "2".to_string())],
    );
    let b = ErrorInfo::with_metadata(
        "R".to_string(),
        "d.example".to_string(),
        vec![("a".to_string(), "1".to_string()), ("b".to_string(), "2".to_string())],
    );
    assert_eq!(a, b);
    let c = ErrorInfo::with_metadata(
        "R".to_string(),
        "d.example".to_string(),
        vec![("a".to_string(), "1".to_string()), ("b".to_string(), "3".to_string())],
    );
    assert_ne!(a, c);
    let d = ErrorInfo::new("R".to_string(), "other.example".to_string());
    assert_ne!(a, d);
}

#[test]
fn metadata_insert_keeps_key_order() {
    let mut info = ErrorInfo::new("R".to_string(), "d.example".to_string());
    info.metadata_insert("b".to_string(), "2".to_string());
    info.metadata_insert("a".to_string(), "1".to_string());
    info.metadata_insert("c".to_string(), "3".to_string());
    let expected = ErrorInfo::with_metadata(
        "R".to_string(),
        "d.example".to_string(),
        vec![
            ("a".to_string(), "1".to_string()),
            ("b".to_string(), "2".to_string()),
            ("c".to_string(), "3".to_string()),
        ],
    );
    assert_eq!(expected, info);
}

#[test]
fn metadata_insert_is_order_independent() {
    let mut first = ErrorInfo::new("R".to_string(), "d.example".to_string());
    first.metadata_insert("a".to_string(), "1".to_string());
    first.metadata_insert("b".to_string(), "2".to_string());
    let mut second = ErrorInfo::new("R".to_string(), "d.example".to_string());
    second.metadata_insert("b".to_string(), "2".to_string());
    second.metadata_insert("a".to_string(), "1".to_string());
    assert_eq!(first, second);
}

#[test]
fn metadata_insert_replaces_same_key() {
    let mut info = ErrorInfo::new("R".to_string(), "d.example".to_string());
    info.metadata_insert("k".to_string(), "old".to_string());
    info.metadata_insert("k".to_string(), "new".to_string());
    assert_eq!(
        vec![("k".to_string(), "new".to_string())],
        info.metadata
    );
}

#[test]
fn transport_conversion_preserves_code_and_message() {
    let messages_and_codes: Vec<(Status, Code)> = vec![
        (Status::new_cancelled(StatusDetails::from_error("m".to_string())), Code::Cancelled),
        (Status::new_unknown(StatusDetails::from_error("m".to_string())), Code::Unknown),
        (
            Status::new_invalid_argument(StatusDetails::from_error("m".to_string())),
            Code::InvalidArgument,
        ),
        (
            Status::new_deadline_exceeded(StatusDetails::from_error("m".to_string())),
            Code::DeadlineExceeded,
        ),
        (Status::new_not_found(StatusDetails::from_error("m".to_string())), Code::NotFound),
        (
            Status::new_already_exists(StatusDetails::from_error("m".to_string())),
            Code::AlreadyExists,
        ),
        (
            Status::new_permission_denied(StatusDetails::from_error("m".to_string())),
            Code::PermissionDenied,
        ),
        (
            Status::new_unauthenticated(StatusDetails::from_error("m".to_string())),
            Code::Unauthenticated,
        ),
        (
            Status::new_resource_exhausted(StatusDetails::from_error("m".to_string())),
            Code::ResourceExhausted,
        ),
        (
            Status::new_failed_precondition(StatusDetails::from_error("m".to_string())),
            Code::FailedPrecondition,
        ),
        (Status::new_aborted(StatusDetails::from_error("m".to_string())), Code::Aborted),
        (Status::new_out_of_range(StatusDetails::from_error("m".to_string())), Code::OutOfRange),
        (Status::new_unimplemented(StatusDetails::from_error("m".to_string())), Code::Unimplemented),
        (Status::new_internal(StatusDetails::from_error("m".to_string())), Code::Internal),
        (Status::new_unavailable(StatusDetails::from_error("m".to_string())), Code::Unavailable),
        (Status::new_data_loss(StatusDetails::from_error("m".to_string())), Code::DataLoss),
    ];
    assert_eq!(messages_and_codes.len(), 16);
    for (status, code) in messages_and_codes {
        let transport = status.to_transport();
        assert_eq!(code, transport.code);
        assert_eq!("m", transport.message);
        assert_eq!(code, status.code());
    }
}

#[test]
fn transport_conversion_drops_error_details() {
    let status = Status::new_unknown(sample_details());
    assert_eq!(1, status.details().error_details.len());
    let transport = status.to_transport();
    let back = Status::from_transport(transport);
    assert_eq!(Code::Unknown, back.code());
    assert_eq!("Unsure about that", back.details().message);
    assert!(back.details().error_details.is_empty());
}

#[test]
fn code_tokens_are_fixed() {
    assert_eq!("CANCELLED", Code::Cancelled.token());
    assert_eq!("RESOURCE_EXHAUSTED", Code::ResourceExhausted.token());
    assert_eq!("DATA_LOSS", Code::DataLoss.token());
    assert_eq!("FAILED_PRECONDITION", Code::FailedPrecondition.token());
}
