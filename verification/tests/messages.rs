use save_trim::error::decimal_text;
use save_trim::error::DecodeError;
use save_trim::error::EncodeError;
use save_trim::error::TrimError;
use save_trim::path::Fault;
use save_trim::trim::Queue;
use save_trim::trim::StructuralError;

#[test]
fn decimal_text_writes_digits() {
    assert_eq!(decimal_text(0), "0");
    assert_eq!(decimal_text(7), "7");
    assert_eq!(decimal_text(10), "10");
    assert_eq!(decimal_text(1234567890), "1234567890");
    assert_eq!(decimal_text(usize::MAX), usize::MAX.to_string());
}

#[test]
fn a_structural_error_names_queue_step_and_fault() {
    let e = StructuralError { queue: Queue::Timer, hop: 4, fault: Fault::MissingKey };
    assert_eq!(
        e.message(),
        "Couldn't find notifications to trim: timerNotificationQueue, step 4: missing key"
    );
    let e = StructuralError { queue: Queue::Summary, hop: 12, fault: Fault::WrongKind };
    assert_eq!(
        TrimError::Structure(e).message(),
        "Couldn't find notifications to trim: notificationSummaryQueue, step 12: wrong kind of value"
    );
    assert_eq!(Fault::MissingIndex.text(), "missing index");
}

#[test]
fn each_error_has_its_message() {
    assert_eq!(TrimError::NothingTrimmed.message(), "No notifications trimmed");
    assert_eq!(
        TrimError::Io { path: "a/b.Trimmed".to_string(), message: "File exists".to_string() }
            .message(),
        "a/b.Trimmed: File exists"
    );
    assert_eq!(TrimError::Compression("x".to_string()).message(), "Compression failed: x");
    assert_eq!(TrimError::Decode("y".to_string()).message(), "Malformed document: y");
    assert_eq!(TrimError::Encode("z".to_string()).message(), "Document cannot be written: z");
    assert_eq!(DecodeError::Compression("x".to_string()).message(), "Compression failed: x");
    assert_eq!(DecodeError::Malformed("y".to_string()).message(), "Malformed document: y");
    assert_eq!(EncodeError::Compression("x".to_string()).message(), "Compression failed: x");
    assert_eq!(
        EncodeError::Serialization("z".to_string()).message(),
        "Document cannot be written: z"
    );
}

#[test]
fn component_errors_become_errors_of_the_trim() {
    assert_eq!(
        TrimError::from_decode(DecodeError::Compression("x".to_string())),
        TrimError::Compression("x".to_string())
    );
    assert_eq!(
        TrimError::from_decode(DecodeError::Malformed("y".to_string())),
        TrimError::Decode("y".to_string())
    );
    assert_eq!(
        TrimError::from_encode(EncodeError::Compression("x".to_string())),
        TrimError::Compression("x".to_string())
    );
    assert_eq!(
        TrimError::from_encode(EncodeError::Serialization("z".to_string())),
        TrimError::Encode("z".to_string())
    );
}
