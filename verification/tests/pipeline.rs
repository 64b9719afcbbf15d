use save_trim::codec::frame;
use save_trim::codec::unframe;
use save_trim::error::TrimError;
use save_trim::path::Fault;
use save_trim::pipeline::trim_bytes;
use save_trim::pipeline::trim_content;
use save_trim::pipeline::trim_file;
use save_trim::pipeline::trim_text;
use save_trim::pipeline::Trimmed;
use save_trim::trim::Policy;
use save_trim::trim::Queue;
use save_trim::trim::StructuralError;

const SMALL: &str = "{\"gamestates\":{\"PavonisInteractive.TerraInvicta.TINotificationQueueState\":[{\"Value\":{\"notificationSummaryQueue\":[1,2,3],\"timerNotificationQueue\":[4,5]}}]}}";

const SMALL_TRIMMED: &str = "{\n  \"gamestates\": {\n    \"PavonisInteractive.TerraInvicta.TINotificationQueueState\": [\n      {\n        \"Value\": {\n          \"notificationSummaryQueue\": [],\n          \"timerNotificationQueue\": []\n        }\n      }\n    ]\n  }\n}";

const SAVE: &str = "{\n  \"currentID\": {\n    \"value\": 4711\n  },\n  \"gamestates\": {\n    \"PavonisInteractive.TerraInvicta.TITimeState\": [\n      {\n        \"Key\": {\n          \"value\": 1\n        },\n        \"Value\": {\n          \"speed\": Infinity,\n          \"drift\": -Infinity,\n          \"load\": NaN\n        }\n      }\n    ],\n    \"PavonisInteractive.TerraInvicta.TINotificationQueueState\": [\n      {\n        \"Key\": {\n          \"value\": 2\n        },\n        \"Value\": {\n          \"ID\": {\n            \"value\": 2\n          },\n          \"notificationSummaryQueue\": [\n            {\n              \"headline\": \"a\",\n              \"weight\": NaN\n            },\n            {\n              \"headline\": \"b\"\n            }\n          ],\n          \"timerNotificationQueue\": [\n            {\n              \"delay\": 0.5\n            }\n          ]\n        }\n      }\n    ]\n  }\n}";

const SAVE_TRIMMED: &str = "{\n  \"currentID\": {\n    \"value\": 4711\n  },\n  \"gamestates\": {\n    \"PavonisInteractive.TerraInvicta.TITimeState\": [\n      {\n        \"Key\": {\n          \"value\": 1\n        },\n        \"Value\": {\n          \"speed\": Infinity,\n          \"drift\": -Infinity,\n          \"load\": NaN\n        }\n      }\n    ],\n    \"PavonisInteractive.TerraInvicta.TINotificationQueueState\": [\n      {\n        \"Key\": {\n          \"value\": 2\n        },\n        \"Value\": {\n          \"ID\": {\n            \"value\": 2\n          },\n          \"notificationSummaryQueue\": [],\n          \"timerNotificationQueue\": []\n        }\n      }\n    ]\n  }\n}";

fn text(bytes: Vec<u8>) -> String {
    String::from_utf8(bytes).unwrap()
}

#[test]
fn a_small_save_trims_five() {
    let done = trim_text(SMALL.as_bytes(), Policy::RequireAny).unwrap();
    assert_eq!(done.count, 5);
    assert_eq!(text(done.output), SMALL_TRIMMED);
}

#[test]
fn a_save_keeps_everything_but_the_queues() {
    let done = trim_bytes(SAVE.as_bytes(), false, Policy::RequireBoth).unwrap();
    assert_eq!(done.count, 3);
    assert_eq!(text(done.output), SAVE_TRIMMED);
}

#[test]
fn a_trimmed_save_has_nothing_to_trim() {
    assert_eq!(
        trim_text(SAVE_TRIMMED.as_bytes(), Policy::RequireAny),
        Err(TrimError::NothingTrimmed)
    );
    assert_eq!(
        trim_bytes(SMALL_TRIMMED.as_bytes(), false, Policy::RequireBoth),
        Err(TrimError::NothingTrimmed)
    );
}

#[test]
fn a_save_without_timer_queue_is_trimmed_under_require_any() {
    let input = "{\"gamestates\": {\"PavonisInteractive.TerraInvicta.TINotificationQueueState\": [{\"Value\": {\"notificationSummaryQueue\": [1, 2, 3, 4]}}]}}";
    let done = trim_text(input.as_bytes(), Policy::RequireAny).unwrap();
    assert_eq!(done.count, 4);
    assert_eq!(
        text(done.output),
        "{\n  \"gamestates\": {\n    \"PavonisInteractive.TerraInvicta.TINotificationQueueState\": [\n      {\n        \"Value\": {\n          \"notificationSummaryQueue\": []\n        }\n      }\n    ]\n  }\n}"
    );
    assert_eq!(
        trim_text(input.as_bytes(), Policy::RequireBoth),
        Err(TrimError::Structure(StructuralError {
            queue: Queue::Timer,
            hop: 4,
            fault: Fault::MissingKey
        }))
    );
}

#[test]
fn a_gzip_stream_and_its_text_are_trimmed_to_the_same_text() {
    let stream = frame(SAVE.as_bytes().to_vec(), true).unwrap();
    let of_text = trim_bytes(SAVE.as_bytes(), false, Policy::RequireAny).unwrap();
    let of_stream = trim_bytes(&stream, true, Policy::RequireAny).unwrap();
    assert_eq!(of_stream.count, of_text.count);
    assert_ne!(of_stream.output, of_text.output);
    assert_eq!(unframe(&of_stream.output, true), Ok(of_text.output.clone()));
    assert_eq!(
        trim_content(&stream, true, Policy::RequireAny),
        Ok(Trimmed { output: of_text.output, count: 3 })
    );
}

#[test]
fn failures_of_each_stage() {
    assert!(matches!(
        trim_bytes(SAVE.as_bytes(), true, Policy::RequireAny),
        Err(TrimError::Compression(_))
    ));
    assert_eq!(
        trim_bytes(b"{\"gamestates\": ", false, Policy::RequireAny),
        Err(TrimError::Decode("EOF while parsing a value at line 1 column 15".to_string()))
    );
    assert_eq!(
        trim_bytes(b"{\"gamestates\": []}", false, Policy::RequireBoth),
        Err(TrimError::Structure(StructuralError {
            queue: Queue::Summary,
            hop: 1,
            fault: Fault::WrongKind
        }))
    );
    assert_eq!(
        trim_bytes(b"{\"gamestates\": []}", false, Policy::RequireAny),
        Err(TrimError::NothingTrimmed)
    );
    let stream = frame(b"[1, 2".to_vec(), true).unwrap();
    assert!(matches!(trim_bytes(&stream, true, Policy::RequireAny), Err(TrimError::Decode(_))));
}

#[test]
fn a_key_given_twice_keeps_its_place_and_its_last_value() {
    let input = "{\"gamestates\": 1, \"x\": 2, \"gamestates\": {\"PavonisInteractive.TerraInvicta.TINotificationQueueState\": [{\"Value\": {\"timerNotificationQueue\": [1]}}]}}";
    let done = trim_text(input.as_bytes(), Policy::RequireAny).unwrap();
    assert_eq!(done.count, 1);
    assert_eq!(
        text(done.output),
        "{\n  \"gamestates\": {\n    \"PavonisInteractive.TerraInvicta.TINotificationQueueState\": [\n      {\n        \"Value\": {\n          \"timerNotificationQueue\": []\n        }\n      }\n    ]\n  },\n  \"x\": 2\n}"
    );
}

#[test]
fn a_file_is_trimmed_under_its_new_name() {
    let file = trim_file("Autosave.json", SAVE.as_bytes(), Policy::RequireAny).unwrap();
    assert_eq!(file.name, "Autosave.Trimmed");
    assert_eq!(file.count, 3);
    assert_eq!(text(file.bytes), SAVE_TRIMMED);
}

#[test]
fn a_gzip_file_is_trimmed_to_a_gzip_file() {
    let stream = frame(SAVE.as_bytes().to_vec(), true).unwrap();
    let file = trim_file("Autosave.gz", &stream, Policy::RequireAny).unwrap();
    assert_eq!(file.name, "Autosave.Trimmed.gz");
    assert_eq!(file.count, 3);
    assert_eq!(unframe(&file.bytes, true), Ok(SAVE_TRIMMED.as_bytes().to_vec()));
}

#[test]
fn the_name_decides_how_the_bytes_are_read() {
    let stream = frame(SAVE.as_bytes().to_vec(), true).unwrap();
    assert!(matches!(
        trim_file("Autosave.json", &stream, Policy::RequireAny),
        Err(TrimError::Decode(_))
    ));
    assert!(matches!(
        trim_file("Autosave.gz", SAVE.as_bytes(), Policy::RequireAny),
        Err(TrimError::Compression(_))
    ));
}

#[test]
fn a_large_save_is_trimmed() {
    let mut input = String::from(
        "{\n  \"gamestates\": {\n    \"PavonisInteractive.TerraInvicta.TINotificationQueueState\": [\n      {\n        \"Value\": {\n          \"notificationSummaryQueue\": [\n",
    );
    for i in 0..20000 {
        input.push_str(&format!(
            "            {{\n              \"id\": {},\n              \"weight\": NaN,\n              \"limit\": -Infinity\n            }}{}\n",
            i,
            if i < 19999 { "," } else { "" }
        ));
    }
    input.push_str(
        "          ],\n          \"timerNotificationQueue\": [],\n          \"horizon\": Infinity\n        }\n      }\n    ]\n  }\n}",
    );
    let done = trim_bytes(input.as_bytes(), false, Policy::RequireBoth).unwrap();
    assert_eq!(done.count, 20000);
    assert_eq!(
        text(done.output),
        "{\n  \"gamestates\": {\n    \"PavonisInteractive.TerraInvicta.TINotificationQueueState\": [\n      {\n        \"Value\": {\n          \"notificationSummaryQueue\": [],\n          \"timerNotificationQueue\": [],\n          \"horizon\": Infinity\n        }\n      }\n    ]\n  }\n}"
    );
}
