//! The newline-delimited framing of the durable logs.

use canvas_collab::persistence::{frame_record, split_records, RECORD_DELIMITER};

fn bytes(x: &str) -> Vec<u8> {
    x.as_bytes().to_vec()
}

#[test]
fn frame_appends_delimiter() {
    let framed = frame_record(&bytes("{\"type\":\"UserLeft\"}"));
    assert_eq!(framed, bytes("{\"type\":\"UserLeft\"}\n"));
    assert_eq!(*framed.last().unwrap(), RECORD_DELIMITER);
}

#[test]
fn split_empty_log() {
    assert_eq!(split_records(&bytes("")), Vec::<Vec<u8>>::new());
}

#[test]
fn split_terminated_records() {
    let records = split_records(&bytes("one\ntwo\nthree\n"));
    assert_eq!(records, vec![bytes("one"), bytes("two"), bytes("three")]);
}

#[test]
fn split_keeps_final_unterminated_record() {
    // A partial line at true end-of-file is still handed to the reader,
    // which then decides whether it decodes.
    let records = split_records(&bytes("one\ntwo\npart"));
    assert_eq!(records, vec![bytes("one"), bytes("two"), bytes("part")]);
}

#[test]
fn split_preserves_empty_lines() {
    let records = split_records(&bytes("\na\n\n"));
    assert_eq!(records, vec![bytes(""), bytes("a"), bytes("")]);
}

#[test]
fn framed_records_round_trip() {
    let records = vec![bytes("{\"a\":1}"), bytes(""), bytes("{\"b\":[2,3]}")];
    let mut log: Vec<u8> = Vec::new();
    for r in &records {
        log.extend_from_slice(&frame_record(r));
    }
    assert_eq!(split_records(&log), records);
}
