use fmp4_demuxer::probe::add_test_two_numbers;
use fmp4_demuxer::error::{
    push_decimal, stringify_error_chain, MalformedPayload, SegmentParseError,
};

#[test]
fn empty_run_message() {
    assert_eq!(MalformedPayload::NoRunEntries.message(), "No entries in TRUN");
}

#[test]
fn out_of_bounds_message_names_index_size_and_length() {
    let e = MalformedPayload::SampleOutOfBounds { sample_index: 1, sample_size: 3, mdat_len: 4 };
    assert_eq!(e.message(), "Sample 1 size 3 exceeds mdat data length 4");
    let e = MalformedPayload::SampleOutOfBounds {
        sample_index: 0,
        sample_size: 4294967295,
        mdat_len: 1048576,
    };
    assert_eq!(e.message(), "Sample 0 size 4294967295 exceeds mdat data length 1048576");
    let e = MalformedPayload::SampleOutOfBounds {
        sample_index: 120,
        sample_size: 0,
        mdat_len: usize::MAX,
    };
    assert_eq!(
        e.message(),
        format!("Sample 120 size 0 exceeds mdat data length {}", usize::MAX)
    );
}

#[test]
fn decimal_numerals() {
    for n in [0usize, 1, 9, 10, 11, 99, 100, 101, 909, 1000, 12345, 4294967296, usize::MAX] {
        let mut out = String::from("n=");
        push_decimal(&mut out, n);
        assert_eq!(out, format!("n={}", n));
    }
}

#[test]
fn malformed_payload_is_reported_as_invalid_payload() {
    assert_eq!(
        SegmentParseError::from_malformed(MalformedPayload::NoRunEntries),
        SegmentParseError::InvalidPayload { msg: "No entries in TRUN".to_string() }
    );
    let e = MalformedPayload::SampleOutOfBounds { sample_index: 7, sample_size: 80, mdat_len: 79 };
    assert_eq!(
        SegmentParseError::from_malformed(e),
        SegmentParseError::InvalidPayload {
            msg: "Sample 7 size 80 exceeds mdat data length 79".to_string()
        }
    );
}

#[test]
fn report_text_leads_with_the_kind() {
    let e = SegmentParseError::from_malformed(MalformedPayload::NoRunEntries);
    assert_eq!(e.describe(), "Invalid payload: No entries in TRUN");
    assert_eq!(
        SegmentParseError::CursorError { msg: "past the end".to_string() }.describe(),
        "Cursor error: past the end"
    );
    assert_eq!(
        SegmentParseError::IoError { msg: String::new() }.describe(),
        "IO error: "
    );
}

#[test]
fn error_without_causes_is_one_line() {
    assert_eq!(stringify_error_chain("disk full", &vec![]), "Error: disk full\n");
    assert_eq!(stringify_error_chain("", &vec![]), "Error: \n");
}

#[test]
fn causes_follow_the_error_in_order() {
    let causes = vec!["index is locked".to_string(), "permission denied".to_string()];
    assert_eq!(
        stringify_error_chain("cannot open index", &causes),
        "Error: cannot open index\nCaused by: index is locked\nCaused by: permission denied\n"
    );
}

#[test]
fn chain_text_keeps_text_that_is_not_ascii() {
    let causes = vec!["caf\u{e9} \u{2014} ferm\u{e9}".to_string(), String::new()];
    assert_eq!(
        stringify_error_chain("\u{fc}ber", &causes),
        "Error: \u{fc}ber\nCaused by: caf\u{e9} \u{2014} ferm\u{e9}\nCaused by: \n"
    );
}

#[test]
fn two_numbers_are_added() {
    assert_eq!(add_test_two_numbers(2, 3), 5);
    assert_eq!(add_test_two_numbers(0, 0), 0);
    assert_eq!(add_test_two_numbers(u32::MAX - 7, 7), u32::MAX);
    assert_eq!(add_test_two_numbers(0, u32::MAX), u32::MAX);
}
