use flate2::write::GzEncoder;
use flate2::Compression;
use salmon_eq::collection::{parse_record, path_names_file};
use salmon_eq::{EqClassCollection, ParseFailure};
use std::io::Write;

fn weight(token: &[u8]) -> f64 {
    std::str::from_utf8(token).unwrap().parse::<f64>().unwrap()
}

fn load(text: &[u8]) -> Result<EqClassCollection<f64>, ParseFailure> {
    EqClassCollection::from_bytes(text, weight)
}

fn failure(text: &[u8]) -> ParseFailure {
    match load(text) {
        Ok(_) => panic!("the text was accepted"),
        Err(e) => e,
    }
}

fn gzip(plain: &[u8]) -> Vec<u8> {
    let mut encoder = GzEncoder::new(Vec::new(), Compression::default());
    encoder.write_all(plain).unwrap();
    encoder.finish().unwrap()
}

fn records(c: &EqClassCollection<f64>) -> Vec<(Vec<usize>, Vec<f64>, u32)> {
    let mut all = Vec::new();
    let mut i = 0;
    while let Some(view) = c.get(i) {
        all.push((view.labels.to_vec(), view.weights.to_vec(), view.count));
        i += 1;
    }
    all
}

const SAMPLE: &[u8] = b"2\n1\nT1\nT2\n2 0 1 0.4 0.6 10\n";

const LARGER: &[u8] =
    b"3\n4\nENST1\nENST2\nENST3\n1 0 1 7\n2 0 2 0.5 0.5 12\n3 0 1 2 0.2 0.3 0.5 3\n1 2 1.0 1\n";

#[test]
fn new_collection_is_empty() {
    let c: EqClassCollection<f64> = EqClassCollection::new();
    assert!(c.targets.is_empty());
    assert_eq!(c.ntarget, 0);
    assert_eq!(c.neq, 0);
    assert!(c.classes.is_empty());
    assert!(c.get(0).is_none());
    let d: EqClassCollection<f64> = EqClassCollection::default();
    assert!(d.targets.is_empty());
    assert_eq!(d.neq, 0);
    assert!(d.classes.is_empty());
}

#[test]
fn sample_file_parses() {
    let c = load(SAMPLE).unwrap();
    assert_eq!(c.targets, vec!["T1".to_string(), "T2".to_string()]);
    assert_eq!(c.ntarget, 2);
    assert_eq!(c.neq, 1);
    assert_eq!(c.classes.len(), 1);
    let ec = c.get(0).unwrap();
    assert_eq!(ec.labels, vec![0, 1]);
    assert_eq!(ec.weights, vec![0.4, 0.6]);
    assert_eq!(ec.count, 10);
    assert!(c.get(1).is_none());
}

#[test]
fn well_formed_file_has_the_declared_counts() {
    let c = load(LARGER).unwrap();
    assert_eq!(c.ntarget, 3);
    assert_eq!(c.neq, 4);
    assert_eq!(c.targets.len(), 3);
    assert_eq!(c.classes.len(), 4);
    assert_eq!(c.targets, vec!["ENST1".to_string(), "ENST2".to_string(), "ENST3".to_string()]);
    assert_eq!(
        records(&c),
        vec![
            (vec![0], vec![1.0], 7),
            (vec![0, 2], vec![0.5, 0.5], 12),
            (vec![0, 1, 2], vec![0.2, 0.3, 0.5], 3),
            (vec![2], vec![1.0], 1),
        ]
    );
    assert_eq!(c.classes.offsets, vec![0, 1, 3, 6, 7]);
}

#[test]
fn records_keep_file_order_under_iteration() {
    let c = load(LARGER).unwrap();
    let mut counts = Vec::new();
    let mut it = c.classes.iter();
    while let Some(view) = it.next() {
        counts.push(view.count);
    }
    assert_eq!(counts, vec![7, 12, 3, 1]);
}

#[test]
fn empty_file_declares_nothing() {
    let c = load(b"0\n0\n").unwrap();
    assert_eq!(c.ntarget, 0);
    assert_eq!(c.neq, 0);
    assert!(c.targets.is_empty());
    assert!(c.classes.is_empty());
}

#[test]
fn last_line_needs_no_line_feed() {
    let c = load(b"2\n1\nT1\nT2\n2 0 1 0.4 0.6 10").unwrap();
    assert_eq!(records(&c), vec![(vec![0, 1], vec![0.4, 0.6], 10)]);
    let c = load(b"1\n0\nT1").unwrap();
    assert_eq!(c.targets, vec!["T1".to_string()]);
    let c = load(b"0\n0").unwrap();
    assert_eq!(c.neq, 0);
}

#[test]
fn lines_behind_the_declared_records_are_not_read() {
    let c = load(b"1\n1\nT1\n1 0 1 5\nthis is not a record\n\n").unwrap();
    assert_eq!(records(&c), vec![(vec![0], vec![1.0], 5)]);
}

#[test]
fn names_are_taken_as_they_stand() {
    let c = load(b"4\n0\n name with  spaces \n\nT|3\tx\nlast\r\n").unwrap();
    assert_eq!(
        c.targets,
        vec![
            " name with  spaces ".to_string(),
            "".to_string(),
            "T|3\tx".to_string(),
            "last\r".to_string()
        ]
    );
}

#[test]
fn names_that_are_utf8_keep_their_text() {
    let c = load("2\n0\ntr\u{e4}nscript\n\u{8f6c}\u{5f55}\n".as_bytes()).unwrap();
    assert_eq!(c.targets, vec!["tr\u{e4}nscript".to_string(), "\u{8f6c}\u{5f55}".to_string()]);
}

#[test]
fn names_that_are_not_utf8_are_decoded_leniently() {
    let c = load(b"2\n0\nT\xff1\nT2\n").unwrap();
    assert_eq!(c.targets, vec!["T\u{fffd}1".to_string(), "T2".to_string()]);
}

#[test]
fn tokens_are_separated_by_any_ascii_whitespace() {
    let c = load(b"1\n2\nT1\n \t2\t0  1\x0c0.4 \r 0.6\t10 \r\n1 0 1 3\r\n").unwrap();
    assert_eq!(records(&c), vec![(vec![0, 1], vec![0.4, 0.6], 10), (vec![0], vec![1.0], 3)]);
}

#[test]
fn record_without_transcripts() {
    let c = load(b"0\n1\n0 42\n").unwrap();
    assert_eq!(records(&c), vec![(vec![], vec![], 42)]);
    assert_eq!(c.classes.offsets, vec![0, 0]);
}

#[test]
fn weights_in_every_notation() {
    let c = load(b"0\n1\n6 0 0 0 0 0 0 1e-3 .5 5. +2.5E2 -0.25 1 9\n").unwrap();
    assert_eq!(
        records(&c),
        vec![(vec![0, 0, 0, 0, 0, 0], vec![0.001, 0.5, 5.0, 250.0, -0.25, 1.0], 9)]
    );
    let c = load(b"0\n1\n3 1 2 3 inf -Infinity NaN 9\n").unwrap();
    let ec = c.get(0).unwrap();
    assert_eq!(ec.weights[0], f64::INFINITY);
    assert_eq!(ec.weights[1], f64::NEG_INFINITY);
    assert!(ec.weights[2].is_nan());
}

#[test]
fn labels_are_not_held_against_the_target_count() {
    let c = load(b"1\n1\nT1\n2 5 5 0.5 0.5 1\n").unwrap();
    assert_eq!(records(&c), vec![(vec![5, 5], vec![0.5, 0.5], 1)]);
}

#[test]
fn header_with_plus_sign_and_leading_zeros() {
    let c = load(b"+1\n001\nT1\n1 0 1 1\n").unwrap();
    assert_eq!(c.ntarget, 1);
    assert_eq!(c.neq, 1);
}

#[test]
fn malformed_header() {
    assert_eq!(failure(b""), ParseFailure::MalformedHeader);
    assert_eq!(failure(b"\n"), ParseFailure::MalformedHeader);
    assert_eq!(failure(b"2"), ParseFailure::MalformedHeader);
    assert_eq!(failure(b"2\n"), ParseFailure::MalformedHeader);
    assert_eq!(failure(b"two\n1\nT1\nT2\n"), ParseFailure::MalformedHeader);
    assert_eq!(failure(b"2\none\nT1\nT2\n"), ParseFailure::MalformedHeader);
    assert_eq!(failure(b"-2\n1\nT1\nT2\n"), ParseFailure::MalformedHeader);
    assert_eq!(failure(b"2\n-1\nT1\nT2\n"), ParseFailure::MalformedHeader);
    assert_eq!(failure(b"2.0\n1\nT1\nT2\n"), ParseFailure::MalformedHeader);
    assert_eq!(failure(b" 2\n1\nT1\nT2\n"), ParseFailure::MalformedHeader);
    assert_eq!(failure(b"2 \n1\nT1\nT2\n"), ParseFailure::MalformedHeader);
    assert_eq!(failure(b"2\r\n1\r\nT1\r\nT2\r\n"), ParseFailure::MalformedHeader);
    assert_eq!(failure(b"2\n\nT1\nT2\n"), ParseFailure::MalformedHeader);
    assert_eq!(
        failure(b"99999999999999999999999999\n1\nT1\n"),
        ParseFailure::MalformedHeader
    );
    assert_eq!(failure(b"\x1f\x8b\x08\x00"), ParseFailure::MalformedHeader);
}

#[test]
fn truncated_before_all_names() {
    assert_eq!(failure(b"2\n1\n"), ParseFailure::TruncatedInput);
    assert_eq!(failure(b"2\n1\nT1\n"), ParseFailure::TruncatedInput);
    assert_eq!(failure(b"2\n1\nT1"), ParseFailure::TruncatedInput);
    assert_eq!(failure(b"3\n0\nT1\nT2\n"), ParseFailure::TruncatedInput);
    assert_eq!(failure(b"18446744073709551615\n0\nT1\nT2\n"), ParseFailure::TruncatedInput);
    assert_eq!(failure(b"2\nx\nT1\n"), ParseFailure::MalformedHeader);
}

#[test]
fn truncated_before_all_records() {
    assert_eq!(failure(b"2\n1\nT1\nT2\n"), ParseFailure::TruncatedInput);
    assert_eq!(failure(b"2\n2\nT1\nT2\n2 0 1 0.4 0.6 10\n"), ParseFailure::TruncatedInput);
    assert_eq!(failure(b"0\n18446744073709551615\n1 0 1 5\n"), ParseFailure::TruncatedInput);
}

#[test]
fn malformed_record() {
    assert_eq!(failure(b"0\n1\n\n"), ParseFailure::MalformedRecord);
    assert_eq!(failure(b"0\n1\n   \n"), ParseFailure::MalformedRecord);
    assert_eq!(failure(b"0\n1\nx 0 1 5\n"), ParseFailure::MalformedRecord);
    assert_eq!(failure(b"0\n1\n-1 0 1 5\n"), ParseFailure::MalformedRecord);
    assert_eq!(failure(b"0\n1\n1 x 1 5\n"), ParseFailure::MalformedRecord);
    assert_eq!(failure(b"0\n1\n1 -3 1 5\n"), ParseFailure::MalformedRecord);
    assert_eq!(failure(b"0\n1\n1 0.5 1 5\n"), ParseFailure::MalformedRecord);
    assert_eq!(failure(b"0\n1\n1 0 x 5\n"), ParseFailure::MalformedRecord);
    assert_eq!(failure(b"0\n1\n1 0 1e 5\n"), ParseFailure::MalformedRecord);
    assert_eq!(failure(b"0\n1\n1 0 1 x\n"), ParseFailure::MalformedRecord);
    assert_eq!(failure(b"0\n1\n1 0 1 -5\n"), ParseFailure::MalformedRecord);
    assert_eq!(failure(b"0\n1\n1 0 1 5.0\n"), ParseFailure::MalformedRecord);
    assert_eq!(failure(b"0\n1\n1 0 1 4294967296\n"), ParseFailure::MalformedRecord);
    assert_eq!(failure(b"0\n1\n1 0 1\n"), ParseFailure::MalformedRecord);
    assert_eq!(failure(b"0\n1\n1 0\n"), ParseFailure::MalformedRecord);
    assert_eq!(failure(b"0\n1\n1\n"), ParseFailure::MalformedRecord);
    assert_eq!(failure(b"0\n1\n18446744073709551615 0 1 5\n"), ParseFailure::MalformedRecord);
    assert_eq!(failure(b"0\n1\n1 0 \xff 5\n"), ParseFailure::MalformedRecord);
}

#[test]
fn first_failure_decides() {
    assert_eq!(failure(b"0\n3\n1 0 1 5\nbad\n"), ParseFailure::MalformedRecord);
    assert_eq!(failure(b"0\n3\n1 0 1 5\n1 0 1 5\n"), ParseFailure::TruncatedInput);
    assert_eq!(failure(b"x\n3\n1 0 1 5\nbad\n"), ParseFailure::MalformedHeader);
    assert_eq!(failure(b"9\n3\n1 0 1 5\nbad\n"), ParseFailure::TruncatedInput);
}

#[test]
fn record_with_fewer_fields_than_declared_runs_out_of_tokens() {
    assert_eq!(failure(b"2\n1\nT1\nT2\n3 0 1 0.4 0.6 10\n"), ParseFailure::MalformedRecord);
    assert_eq!(failure(b"2\n1\nT1\nT2\n2 0 1 0.4 10\n"), ParseFailure::MalformedRecord);
}

#[test]
fn record_with_more_fields_than_declared_is_read_by_position() {
    // The second label stands where the weight is looked for, and the first
    // weight where the count is looked for.
    assert_eq!(failure(b"2\n1\nT1\nT2\n1 0 1 0.4 0.6 10\n"), ParseFailure::MalformedRecord);
    // Here every shifted field is a number of the kind that is looked for:
    // the line is accepted, and what it gives is not what a sound line gives.
    let shifted = load(b"2\n1\nT1\nT2\n1 0 1 10 0.6\n").unwrap();
    assert_eq!(records(&shifted), vec![(vec![0], vec![1.0], 10)]);
    let sound = load(b"2\n1\nT1\nT2\n2 0 1 0.4 0.6 10\n").unwrap();
    assert_ne!(records(&shifted), records(&sound));
}

#[test]
fn parse_record_reads_one_line() {
    let ec = parse_record(b"2 0 1 0.4 0.6 10", &weight).unwrap();
    assert_eq!(ec.labels, vec![0, 1]);
    assert_eq!(ec.weights, vec![0.4, 0.6]);
    assert_eq!(ec.count, 10);
    let ec = parse_record(b"1 3 0.125 8 and more", &weight).unwrap();
    assert_eq!((ec.labels, ec.weights, ec.count), (vec![3], vec![0.125], 8));
    assert!(parse_record(b"2 0 1 0.4 0.6", &weight).is_none());
    assert!(parse_record(b"", &weight).is_none());
}

#[test]
fn decoder_sees_each_weight_token_once_in_file_order() {
    let seen = std::cell::RefCell::new(Vec::new());
    let c = EqClassCollection::from_bytes(LARGER, |token: &[u8]| {
        seen.borrow_mut().push(String::from_utf8(token.to_vec()).unwrap());
        token.len()
    })
    .unwrap();
    assert_eq!(seen.into_inner(), vec!["1", "0.5", "0.5", "0.2", "0.3", "0.5", "1.0"]);
    assert_eq!(c.classes.weights, vec![1, 3, 3, 3, 3, 3, 3]);
}

#[test]
fn decoder_is_not_called_on_what_is_no_float() {
    let r = EqClassCollection::from_bytes(b"0\n1\n2 0 1 0.5 half 3\n", weight);
    assert_eq!(r.err(), Some(ParseFailure::MalformedRecord));
}

#[test]
fn gzip_file_name_is_recognised_as_last_component() {
    let name = b"eq_classes.txt.gz";
    assert!(path_names_file(b"eq_classes.txt.gz", name));
    assert!(path_names_file(b"run/aux_info/eq_classes.txt.gz", name));
    assert!(path_names_file(b"/eq_classes.txt.gz", name));
    assert!(!path_names_file(b"run/aux_info/eq_classes.txt", name));
    assert!(!path_names_file(b"run/aux_info/my_eq_classes.txt.gz", name));
    assert!(!path_names_file(b"eq_classes.txt.gz/", name));
    assert!(!path_names_file(b"eq_classes.txt.gz.bak", name));
    assert!(!path_names_file(b"txt.gz", name));
    assert!(!path_names_file(b"", name));
    assert!(path_names_file(b"", b""));
    assert!(path_names_file(b"a/", b""));
    assert!(!path_names_file(b"a", b""));
}

#[test]
fn gzip_and_plain_files_give_the_same_collection() {
    for text in [SAMPLE, LARGER, b"0\n0\n"] {
        let plain = EqClassCollection::from_path("run/aux_info/eq_classes.txt", text, weight)
            .unwrap();
        let packed =
            EqClassCollection::from_path("run/aux_info/eq_classes.txt.gz", &gzip(text), weight)
                .unwrap();
        assert_eq!(plain.targets, packed.targets);
        assert_eq!(plain.ntarget, packed.ntarget);
        assert_eq!(plain.neq, packed.neq);
        assert_eq!(records(&plain), records(&packed));
        assert_eq!(plain.classes.offsets, packed.classes.offsets);
    }
}

#[test]
fn gzip_file_is_decompressed() {
    let c = EqClassCollection::from_path("eq_classes.txt.gz", &gzip(SAMPLE), weight).unwrap();
    assert_eq!(c.targets, vec!["T1".to_string(), "T2".to_string()]);
    assert_eq!(records(&c), vec![(vec![0, 1], vec![0.4, 0.6], 10)]);
}

#[test]
fn gzip_and_plain_files_fail_alike() {
    for text in [&b"2\n1\nT1\n"[..], b"x\n", b"0\n1\n1 0\n", b""] {
        let plain = EqClassCollection::from_path("eq_classes.txt", text, weight).err();
        let packed = EqClassCollection::from_path("eq_classes.txt.gz", &gzip(text), weight).err();
        assert!(plain.is_some());
        assert_eq!(plain, packed);
    }
}

#[test]
fn file_that_is_no_gzip_stream_is_unreadable() {
    let r = EqClassCollection::from_path("eq_classes.txt.gz", SAMPLE, weight);
    assert_eq!(r.err(), Some(ParseFailure::IoFailure));
    let r = EqClassCollection::from_path("eq_classes.txt.gz", b"", weight);
    assert_eq!(r.err(), Some(ParseFailure::IoFailure));
    let mut cut = gzip(LARGER);
    cut.truncate(cut.len() - 5);
    let r = EqClassCollection::from_path("eq_classes.txt.gz", &cut, weight);
    assert_eq!(r.err(), Some(ParseFailure::IoFailure));
    let mut flipped = gzip(LARGER);
    let last = flipped.len() - 1;
    flipped[last] ^= 0xff;
    let r = EqClassCollection::from_path("eq_classes.txt.gz", &flipped, weight);
    assert_eq!(r.err(), Some(ParseFailure::IoFailure));
}

#[test]
fn compression_goes_by_the_name_alone() {
    let r = EqClassCollection::from_path("eq_classes.txt", &gzip(SAMPLE), weight);
    assert_eq!(r.err(), Some(ParseFailure::MalformedHeader));
    let r = EqClassCollection::from_path("other.gz", &gzip(SAMPLE), weight);
    assert_eq!(r.err(), Some(ParseFailure::MalformedHeader));
    let c = EqClassCollection::from_path("other.gz", SAMPLE, weight).unwrap();
    assert_eq!(c.neq, 1);
}

#[test]
fn only_the_first_gzip_member_is_read() {
    let mut two = gzip(SAMPLE);
    two.extend_from_slice(&gzip(b"garbage"));
    let c = EqClassCollection::from_path("eq_classes.txt.gz", &two, weight).unwrap();
    assert_eq!(records(&c), vec![(vec![0, 1], vec![0.4, 0.6], 10)]);
}

#[test]
fn failures_compare_and_print() {
    assert_eq!(ParseFailure::IoFailure, ParseFailure::IoFailure);
    assert_ne!(ParseFailure::TruncatedInput, ParseFailure::MalformedRecord);
    assert_eq!(format!("{:?}", ParseFailure::MalformedHeader), "MalformedHeader");
}
