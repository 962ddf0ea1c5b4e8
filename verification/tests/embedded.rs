use rvt_native::framing::{rows, GroupSource};

#[test]
fn validates_record_lengths_and_group_totals() {
    let source = GroupSource {
        content_key: Some([1; 16]),
        channel: 102,
        first_marker_offset: 0,
        segment_count: 1,
        declared_objects: 1,
        declared_body_bytes: 2,
    };
    let mut body = vec![0; 16];
    body[0] = 7;
    body[12] = 2;
    body.extend_from_slice(&[1, 2, 2, 0, 0, 0]);
    assert_eq!(rows(&body, &source).unwrap(), vec![(7, 0, 16, 18)]);
    body[18] = 3;
    assert!(rows(&body, &source).is_err());
    body[18] = 2;
    let mut wrong = source.clone();
    wrong.declared_objects = 2;
    assert!(rows(&body, &wrong).is_err());
    assert!(rows(&body[..19], &source).is_err());
}
