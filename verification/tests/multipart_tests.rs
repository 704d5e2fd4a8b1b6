use crabdrop::multipart::part_span;
use crabdrop::multipart::total_parts;
use crabdrop::multipart::MultipartUpload;
use crabdrop::multipart::PartSpan;
use crabdrop::multipart::UploadStep;
use crabdrop::multipart::MAX_IN_FLIGHT;
use crabdrop::multipart::PART_SIZE;

const MIB: u64 = 1024 * 1024;

#[test]
fn part_constants() {
    assert_eq!(PART_SIZE, 50 * MIB);
    assert_eq!(MAX_IN_FLIGHT, 6);
}

#[test]
fn number_of_parts() {
    assert_eq!(total_parts(0), 0);
    assert_eq!(total_parts(1), 1);
    assert_eq!(total_parts(50 * MIB - 1), 1);
    assert_eq!(total_parts(50 * MIB), 1);
    assert_eq!(total_parts(50 * MIB + 1), 2);
    assert_eq!(total_parts(100 * MIB), 2);
    assert_eq!(total_parts(150 * MIB), 3);
    assert_eq!(total_parts(150 * MIB + 1), 4);
    assert_eq!(total_parts(u64::MAX), u64::MAX / PART_SIZE + 1);
}

#[test]
fn spans_of_a_file() {
    let size = 120 * MIB;
    assert_eq!(part_span(size, 0), None);
    assert_eq!(part_span(size, 1), Some(PartSpan { part_number: 1, offset: 0, len: 50 * MIB }));
    assert_eq!(part_span(size, 2), Some(PartSpan { part_number: 2, offset: 50 * MIB, len: 50 * MIB }));
    assert_eq!(part_span(size, 3), Some(PartSpan { part_number: 3, offset: 100 * MIB, len: 20 * MIB }));
    assert_eq!(part_span(size, 4), None);
    assert_eq!(part_span(0, 1), None);
    assert_eq!(part_span(1, 1), Some(PartSpan { part_number: 1, offset: 0, len: 1 }));
}

#[test]
fn spans_tile_the_file() {
    for size in [1u64, 50 * MIB, 50 * MIB + 1, 333 * MIB + 12345] {
        let count = total_parts(size);
        let mut offset = 0;
        for number in 1..=count {
            let span = part_span(size, number).unwrap();
            assert_eq!(span.offset, offset);
            assert!(span.len >= 1 && span.len <= PART_SIZE);
            if number < count {
                assert_eq!(span.len, PART_SIZE);
            }
            offset += span.len;
        }
        assert_eq!(offset, size);
    }
}

#[test]
fn upload_of_150_mib_has_three_parts() {
    let mut upload = MultipartUpload::new(150 * MIB);
    assert_eq!(upload.total_parts(), 3);
    let mut spans = Vec::new();
    loop {
        match upload.next_step() {
            UploadStep::Dispatch(span) => spans.push(span),
            UploadStep::Wait => break,
            other => panic!("unexpected step {:?}", other),
        }
    }
    assert_eq!(
        spans,
        vec![
            PartSpan { part_number: 1, offset: 0, len: 50 * MIB },
            PartSpan { part_number: 2, offset: 50 * MIB, len: 50 * MIB },
            PartSpan { part_number: 3, offset: 100 * MIB, len: 50 * MIB },
        ]
    );
    upload.part_done(3, "etag-3".to_string());
    assert_eq!(upload.next_step(), UploadStep::Wait);
    upload.part_done(1, "etag-1".to_string());
    upload.part_done(2, "etag-2".to_string());
    assert_eq!(upload.next_step(), UploadStep::Complete);
    let parts = upload.into_parts().unwrap();
    assert_eq!(parts.len(), 3);
    for (i, part) in parts.iter().enumerate() {
        assert_eq!(part.part_number, i as u64 + 1);
        assert_eq!(part.etag, format!("etag-{}", i + 1));
    }
}

#[test]
fn at_most_six_parts_are_on_their_way() {
    let mut upload = MultipartUpload::new(10 * PART_SIZE);
    let mut in_flight = Vec::new();
    for expected in 1..=6u64 {
        match upload.next_step() {
            UploadStep::Dispatch(span) => {
                assert_eq!(span.part_number, expected);
                in_flight.push(span.part_number);
            }
            other => panic!("unexpected step {:?}", other),
        }
    }
    assert_eq!(upload.next_step(), UploadStep::Wait);
    assert_eq!(upload.next_step(), UploadStep::Wait);
    upload.part_done(4, "t4".to_string());
    match upload.next_step() {
        UploadStep::Dispatch(span) => assert_eq!(span.part_number, 7),
        other => panic!("unexpected step {:?}", other),
    }
    assert_eq!(upload.next_step(), UploadStep::Wait);
    assert!(upload.into_parts().is_none());
}

#[test]
fn parts_come_out_in_order_whatever_the_order_of_completion() {
    let mut upload = MultipartUpload::new(8 * PART_SIZE + 1);
    let mut pending: Vec<u64> = Vec::new();
    let mut round = 0u64;
    loop {
        match upload.next_step() {
            UploadStep::Dispatch(span) => pending.push(span.part_number),
            UploadStep::Wait => {
                round += 1;
                let pick = (round * 7 % pending.len() as u64) as usize;
                let number = pending.remove(pick);
                upload.part_done(number, format!("tag{}", number));
            }
            UploadStep::Complete => break,
            UploadStep::Abort => panic!("nothing failed"),
        }
        assert!(pending.len() <= MAX_IN_FLIGHT);
    }
    let parts = upload.into_parts().unwrap();
    assert_eq!(parts.len(), 9);
    for (i, part) in parts.iter().enumerate() {
        assert_eq!(part.part_number, i as u64 + 1);
        assert_eq!(part.etag, format!("tag{}", i + 1));
    }
}

#[test]
fn failure_aborts() {
    let mut upload = MultipartUpload::new(3 * PART_SIZE);
    assert!(matches!(upload.next_step(), UploadStep::Dispatch(_)));
    upload.part_failed();
    assert_eq!(upload.next_step(), UploadStep::Abort);
    assert_eq!(upload.next_step(), UploadStep::Abort);
    assert!(upload.into_parts().is_none());
}

#[test]
fn unknown_or_repeated_report_counts_as_failure() {
    let mut upload = MultipartUpload::new(3 * PART_SIZE);
    assert!(matches!(upload.next_step(), UploadStep::Dispatch(_)));
    upload.part_done(2, "x".to_string());
    assert_eq!(upload.next_step(), UploadStep::Abort);

    let mut upload = MultipartUpload::new(3 * PART_SIZE);
    assert!(matches!(upload.next_step(), UploadStep::Dispatch(_)));
    upload.part_done(1, "x".to_string());
    upload.part_done(1, "y".to_string());
    assert_eq!(upload.next_step(), UploadStep::Abort);

    let mut upload = MultipartUpload::new(3 * PART_SIZE);
    upload.part_done(0, "x".to_string());
    assert_eq!(upload.next_step(), UploadStep::Abort);
}

#[test]
fn empty_file_completes_at_once_without_parts() {
    let mut upload = MultipartUpload::new(0);
    assert_eq!(upload.total_parts(), 0);
    assert_eq!(upload.next_step(), UploadStep::Complete);
    assert_eq!(upload.into_parts().unwrap().len(), 0);
}

#[test]
fn upload_is_not_complete_before_the_last_part() {
    let mut upload = MultipartUpload::new(2 * PART_SIZE);
    assert!(matches!(upload.next_step(), UploadStep::Dispatch(_)));
    upload.part_done(1, "a".to_string());
    assert!(MultipartUpload::new(2 * PART_SIZE).into_parts().is_none());
    assert!(matches!(upload.next_step(), UploadStep::Dispatch(_)));
    assert_eq!(upload.next_step(), UploadStep::Wait);
    upload.part_done(2, "b".to_string());
    assert_eq!(upload.next_step(), UploadStep::Complete);
    assert_eq!(upload.into_parts().unwrap().len(), 2);
}
