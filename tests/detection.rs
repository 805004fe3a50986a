use mangatra::detection::{decode_row, rows_from_tensor, DecodeError, Detector, RawDetection};
use mangatra::geometry::Rect;
use mangatra::nms::{non_max_suppression, Candidate};

fn fixed(v: f32) -> i64 {
    (v as f64 * 1_000_000.0).round() as i64
}

fn row(cx: f32, cy: f32, w: f32, h: f32, conf: f32, classes: &[f32]) -> RawDetection {
    RawDetection {
        cx: fixed(cx),
        cy: fixed(cy),
        w: fixed(w),
        h: fixed(h),
        object_conf: fixed(conf),
        class_scores: classes.iter().map(|c| fixed(*c)).collect(),
    }
}

fn rect(x: i32, y: i32, width: i32, height: i32) -> Rect {
    Rect { x, y, width, height }
}

#[test]
fn scenario_a_centre_row_decodes_to_box() {
    let r = row(320.0, 320.0, 100.0, 50.0, 0.9, &[0.9, 0.1]);
    let c = decode_row(&r, 640, 640).unwrap();
    assert_eq!(c.rect, rect(270, 295, 100, 50));
    assert_eq!(c.score, 900_000);

    let d = Detector::new(Some(0)).get_detections(&vec![r.clone()], 640, 640).unwrap();
    assert_eq!(d.boxes, vec![rect(270, 295, 100, 50)]);
    assert_eq!(d.origins, vec![(270, 295)]);
}

#[test]
fn boxes_scale_with_image_size() {
    let r = row(320.0, 320.0, 100.0, 50.0, 0.9, &[0.9, 0.1]);
    let c = decode_row(&r, 1280, 320).unwrap();
    assert_eq!(c.rect, rect(540, 147, 200, 25));
}

#[test]
fn low_confidence_rows_are_dropped() {
    assert!(decode_row(&row(320.0, 320.0, 100.0, 50.0, 0.39, &[0.9]), 640, 640).is_none());
    assert!(decode_row(&row(320.0, 320.0, 100.0, 50.0, 0.4, &[0.9]), 640, 640).is_some());
    assert!(decode_row(&row(320.0, 320.0, 100.0, 50.0, 0.9, &[0.25, 0.1]), 640, 640).is_none());
    assert!(decode_row(&row(320.0, 320.0, 100.0, 50.0, 0.9, &[0.1, 0.26]), 640, 640).is_some());
    assert!(decode_row(&row(320.0, 320.0, 100.0, 50.0, 0.9, &[]), 640, 640).is_none());
}

#[test]
fn decoded_boxes_all_pass_the_filters() {
    let rows = vec![
        row(100.0, 100.0, 40.0, 40.0, 0.3, &[0.9]),
        row(300.0, 300.0, 40.0, 40.0, 0.8, &[0.2]),
        row(500.0, 500.0, 40.0, 40.0, 0.8, &[0.7]),
    ];
    let d = Detector::new(Some(0)).get_detections(&rows, 640, 640).unwrap();
    assert_eq!(d.boxes, vec![rect(480, 480, 40, 40)]);
}

#[test]
fn overlapping_boxes_keep_the_higher_score() {
    let rows = vec![
        row(200.0, 200.0, 100.0, 100.0, 0.6, &[0.9]),
        row(205.0, 205.0, 100.0, 100.0, 0.9, &[0.9]),
        row(500.0, 500.0, 50.0, 50.0, 0.7, &[0.9]),
    ];
    let d = Detector::new(Some(0)).get_detections(&rows, 640, 640).unwrap();
    assert_eq!(d.boxes, vec![rect(155, 155, 100, 100), rect(475, 475, 50, 50)]);
}

#[test]
fn nms_twice_keeps_the_same_boxes() {
    let cands = vec![
        Candidate { rect: rect(0, 0, 10, 10), score: 500_000 },
        Candidate { rect: rect(1, 1, 10, 10), score: 600_000 },
        Candidate { rect: rect(50, 50, 10, 10), score: 600_000 },
        Candidate { rect: rect(5, 0, 10, 10), score: 400_000 },
        Candidate { rect: rect(100, 100, 10, 10), score: 200_000 },
    ];
    let kept = non_max_suppression(&cands);
    assert_eq!(kept, vec![1, 2, 3]);
    let again: Vec<Candidate> = kept.iter().map(|i| cands[*i]).collect();
    let kept2 = non_max_suppression(&again);
    assert_eq!(kept2, vec![0, 1, 2]);
}

#[test]
fn padding_applies_only_when_it_fits() {
    let inner = row(320.0, 320.0, 100.0, 50.0, 0.9, &[0.9]);
    let d = Detector::new(None).get_detections(&vec![inner], 640, 640).unwrap();
    assert_eq!(d.boxes, vec![rect(260, 285, 120, 70)]);
    assert_eq!(d.origins, vec![(260, 285)]);

    let edge = row(55.0, 320.0, 100.0, 50.0, 0.9, &[0.9]);
    let d = Detector::new(None).get_detections(&vec![edge], 640, 640).unwrap();
    assert_eq!(d.boxes, vec![rect(5, 295, 100, 50)]);

    // The padded box reaches the border exactly: (0, 0, 120, 70) is inside.
    let corner = row(60.0, 35.0, 100.0, 50.0, 0.9, &[0.9]);
    let d = Detector::new(None).get_detections(&vec![corner], 640, 640).unwrap();
    assert_eq!(d.boxes, vec![rect(0, 0, 120, 70)]);
    let far = row(580.0, 605.0, 100.0, 50.0, 0.9, &[0.9]);
    let d = Detector::new(None).get_detections(&vec![far], 640, 640).unwrap();
    assert_eq!(d.boxes, vec![rect(520, 570, 120, 70)]);
}

#[test]
fn box_outside_image_is_an_error() {
    let r = row(10.0, 320.0, 100.0, 50.0, 0.9, &[0.9]);
    let e = Detector::new(None).get_detections(&vec![r], 640, 640).unwrap_err();
    assert_eq!(e, DecodeError::BoxOutsideImage);
}

#[test]
fn no_detections_is_not_an_error() {
    let d = Detector::new(None).get_detections(&vec![], 640, 640).unwrap();
    assert!(d.boxes.is_empty());
    assert!(d.origins.is_empty());
}

#[test]
fn tensor_shape_is_checked() {
    let data = vec![0i64; 12];
    assert_eq!(rows_from_tensor(&data, 2, 6).unwrap().len(), 2);
    assert_eq!(rows_from_tensor(&data, 3, 6).unwrap_err(), DecodeError::ShapeMismatch);
    assert_eq!(rows_from_tensor(&data, 3, 4).unwrap_err(), DecodeError::ShapeMismatch);

    let flat = vec![1, 2, 3, 4, 5, 6, 7, 8, 9, 10, 11, 12, 13, 14];
    let rows = rows_from_tensor(&flat, 2, 7).unwrap();
    assert_eq!(rows[1].cx, 8);
    assert_eq!(rows[1].object_conf, 12);
    assert_eq!(rows[1].class_scores, vec![13, 14]);

    let d = Detector::new(None);
    assert_eq!(d.decode_tensor(&flat, 3, 7, 640, 640).unwrap_err(), DecodeError::ShapeMismatch);
}

#[test]
fn decode_tensor_runs_the_whole_decoder() {
    let flat = vec![
        fixed(320.0), fixed(320.0), fixed(100.0), fixed(50.0), fixed(0.9), fixed(0.9), fixed(0.1),
        fixed(320.0), fixed(320.0), fixed(100.0), fixed(50.0), fixed(0.1), fixed(0.9), fixed(0.1),
    ];
    let d = Detector::new(Some(0)).decode_tensor(&flat, 2, 7, 640, 640).unwrap();
    assert_eq!(d.boxes, vec![rect(270, 295, 100, 50)]);
}
