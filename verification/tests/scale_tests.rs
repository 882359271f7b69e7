use graca::points::Points;
use graca::scale::{Grade, GradeScaleType, GradingError, GradingScale, Share};

fn ihk_at(points: u32) -> GradingScale {
    GradingScale::from_type(GradeScaleType::IHK, Points::from_whole(points)).unwrap()
}

fn whole_thresholds(scale: &GradingScale) -> Vec<u32> {
    scale
        .thresholds()
        .iter()
        .map(|p| p.half_units() / 2)
        .collect()
}

#[test]
fn test_ihk_thresholds_at_100() {
    let scale = ihk_at(100);
    assert_eq!(whole_thresholds(&scale), vec![92, 81, 67, 50, 30, 0]);
}

#[test]
fn test_techniker_and_linear_thresholds_at_100() {
    let scale =
        GradingScale::from_type(GradeScaleType::TECHNIKER, Points::from_whole(100)).unwrap();
    assert_eq!(whole_thresholds(&scale), vec![85, 70, 55, 40, 20, 0]);
    let scale = GradingScale::from_type(GradeScaleType::LINEAR, Points::from_whole(100)).unwrap();
    assert_eq!(whole_thresholds(&scale), vec![87, 60, 47, 30, 17, 0]);
}

#[test]
fn test_standard_thresholds_non_increasing() {
    for kind in [
        GradeScaleType::IHK,
        GradeScaleType::TECHNIKER,
        GradeScaleType::LINEAR,
    ] {
        for max in [1u32, 7, 30, 100, 217] {
            let scale = GradingScale::from_type(kind.clone(), Points::from_whole(max)).unwrap();
            let t = whole_thresholds(&scale);
            for w in t.windows(2) {
                assert!(w[0] >= w[1], "{kind:?} at {max}: {t:?}");
            }
            assert_eq!(*t.last().unwrap(), 0);
        }
    }
}

#[test]
fn test_from_type_rejects_zero_points() {
    let r = GradingScale::from_type(GradeScaleType::IHK, Points::zero());
    match r {
        Err(GradingError::InvalidPoints(p)) => assert_eq!(p.half_units(), 0),
        _ => panic!("a zero maximum must be rejected"),
    }
}

#[test]
fn test_grade_for_points_boundaries() {
    let scale = ihk_at(100);
    assert_eq!(
        scale.grade_for_points(Points::from_whole(95)),
        Some(Grade::VeryGood)
    );
    // a point value equal to a threshold does not exceed it and falls
    // to the next worse grade
    assert_eq!(
        scale.grade_for_points(Points::from_whole(81)),
        Some(Grade::Satisfactory)
    );
    assert_eq!(
        scale.grade_for_points(Points::from_whole(92)),
        Some(Grade::Good)
    );
    assert_eq!(scale.grade_for_points(Points::from_whole(10)), Some(Grade::Fail));
    assert_eq!(scale.grade_for_points(Points::zero()), None);
}

#[test]
fn test_full_points_earn_best_grade() {
    for kind in [
        GradeScaleType::IHK,
        GradeScaleType::TECHNIKER,
        GradeScaleType::LINEAR,
    ] {
        for max in [7u32, 40, 100, 333] {
            let scale = GradingScale::from_type(kind.clone(), Points::from_whole(max)).unwrap();
            assert_eq!(
                scale.grade_for_points(Points::from_whole(max)),
                Some(Grade::VeryGood),
                "{kind:?} at {max}"
            );
        }
    }
    // half-point maxima earn the best grade down to the smallest:
    // rounding can never make the best threshold reach an odd maximum
    let scale =
        GradingScale::from_type(GradeScaleType::IHK, Points::from_halves(13)).unwrap();
    assert_eq!(
        scale.grade_for_points(Points::from_halves(13)),
        Some(Grade::VeryGood)
    );
    let scale =
        GradingScale::from_type(GradeScaleType::TECHNIKER, Points::from_whole(4)).unwrap();
    assert_eq!(
        scale.grade_for_points(Points::from_whole(4)),
        Some(Grade::VeryGood)
    );
}

#[test]
fn test_full_points_at_tiny_even_maxima() {
    // at six whole points the rounded IHK best threshold equals the
    // maximum, which therefore does not exceed it: full marks earn
    // only the second grade there
    let scale = GradingScale::from_type(GradeScaleType::IHK, Points::from_whole(6)).unwrap();
    assert_eq!(
        scale.grade_for_points(Points::from_whole(6)),
        Some(Grade::Good)
    );
}

#[test]
fn test_increment_threshold_converts_to_custom() {
    let mut scale = ihk_at(100);
    assert!(!scale.scale_type().is_custom());
    scale.increment_points_for_grade(Grade::Satisfactory).unwrap();
    assert!(scale.scale_type().is_custom());
    assert_eq!(whole_thresholds(&scale), vec![92, 81, 68, 50, 30, 0]);
}

#[test]
fn test_decrement_threshold_converts_to_custom() {
    let mut scale = ihk_at(100);
    scale.decrement_points_for_grade(Grade::Sufficient).unwrap();
    assert!(scale.scale_type().is_custom());
    assert_eq!(whole_thresholds(&scale), vec![92, 81, 67, 49, 30, 0]);
}

#[test]
fn test_half_point_steps() {
    let mut scale = ihk_at(100);
    scale.toggle_half_points();
    assert!(scale.is_using_half_points());
    // a half-point raise is rounded up to the next whole point
    scale.increment_points_for_grade(Grade::Satisfactory).unwrap();
    assert_eq!(whole_thresholds(&scale), vec![92, 81, 68, 50, 30, 0]);
    // a half-point cut rounds back up: the threshold stands
    scale.decrement_points_for_grade(Grade::Good).unwrap();
    assert_eq!(whole_thresholds(&scale), vec![92, 81, 68, 50, 30, 0]);
}

#[test]
fn test_decrement_saturates_at_zero() {
    let mut scale = ihk_at(100);
    scale.decrement_points_for_grade(Grade::Fail).unwrap();
    assert_eq!(whole_thresholds(&scale)[5], 0);
}

#[test]
fn test_threshold_edit_survives_recompute() {
    // a threshold edit rewrites the custom table's entry as an exact
    // share, so recomputing at the same maximum reproduces it
    let mut scale = ihk_at(100);
    scale.increment_points_for_grade(Grade::Satisfactory).unwrap();
    scale.set_total_points(Points::from_whole(100));
    assert_eq!(whole_thresholds(&scale), vec![92, 81, 68, 50, 30, 0]);
}

#[test]
fn test_threshold_edit_exact_above_100_points() {
    // the written-back share is exact even where whole hundredths
    // could not express it: one point in a thousand
    let mut scale = ihk_at(1000);
    assert_eq!(whole_thresholds(&scale), vec![920, 810, 670, 500, 300, 0]);
    scale.increment_points_for_grade(Grade::Sufficient).unwrap();
    assert_eq!(whole_thresholds(&scale)[3], 501);
    scale.recalculate();
    assert_eq!(whole_thresholds(&scale)[3], 501);
    scale.set_total_points(Points::from_whole(1000));
    assert_eq!(whole_thresholds(&scale)[3], 501);
    // at a doubled maximum the edited share scales with it
    scale.set_total_points(Points::from_whole(2000));
    assert_eq!(whole_thresholds(&scale)[3], 1002);
}

#[test]
fn test_toggle_half_points_keeps_edited_thresholds() {
    // toggling affects only display maxima, never the minimums —
    // manual edits included, at any maximum
    let mut scale = ihk_at(1000);
    scale.increment_points_for_grade(Grade::Sufficient).unwrap();
    assert_eq!(whole_thresholds(&scale), vec![920, 810, 670, 501, 300, 0]);
    scale.toggle_half_points();
    assert!(scale.is_using_half_points());
    assert_eq!(whole_thresholds(&scale), vec![920, 810, 670, 501, 300, 0]);
    // a second toggle restores the prior state
    scale.toggle_half_points();
    assert!(!scale.is_using_half_points());
    assert_eq!(whole_thresholds(&scale), vec![920, 810, 670, 501, 300, 0]);
}

#[test]
fn test_set_total_points_recomputes() {
    let mut scale = ihk_at(100);
    scale.set_total_points(Points::from_whole(50));
    assert_eq!(whole_thresholds(&scale), vec![46, 41, 34, 25, 15, 0]);
}

#[test]
fn test_percentage_for_points() {
    let pct = |p: u32, t: u32| {
        GradingScale::percentage_for_points(Points::from_whole(p), Points::from_whole(t))
    };
    assert_eq!(pct(50, 100), 50);
    assert_eq!(pct(67, 100), 67);
    assert_eq!(pct(1, 3), 33);
    assert_eq!(pct(2, 3), 67);
    assert_eq!(pct(0, 100), 0);
    assert_eq!(pct(100, 100), 100);
}

#[test]
fn test_percentage_round_trip() {
    for kind in [
        GradeScaleType::IHK,
        GradeScaleType::TECHNIKER,
        GradeScaleType::LINEAR,
    ] {
        for max in [34u32, 50, 100, 123] {
            let scale = GradingScale::from_type(kind.clone(), Points::from_whole(max)).unwrap();
            let table = kind.values();
            let total = scale.total_points();
            for (i, threshold) in scale.thresholds().iter().enumerate() {
                let pct = GradingScale::percentage_for_points(*threshold, total);
                let defined = table[i].1.num;
                let diff = if pct > defined { pct - defined } else { defined - pct };
                assert!(diff <= 1, "{kind:?} at {max}, grade {}: {pct} vs {defined}", i + 1);
            }
        }
    }
}

#[test]
fn test_percentage_round_trip_fails_below_the_bound() {
    // at thirty-three points the tolerance of one hundredth is
    // genuinely unreachable: IHK's fifty percent reproduces as
    // fifty-two
    let scale = GradingScale::from_type(GradeScaleType::IHK, Points::from_whole(33)).unwrap();
    let threshold = scale.threshold_for_grade(Grade::Sufficient);
    assert_eq!(threshold.half_units(), 34);
    let pct = GradingScale::percentage_for_points(threshold, scale.total_points());
    assert_eq!(pct, 52);
}

#[test]
fn test_to_custom_idempotent() {
    let ihk = GradeScaleType::IHK;
    let once = ihk.to_custom();
    let twice = once.to_custom();
    assert!(once.is_custom());
    assert!(twice.is_custom());
    assert_eq!(once.values(), twice.values());
    assert_eq!(once.values(), ihk.values());
}

#[test]
fn test_change_only_edits_custom() {
    let mut preset = GradeScaleType::IHK;
    preset.change(0, 50);
    assert_eq!(preset.values()[0].1, Share::hundredths(92));

    let mut custom = GradeScaleType::IHK.to_custom();
    custom.change(0, 50);
    assert_eq!(custom.values()[0].1, Share::hundredths(50));
    // the new value is clamped to one hundred percent
    custom.change(1, 150);
    assert_eq!(custom.values()[1].1, Share::hundredths(100));
    // an index outside the table is ignored
    custom.change(9, 10);
    assert_eq!(custom.values().len(), 6);
}

#[test]
fn test_scale_labels() {
    assert_eq!(GradeScaleType::IHK.text(), "IHK");
    assert_eq!(GradeScaleType::TECHNIKER.text(), "TECHNIKER");
    assert_eq!(GradeScaleType::LINEAR.text(), "LINEAR");
    assert_eq!(GradeScaleType::IHK.to_custom().text(), "CUSTOM");
    assert_eq!(GradeScaleType::IHK.key_binding(), "I");
    assert_eq!(GradeScaleType::TECHNIKER.key_binding(), "T");
    assert_eq!(GradeScaleType::LINEAR.key_binding(), "L");
    assert_eq!(GradeScaleType::LINEAR.to_custom().key_binding(), "C");
}

#[test]
fn test_grade_conversions() {
    assert_eq!(Grade::VeryGood.to_number(), 1);
    assert_eq!(Grade::Fail.to_number(), 6);
    assert_eq!(Grade::try_from(3).unwrap(), Grade::Satisfactory);
    assert!(Grade::try_from(0).is_err());
    assert!(Grade::try_from(7).is_err());
    assert_eq!(Grade::VeryGood.next_better(), None);
    assert_eq!(Grade::Fail.next_better(), Some(Grade::Poor));
    assert_eq!(Grade::Satisfactory.label(), "Satisfactory");
}

#[test]
fn test_display_rows() {
    let scale = ihk_at(100);
    let rows = scale.to_grading_scale_table_data();
    assert_eq!(rows.len(), 6);
    assert_eq!(rows[0].grade, 1);
    assert_eq!(rows[0].min.half_units(), 184);
    assert_eq!(rows[0].max.half_units(), 200);
    assert_eq!(rows[1].max.half_units(), 182); // 91 points
    assert_eq!(rows[0].pct, 92);
    assert_eq!(rows[5].min.half_units(), 0);
}

#[test]
fn test_display_rows_half_point_mode() {
    let mut scale = ihk_at(100);
    scale.toggle_half_points();
    let rows = scale.to_grading_scale_table_data();
    // the band below the best grade now ends half a point under it
    assert_eq!(rows[1].max.half_units(), 183); // 91.5 points
    let cells = rows[1].as_str_array();
    assert_eq!(cells[0], "2");
    assert_eq!(cells[1], "81");
    assert_eq!(cells[2], "91.5");
    assert_eq!(cells[3], "81%");
}
