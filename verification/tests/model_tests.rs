use graca::model::{Model, ModelAction};

fn whole_thresholds(model: &Model) -> Vec<u32> {
    model
        .scale
        .thresholds()
        .iter()
        .map(|p| p.half_units() / 2)
        .collect()
}

#[test]
fn test_model_defaults() {
    let model = Model::new();
    assert_eq!(model.scale.total_points().half_units(), 200);
    assert!(!model.scale.is_using_half_points());
    assert_eq!(whole_thresholds(&model), vec![92, 81, 67, 50, 30, 0]);
    assert_eq!(model.get_class_name(), "");
}

#[test]
fn test_increment_threshold_action() {
    let mut model = Model::new();
    model.update(ModelAction::IncrementThreshold(3));
    assert!(model.scale.scale_type().is_custom());
    assert_eq!(whole_thresholds(&model), vec![92, 81, 68, 50, 30, 0]);
    // a grade number outside the domain changes nothing
    model.update(ModelAction::IncrementThreshold(7));
    assert_eq!(whole_thresholds(&model), vec![92, 81, 68, 50, 30, 0]);
}

#[test]
fn test_set_max_points_action() {
    let mut model = Model::new();
    model.update(ModelAction::SetMaxPoints(50));
    assert_eq!(model.scale.total_points().half_units(), 100);
    assert_eq!(whole_thresholds(&model), vec![46, 41, 34, 25, 15, 0]);
    // a zero maximum is ignored
    model.update(ModelAction::SetMaxPoints(0));
    assert_eq!(model.scale.total_points().half_units(), 100);
}

#[test]
fn test_max_points_cap() {
    let mut model = Model::new();
    // the largest representable maximum is accepted
    model.update(ModelAction::SetMaxPoints(10_000_000));
    assert_eq!(model.scale.total_points().half_units(), 20_000_000);
    // one beyond it is ignored
    model.update(ModelAction::SetMaxPoints(10_000_001));
    assert_eq!(model.scale.total_points().half_units(), 20_000_000);
    // and stepping up from the cap is ignored too
    model.update(ModelAction::IncrementMaxPoints);
    assert_eq!(model.scale.total_points().half_units(), 20_000_000);
}

#[test]
fn test_max_points_stepping() {
    let mut model = Model::new();
    model.update(ModelAction::IncrementMaxPoints);
    assert_eq!(model.scale.total_points().half_units(), 202);
    model.update(ModelAction::DecrementMaxPoints);
    model.update(ModelAction::DecrementMaxPoints);
    assert_eq!(model.scale.total_points().half_units(), 198);
}

#[test]
fn test_set_scale_action() {
    let mut model = Model::new();
    model.update(ModelAction::SetScale(2));
    assert_eq!(model.scale.scale_type().text(), "TECHNIKER");
    assert_eq!(whole_thresholds(&model), vec![85, 70, 55, 40, 20, 0]);
    model.update(ModelAction::SetScale(4));
    assert!(model.scale.scale_type().is_custom());
    assert_eq!(whole_thresholds(&model), vec![85, 70, 55, 40, 20, 0]);
    // an unknown scale number changes nothing
    model.update(ModelAction::SetScale(9));
    assert!(model.scale.scale_type().is_custom());
}

#[test]
fn test_toggle_half_points_action() {
    let mut model = Model::new();
    model.update(ModelAction::ToggleHalfPoints);
    assert!(model.scale.is_using_half_points());
    model.update(ModelAction::ToggleHalfPoints);
    assert!(!model.scale.is_using_half_points());
}

fn model_with_students() -> Model {
    let mut model = Model::new();
    model
        .load_student_data("class-a", "name,points\nAda,95\nAmy,93\nBea,85\nFay,10\n")
        .unwrap();
    model
}

#[test]
fn test_load_student_data() {
    let model = model_with_students();
    assert_eq!(model.get_class_name(), "class-a");
    assert_eq!(model.student_list().students().len(), 4);
    let mut model = model;
    assert!(model.load_student_data("c", "nonsense").is_err());
    // a failed load leaves the roster as it was
    assert_eq!(model.student_list().students().len(), 4);
}

#[test]
fn test_student_point_actions() {
    let mut model = model_with_students();
    model.update(ModelAction::IncrementStudentPoints("Bea".to_string()));
    assert_eq!(
        model
            .student_list()
            .get_student("Bea")
            .unwrap()
            .total()
            .half_units(),
        172
    );
    // at the maximum an increment is blocked
    model.update(ModelAction::IncrementStudentPoints("Ada".to_string()));
    model.update(ModelAction::IncrementStudentPoints("Ada".to_string()));
    model.update(ModelAction::IncrementStudentPoints("Ada".to_string()));
    model.update(ModelAction::IncrementStudentPoints("Ada".to_string()));
    model.update(ModelAction::IncrementStudentPoints("Ada".to_string()));
    model.update(ModelAction::IncrementStudentPoints("Ada".to_string()));
    assert_eq!(
        model
            .student_list()
            .get_student("Ada")
            .unwrap()
            .total()
            .half_units(),
        200
    );
    // half-point mode moves by half a point
    model.update(ModelAction::ToggleHalfPoints);
    model.update(ModelAction::DecrementStudentPoints("Fay".to_string()));
    assert_eq!(
        model
            .student_list()
            .get_student("Fay")
            .unwrap()
            .total()
            .half_units(),
        19
    );
}

#[test]
fn test_get_student_data() {
    let model = model_with_students();
    let rows = model.get_student_data();
    assert_eq!(rows.len(), 4);
    assert_eq!(rows[0].name, "Ada");
    assert_eq!(rows[0].points.half_units(), 190);
    assert_eq!(rows[0].percentage, 95);
    assert_eq!(rows[0].grade, 1);
    assert_eq!(rows[3].grade, 6);
}

#[test]
fn test_get_scale_data() {
    let model = Model::new();
    let rows = model.get_scale_data();
    assert_eq!(rows.len(), 6);
    assert_eq!(rows[2].grade, 3);
    assert_eq!(rows[2].min.half_units(), 134);
    assert_eq!(rows[2].max.half_units(), 160); // 80 points, one under the next band
    assert_eq!(rows[2].pct, 67);
}

#[test]
fn test_grade_distribution() {
    let model = model_with_students();
    // 95 and 93 earn the best grade, 85 the second, 10 the worst
    assert_eq!(model.grade_distribution(), vec![2, 1, 0, 0, 0, 1]);
}

#[test]
fn test_grade_average() {
    let model = model_with_students();
    // (1*2 + 2*1 + 6*1) / 4 = 2.5, in hundredths
    assert_eq!(model.grade_average(), Some(250));
    let empty = Model::new();
    assert_eq!(empty.grade_average(), None);
}

#[test]
fn test_grades_shift_with_thresholds() {
    let mut model = model_with_students();
    // raising the best grade's threshold above 95 demotes Ada and Amy
    model.update(ModelAction::IncrementThreshold(1));
    model.update(ModelAction::IncrementThreshold(1));
    model.update(ModelAction::IncrementThreshold(1));
    model.update(ModelAction::IncrementThreshold(1));
    assert_eq!(whole_thresholds(&model)[0], 96);
    assert_eq!(model.grade_distribution(), vec![0, 3, 0, 0, 0, 1]);
    let rows = model.get_student_data();
    assert_eq!(rows[0].grade, 2);
}
