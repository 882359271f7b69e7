use graca::points::Points;
use graca::scale::{Grade, GradeScaleType, GradingScale};
use graca::students::{LoadError, Student, StudentList};

fn roster() -> StudentList {
    StudentList::from_csv_text("class-a", "name,points\nAlice,100\nBob,81.5\nCara,10\n").unwrap()
}

#[test]
fn test_load_roster() {
    let list = roster();
    assert_eq!(list.class_name(), "class-a");
    let students = list.students();
    assert_eq!(students.len(), 3);
    assert_eq!(students[0].name, "Alice");
    assert_eq!(students[0].total().half_units(), 200);
    assert_eq!(students[1].name, "Bob");
    assert_eq!(students[1].total().half_units(), 163);
    assert_eq!(students[2].name, "Cara");
    assert_eq!(students[2].total().half_units(), 20);
}

#[test]
fn test_load_accepts_crlf_and_blank_lines() {
    let list = StudentList::from_csv_text("c", "name,points\r\nAlice,5\r\n\r\nBob,7\r\n").unwrap();
    assert_eq!(list.students().len(), 2);
    assert_eq!(list.students()[1].total().half_units(), 14);
}

#[test]
fn test_load_rounds_fractions_to_half_points() {
    let list = StudentList::from_csv_text("c", "name,points\nA,12.25\nB,12.24\nC,0.75\n").unwrap();
    assert_eq!(list.students()[0].total().half_units(), 25);
    assert_eq!(list.students()[1].total().half_units(), 24);
    assert_eq!(list.students()[2].total().half_units(), 2);
}

#[test]
fn test_load_malformed_rows() {
    assert!(matches!(
        StudentList::from_csv_text("c", "name,points\nAlice,abc\n"),
        Err(LoadError::Malformed)
    ));
    assert!(StudentList::from_csv_text("c", "name,points\nAlice\n").is_err());
    assert!(StudentList::from_csv_text("c", "name,points\nAlice,1.234\n").is_err());
    assert!(StudentList::from_csv_text("c", "").is_err());
    // the header line is required
    assert!(StudentList::from_csv_text("c", "Alice,3\n").is_err());
}

#[test]
fn test_save_roster() {
    let list = roster();
    assert_eq!(
        list.to_csv_text(),
        "name,points\nAlice,100\nBob,81.5\nCara,10\n"
    );
}

#[test]
fn test_save_then_load_round_trip() {
    let list = roster();
    let reloaded = StudentList::from_csv_text("class-a", list.to_csv_text().as_str()).unwrap();
    assert_eq!(reloaded.students().len(), 3);
    for (a, b) in list.students().iter().zip(reloaded.students().iter()) {
        assert_eq!(a.name, b.name);
        assert_eq!(a.total(), b.total());
    }
}

#[test]
fn test_adjust_student_points_blocked_above_max() {
    // one more point would pass the maximum: the points stay as they are
    let mut list = roster();
    let max = Points::from_whole(100);
    list.adjust_student_points("Alice", Points::from_whole(1), true, max);
    assert_eq!(list.get_student("Alice").unwrap().total().half_units(), 200);
}

#[test]
fn test_adjust_student_points() {
    let mut list = roster();
    let max = Points::from_whole(100);
    let step = Points::from_whole(1);
    list.adjust_student_points("Bob", step, true, max);
    assert_eq!(list.get_student("Bob").unwrap().total().half_units(), 165);
    list.adjust_student_points("Bob", step, false, max);
    assert_eq!(list.get_student("Bob").unwrap().total().half_units(), 163);
    // an unknown name changes nothing
    list.adjust_student_points("Nobody", step, true, max);
    assert_eq!(list.students().len(), 3);
    // a cut below zero is blocked
    list.adjust_student_points("Cara", Points::from_whole(20), false, max);
    assert_eq!(list.get_student("Cara").unwrap().total().half_units(), 20);
}

#[test]
fn test_student_grade_falls_back_to_worst() {
    let scale = GradingScale::from_type(GradeScaleType::IHK, Points::from_whole(100)).unwrap();
    let graded = Student::new("Zed").with_points(Points::from_whole(95));
    assert_eq!(graded.grade(&scale), Grade::VeryGood);
    let zero = Student::new("Nil");
    assert_eq!(zero.grade(&scale), Grade::Fail);
}

#[test]
fn test_get_student_finds_first_match() {
    let list =
        StudentList::from_csv_text("c", "name,points\nTwin,1\nTwin,2\n").unwrap();
    assert_eq!(list.get_student("Twin").unwrap().total().half_units(), 2);
    assert!(list.get_student("Other").is_none());
}
