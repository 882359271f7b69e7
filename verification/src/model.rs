use vstd::prelude::*;
use crate::points::{Points, MAX_HALF_UNITS};
use crate::rows::{ExamResultTableRowData, GradingScaleTableRowData};
use crate::scale::{
    dec_target, derived_thresholds, inc_target, spec_grade_for_points, spec_pct, updated_with,
    Grade, GradeScaleType, GradingScale,
};
use crate::students::{adjusted, effective_grade, roster_rows, LoadError, Student, StudentList};

verus! {

/// An intent the user interface hands to the model; the model alone
/// decides what state change it causes.
#[derive(Debug, Clone, PartialEq, Eq)]
pub enum ModelAction {
    IncrementThreshold(u8),
    DecrementThreshold(u8),
    SetMaxPoints(u32),
    SetScale(usize),
    ToggleHalfPoints,
    IncrementMaxPoints,
    DecrementMaxPoints,
    IncrementStudentPoints(String),
    DecrementStudentPoints(String),
}

/// The in-memory model: the grading scale and the loaded roster.
#[derive(Debug, Clone)]
pub struct Model {
    pub scale: GradingScale,
    pub student_list: StudentList,
}

/// The step a student-point edit moves by: half a point in half-point
/// mode, else a whole point (in half-units).
pub open spec fn student_step(scale: GradingScale) -> int {
    if scale.spec_half() {
        1
    } else {
        2
    }
}

/// What one model action does.  Scale edits leave the roster alone and
/// student edits leave the scale alone; an intent whose argument is
/// out of range (a grade number outside `1..=6`, a maximum that is
/// zero or beyond the representable range, an unknown scale number)
/// changes nothing, since interactive input must never fail the
/// session.
pub open spec fn model_step(pre: Model, post: Model, action: ModelAction) -> bool {
    match action {
        ModelAction::IncrementThreshold(g) => if 1 <= g <= 6 {
            post.student_list == pre.student_list && updated_with(
                pre.scale,
                post.scale,
                g - 1,
                inc_target(pre.scale, g - 1),
            )
        } else {
            post == pre
        },
        ModelAction::DecrementThreshold(g) => if 1 <= g <= 6 {
            post.student_list == pre.student_list && updated_with(
                pre.scale,
                post.scale,
                g - 1,
                dec_target(pre.scale, g - 1),
            )
        } else {
            post == pre
        },
        ModelAction::SetMaxPoints(p) => if 1 <= p && 2 * p <= MAX_HALF_UNITS {
            post.student_list == pre.student_list && scale_retotaled(pre.scale, post.scale, 2 * p)
        } else {
            post == pre
        },
        ModelAction::SetScale(v) => if 1 <= v <= 4 {
            post.student_list == pre.student_list && scale_rekinded(pre.scale, post.scale, v as int)
        } else {
            post == pre
        },
        ModelAction::ToggleHalfPoints => post.student_list == pre.student_list
            && post.scale.spec_scale_type() == pre.scale.spec_scale_type()
            && post.scale.spec_total() == pre.scale.spec_total()
            && post.scale.spec_half() == !pre.scale.spec_half()
            && post.scale.spec_thresholds() == pre.scale.spec_thresholds()
            && post.scale.thresholds_derived(),
        ModelAction::IncrementMaxPoints => if pre.scale.spec_total() + 2 <= MAX_HALF_UNITS {
            post.student_list == pre.student_list && scale_retotaled(
                pre.scale,
                post.scale,
                pre.scale.spec_total() + 2,
            )
        } else {
            post == pre
        },
        ModelAction::DecrementMaxPoints => if pre.scale.spec_total() - 2 >= 1 {
            post.student_list == pre.student_list && scale_retotaled(
                pre.scale,
                post.scale,
                pre.scale.spec_total() - 2,
            )
        } else {
            post == pre
        },
        ModelAction::IncrementStudentPoints(name) => post.scale == pre.scale
            && post.student_list.course@ == pre.student_list.course@ && adjusted(
            pre.student_list.students@,
            post.student_list.students@,
            name@,
            student_step(pre.scale),
            true,
            pre.scale.spec_total(),
        ),
        ModelAction::DecrementStudentPoints(name) => post.scale == pre.scale
            && post.student_list.course@ == pre.student_list.course@ && adjusted(
            pre.student_list.students@,
            post.student_list.students@,
            name@,
            student_step(pre.scale),
            false,
            pre.scale.spec_total(),
        ),
    }
}

/// The scale with a new maximum and rederived thresholds, all else as
/// before.
pub open spec fn scale_retotaled(pre: GradingScale, post: GradingScale, total: int) -> bool {
    &&& post.spec_scale_type() == pre.spec_scale_type()
    &&& post.spec_half() == pre.spec_half()
    &&& post.spec_total() == total
    &&& post.thresholds_derived()
}

/// The scale re-kinded by number: the three presets, or a custom
/// snapshot of the current table, with rederived thresholds.
pub open spec fn scale_rekinded(pre: GradingScale, post: GradingScale, v: int) -> bool {
    &&& post.spec_total() == pre.spec_total()
    &&& post.spec_half() == pre.spec_half()
    &&& post.thresholds_derived()
    &&& (v == 1 ==> post.spec_scale_type() is IHK)
    &&& (v == 2 ==> post.spec_scale_type() is TECHNIKER)
    &&& (v == 3 ==> post.spec_scale_type() is LINEAR)
    &&& (v == 4 ==> post.spec_scale_type() is Custom && post.spec_scale_type().spec_values()
        == pre.spec_scale_type().spec_values())
}

/// The number of students in `students` whose effective grade under
/// `thresholds` has numeric form `k`.
pub open spec fn count_grade(students: Seq<Student>, thresholds: Seq<int>, k: int) -> int
    decreases students.len(),
{
    if students.len() == 0 {
        0
    } else {
        count_grade(students.drop_last(), thresholds, k) + if effective_grade(
            thresholds,
            students.last().points.halves(),
        ).spec_number() == k {
            1int
        } else {
            0int
        }
    }
}

/// The sum of the effective grade numbers of all students.
pub open spec fn grade_sum(students: Seq<Student>, thresholds: Seq<int>) -> int
    decreases students.len(),
{
    if students.len() == 0 {
        0
    } else {
        grade_sum(students.drop_last(), thresholds) + effective_grade(
            thresholds,
            students.last().points.halves(),
        ).spec_number()
    }
}

impl Model {
    pub open spec fn wf(&self) -> bool {
        self.scale.wf() && self.student_list.wf()
    }

    /// A fresh model: the IHK scale at one hundred points, an empty
    /// roster.
    pub fn new() -> (r: Model)
        ensures
            r.wf(),
            r.scale.spec_scale_type() is IHK,
            r.scale.spec_total() == 200,
            r.scale.spec_half() == false,
            r.scale.thresholds_derived(),
            r.student_list.students@.len() == 0,
    {
        let scale = match GradingScale::from_type(GradeScaleType::IHK, Points::from_whole(100)) {
            Ok(s) => s,
            Err(_) => vstd::pervasive::unreached(),
        };
        Model { scale, student_list: StudentList::new() }
    }

    /// Replaces the roster with one read from file text; the scale is
    /// untouched either way.
    pub fn load_student_data(&mut self, course: &str, text: &str) -> (r: Result<(), LoadError>)
        requires
            old(self).wf(),
        ensures
            final(self).wf(),
            final(self).scale == old(self).scale,
            match r {
                Ok(_) => (roster_rows(text@) matches Some(rows) && {
                    &&& final(self).student_list.course@ == course@
                    &&& final(self).student_list.students@.len() == rows.len()
                    &&& forall|i: int| 0 <= i < rows.len()
                        ==> (#[trigger] final(self).student_list.students@[i]).name@ == rows[i].0
                            && final(self).student_list.students@[i].points.halves() == rows[i].1
                }),
                Err(e) => roster_rows(text@) is None && e == LoadError::Malformed
                    && final(self).student_list == old(self).student_list,
            },
    {
        match StudentList::from_csv_text(course, text) {
            Ok(list) => {
                self.student_list = list;
                Ok(())
            }
            Err(e) => Err(e),
        }
    }

    /// The loaded roster.
    pub fn student_list(&self) -> (r: &StudentList)
        ensures
            r == &self.student_list,
    {
        &self.student_list
    }

    pub fn get_class_name(&self) -> (r: &str)
        ensures
            r@ == self.student_list.course@,
    {
        self.student_list.class_name()
    }

    /// Applies one user intent to the model.
    pub fn update(&mut self, action: ModelAction)
        requires
            old(self).wf(),
        ensures
            final(self).wf(),
            model_step(*old(self), *final(self), action),
    {
        match action {
            ModelAction::IncrementThreshold(g) => {
                match Grade::try_from(g) {
                    Ok(grade) => {
                        let _ = self.scale.increment_points_for_grade(grade);
                    }
                    Err(_) => {}
                }
            }
            ModelAction::DecrementThreshold(g) => {
                match Grade::try_from(g) {
                    Ok(grade) => {
                        let _ = self.scale.decrement_points_for_grade(grade);
                    }
                    Err(_) => {}
                }
            }
            ModelAction::SetMaxPoints(p) => {
                if 1 <= p && p <= MAX_HALF_UNITS / 2 {
                    self.scale.set_total_points(Points::from_whole(p));
                }
            }
            ModelAction::SetScale(v) => {
                if v == 1 {
                    self.scale.change_scale_type(GradeScaleType::IHK);
                } else if v == 2 {
                    self.scale.change_scale_type(GradeScaleType::TECHNIKER);
                } else if v == 3 {
                    self.scale.change_scale_type(GradeScaleType::LINEAR);
                } else if v == 4 {
                    let custom = self.scale.scale_type().to_custom();
                    self.scale.change_scale_type(custom);
                }
            }
            ModelAction::ToggleHalfPoints => {
                self.scale.toggle_half_points();
            }
            ModelAction::IncrementMaxPoints => {
                let total = self.scale.total_points().half_units();
                if total + 2 <= MAX_HALF_UNITS {
                    self.scale.set_total_points(Points::from_halves(total + 2));
                }
            }
            ModelAction::DecrementMaxPoints => {
                let total = self.scale.total_points().half_units();
                if total >= 3 {
                    self.scale.set_total_points(Points::from_halves(total - 2));
                }
            }
            ModelAction::IncrementStudentPoints(name) => {
                let step = if self.scale.is_using_half_points() {
                    Points::from_halves(1)
                } else {
                    Points::from_halves(2)
                };
                let max = self.scale.total_points();
                self.student_list.adjust_student_points(name.as_str(), step, true, max);
            }
            ModelAction::DecrementStudentPoints(name) => {
                let step = if self.scale.is_using_half_points() {
                    Points::from_halves(1)
                } else {
                    Points::from_halves(2)
                };
                let max = self.scale.total_points();
                self.student_list.adjust_student_points(name.as_str(), step, false, max);
            }
        }
    }

    /// The six display rows of the active scale.
    pub fn get_scale_data(&self) -> (r: Vec<GradingScaleTableRowData>)
        requires
            self.wf(),
        ensures
            r@.len() == 6,
            forall|i: int| 0 <= i < 6 ==> (#[trigger] r@[i]).grade == i + 1,
            forall|i: int| 0 <= i < 6 ==> (#[trigger] r@[i]).min.halves()
                == self.scale.spec_thresholds()[i],
            forall|i: int| 0 <= i < 6 ==> (#[trigger] r@[i]).max.halves() == self.scale.display_max(i),
            forall|i: int| 0 <= i < 6 ==> (#[trigger] r@[i]).pct == spec_pct(
                self.scale.spec_thresholds()[i],
                self.scale.spec_total(),
            ),
    {
        self.scale.to_grading_scale_table_data()
    }

    /// One display row per student: raw points, the share of the
    /// maximum, and the earned grade's number (zero when none).
    pub fn get_student_data(&self) -> (r: Vec<ExamResultTableRowData>)
        requires
            self.wf(),
        ensures
            r@.len() == self.student_list.students@.len(),
            forall|i: int| 0 <= i < r@.len() ==> {
                let s = self.student_list.students@[i];
                &&& (#[trigger] r@[i]).name@ == s.name@
                &&& r@[i].points == s.points
                &&& r@[i].percentage == spec_pct(s.points.halves(), self.scale.spec_total())
                &&& r@[i].grade == match spec_grade_for_points(
                    self.scale.spec_thresholds(),
                    s.points.halves(),
                ) {
                    Some(g) => g.spec_number(),
                    None => 0int,
                }
            },
    {
        let mut data: Vec<ExamResultTableRowData> = Vec::new();
        let students = self.student_list.students();
        let mut i: usize = 0;
        while i < students.len()
            invariant
                self.wf(),
                students == &self.student_list.students,
                i <= students@.len(),
                data@.len() == i,
                forall|j: int| 0 <= j < i ==> {
                    let s = self.student_list.students@[j];
                    &&& (#[trigger] data@[j]).name@ == s.name@
                    &&& data@[j].points == s.points
                    &&& data@[j].percentage == spec_pct(s.points.halves(), self.scale.spec_total())
                    &&& data@[j].grade == match spec_grade_for_points(
                        self.scale.spec_thresholds(),
                        s.points.halves(),
                    ) {
                        Some(g) => g.spec_number(),
                        None => 0int,
                    }
                },
            decreases students@.len() - i,
        {
            let student = &students[i];
            assert(student.points.bounded());
            let points = student.total();
            let pct = GradingScale::percentage_for_points(points, self.scale.total_points());
            let grade_number = match self.scale.grade_for_points(points) {
                Some(g) => g.to_number(),
                None => 0,
            };
            let row = ExamResultTableRowData::new(student.name.as_str(), points, pct, grade_number);
            data.push(row);
            i += 1;
        }
        data
    }

    /// How many students earned each grade: six counts, best grade
    /// first, with ungraded point values tallied under the worst
    /// grade.
    pub fn grade_distribution(&self) -> (r: Vec<usize>)
        requires
            self.wf(),
        ensures
            r@.len() == 6,
            forall|k: int| 0 <= k < 6 ==> #[trigger] r@[k] == count_grade(
                self.student_list.students@,
                self.scale.spec_thresholds(),
                k + 1,
            ),
    {
        let mut counts: Vec<usize> = vec![0, 0, 0, 0, 0, 0];
        let students = self.student_list.students();
        let mut i: usize = 0;
        while i < students.len()
            invariant
                self.wf(),
                students == &self.student_list.students,
                i <= students@.len(),
                counts@.len() == 6,
                forall|k: int| 0 <= k < 6 ==> #[trigger] counts@[k] == count_grade(
                    self.student_list.students@.take(i as int),
                    self.scale.spec_thresholds(),
                    k + 1,
                ),
                forall|k: int| 0 <= k < 6 ==> #[trigger] counts@[k] <= i,
            decreases students@.len() - i,
        {
            let student = &students[i];
            let grade = student.grade(&self.scale);
            let idx = (grade.to_number() - 1) as usize;
            let c = counts[idx];
            counts[idx] = c + 1;
            proof {
                let t = self.student_list.students@.take(i + 1);
                assert(t.drop_last() =~= self.student_list.students@.take(i as int));
                assert(t.last() == self.student_list.students@[i as int]);
            }
            i += 1;
        }
        proof {
            assert(self.student_list.students@.take(self.student_list.students@.len() as int)
                =~= self.student_list.students@);
        }
        counts
    }

    /// The weighted grade average over all students, in hundredths,
    /// rounded to the nearest hundredth; `None` for an empty roster,
    /// whose average is undefined.
    pub fn grade_average(&self) -> (r: Option<u32>)
        requires
            self.wf(),
        ensures
            ({
                let students = self.student_list.students@;
                let thresholds = self.scale.spec_thresholds();
                match r {
                    Some(v) => students.len() > 0 && v == (200 * grade_sum(students, thresholds)
                        + students.len()) / (2 * students.len() as int),
                    None => students.len() == 0,
                }
            }),
    {
        let students = self.student_list.students();
        let n = students.len();
        if n == 0 {
            return None;
        }
        let mut sum: u128 = 0;
        let mut i: usize = 0;
        while i < n
            invariant
                self.wf(),
                students == &self.student_list.students,
                n == students@.len(),
                i <= n,
                sum == grade_sum(self.student_list.students@.take(i as int), self.scale.spec_thresholds()),
                sum <= 6 * (i as u128),
            decreases n - i,
        {
            let student = &students[i];
            let grade = student.grade(&self.scale);
            sum = sum + grade.to_number() as u128;
            proof {
                let t = self.student_list.students@.take(i + 1);
                assert(t.drop_last() =~= self.student_list.students@.take(i as int));
                assert(t.last() == self.student_list.students@[i as int]);
            }
            i += 1;
        }
        proof {
            assert(self.student_list.students@.take(n as int) =~= self.student_list.students@);
        }
        let num: u128 = 200 * sum + (n as u128);
        let den: u128 = 2 * (n as u128);
        let avg = num / den;
        proof {
            lemma_average_fits(sum as int, n as int);
        }
        Some(avg as u32)
    }
}

/// A rounded grade average always fits the result type: grade numbers
/// are at most six, so the average is at most six hundred hundredths
/// and change.
proof fn lemma_average_fits(sum: int, n: int)
    requires
        n >= 1,
        0 <= sum <= 6 * n,
    ensures
        0 <= (200 * sum + n) / (2 * n) <= 601,
{
    let num = 200 * sum + n;
    let den = 2 * n;
    let u = num / den;
    vstd::arithmetic::div_mod::lemma_div_pos_is_pos(num, den);
    vstd::arithmetic::div_mod::lemma_fundamental_div_mod(num, den);
    assert(den * u <= num);
    assert(num <= 1200 * n + n);
    assert(den * u <= 1201 * n);
    assert(u <= 601) by (nonlinear_arith)
        requires
            (2 * n) * u <= 1201 * n,
            n >= 1,
    ;
}

} // verus!
