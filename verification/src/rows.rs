use vstd::prelude::*;
use crate::points::Points;
use crate::text::{dec_digits, points_text, append_u32, points_string, u32_string};

verus! {

/// One row of the grading-scale view: a grade number with the point
/// band that earns the grade and the band's defining percentage share
/// (in hundredths of the maximum).
#[derive(Debug, Clone)]
pub struct GradingScaleTableRowData {
    pub grade: u8,
    pub min: Points,
    pub max: Points,
    pub pct: u32,
}

impl GradingScaleTableRowData {
    pub fn new(grade: u8, min: Points, max: Points, pct: u32) -> (r: GradingScaleTableRowData)
        ensures
            r.grade == grade,
            r.min == min,
            r.max == max,
            r.pct == pct,
    {
        GradingScaleTableRowData { grade, min, max, pct }
    }

    /// The row as display text: grade number, band minimum, band
    /// maximum, and the percentage followed by a percent sign.
    pub fn as_str_array(&self) -> (r: [String; 4])
        ensures
            r[0]@ == dec_digits(self.grade as nat),
            r[1]@ == points_text(self.min.halves()),
            r[2]@ == points_text(self.max.halves()),
            r[3]@ == dec_digits(self.pct as nat).push('%'),
    {
        let g = u32_string(self.grade as u32);
        let min = points_string(self.min);
        let max = points_string(self.max);
        let mut pct = u32_string(self.pct);
        pct.append("%");
        proof {
            reveal_strlit("%");
            assert(pct@ =~= dec_digits(self.pct as nat).push('%'));
        }
        [g, min, max, pct]
    }
}

/// One row of the exam-results view: a student with raw points, the
/// share of the maximum they reached (in hundredths), and the earned
/// grade's number (zero when no grade was earned).
#[derive(Debug, Clone)]
pub struct ExamResultTableRowData {
    pub name: String,
    pub points: Points,
    pub percentage: u32,
    pub grade: u8,
}

impl ExamResultTableRowData {
    pub fn new(name: &str, points: Points, percentage: u32, grade: u8) -> (r: ExamResultTableRowData)
        ensures
            r.name@ == name@,
            r.points == points,
            r.percentage == percentage,
            r.grade == grade,
    {
        ExamResultTableRowData { name: name.to_owned(), points, percentage, grade }
    }

    /// The row as display text: name, points, percentage (hundredths),
    /// and grade number.
    pub fn as_str_array(&self) -> (r: [String; 4])
        ensures
            r[0]@ == self.name@,
            r[1]@ == points_text(self.points.halves()),
            r[2]@ == dec_digits(self.percentage as nat),
            r[3]@ == dec_digits(self.grade as nat),
    {
        let name = self.name.clone();
        let points = points_string(self.points);
        let mut pct = String::new();
        append_u32(&mut pct, self.percentage);
        proof {
            assert(pct@ =~= dec_digits(self.percentage as nat));
        }
        let grade = u32_string(self.grade as u32);
        [name, points, pct, grade]
    }
}

} // verus!
