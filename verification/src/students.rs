use vstd::prelude::*;
use vstd::string::{StringExecFns, StrSliceExecFns};
use crate::points::{Points, MAX_HALF_UNITS};
use crate::scale::{Grade, GradingScale, spec_grade_for_points};
use crate::text::{
    find_char, find_in_region, lemma_find_char_at, lemma_find_char_missing,
    lemma_find_char_range, parse_points_region, points_halves_of, points_text, region_matches,
    str_eq,
};

verus! {

/// One student: a name and the raw points they reached.
#[derive(Debug, Clone)]
pub struct Student {
    pub name: String,
    pub points: Points,
}

impl Student {
    pub fn new(name: &str) -> (r: Student)
        ensures
            r.name@ == name@,
            r.points.halves() == 0,
    {
        Student { name: name.to_owned(), points: Points::zero() }
    }

    /// The student with their points replaced; a builder companion to
    /// [`Student::new`].
    pub fn with_points(self, points: Points) -> (r: Student)
        ensures
            r.name@ == self.name@,
            r.points == points,
    {
        let mut s = self;
        s.update_points(points);
        s
    }

    pub fn update_points(&mut self, new_value: Points)
        ensures
            final(self).name@ == old(self).name@,
            final(self).points == new_value,
    {
        self.points = new_value;
    }

    /// The total points reached.
    pub fn total(&self) -> (r: Points)
        ensures
            r == self.points,
    {
        self.points
    }

    /// The student's grade under a scale, falling back to the worst
    /// grade when the points earn none.
    pub fn grade(&self, scale: &GradingScale) -> (r: Grade)
        requires
            scale.wf(),
        ensures
            r == effective_grade(scale.spec_thresholds(), self.points.halves()),
    {
        match scale.grade_for_points(self.points) {
            Some(g) => g,
            None => Grade::Fail,
        }
    }
}

/// The grade a point value earns, with points below every threshold
/// falling back to the worst grade.
pub open spec fn effective_grade(thresholds: Seq<int>, points: int) -> Grade {
    match spec_grade_for_points(thresholds, points) {
        Some(g) => g,
        None => Grade::Fail,
    }
}

/// Whether a name can stand in a roster row: free of the comma and
/// the newline that delimit rows in the file format.  Every name a
/// loaded roster holds satisfies this, since it was read from inside
/// one row.
pub open spec fn name_ok(s: Seq<char>) -> bool {
    forall|k: int| 0 <= k < s.len() ==> s[k] != ',' && #[trigger] s[k] != '\n'
}

#[derive(Debug, Clone, Copy, PartialEq, Eq, Structural)]
pub enum LoadError {
    Malformed,
}

/// A line with a trailing carriage return removed, so that files with
/// either line ending are read alike.
pub open spec fn strip_cr(line: Seq<char>) -> Seq<char> {
    if line.len() > 0 && line.last() == '\r' {
        line.drop_last()
    } else {
        line
    }
}

/// The lines of a text, split at every newline; a trailing newline
/// ends the last line rather than opening an empty one.
pub open spec fn split_lines(text: Seq<char>) -> Seq<Seq<char>>
    decreases text.len(),
    via split_lines_decreases
{
    if text.len() == 0 {
        seq![]
    } else {
        let i = find_char(text, '\n');
        if i == -1 {
            seq![text]
        } else {
            seq![text.take(i)] + split_lines(text.skip(i + 1))
        }
    }
}

#[via_fn]
proof fn split_lines_decreases(text: Seq<char>) {
    if text.len() != 0 {
        lemma_find_char_range(text, '\n');
    }
}

/// The row a data line denotes: the name before the first comma and
/// the point value after it, or `None` for a line without a comma,
/// with a malformed point value, or with one beyond the representable
/// range.
pub open spec fn row_of_line(line: Seq<char>) -> Option<(Seq<char>, int)> {
    let l = strip_cr(line);
    let i = find_char(l, ',');
    if i == -1 {
        None
    } else {
        match points_halves_of(l.skip(i + 1)) {
            Some(h) => if h <= MAX_HALF_UNITS {
                Some((l.take(i), h))
            } else {
                None
            },
            None => None,
        }
    }
}

/// The rows the data lines denote, blank lines skipped; `None` as soon
/// as one line is malformed.
pub open spec fn rows_of_lines(lines: Seq<Seq<char>>) -> Option<Seq<(Seq<char>, int)>>
    decreases lines.len(),
{
    if lines.len() == 0 {
        Some(seq![])
    } else if strip_cr(lines[0]).len() == 0 {
        rows_of_lines(lines.skip(1))
    } else {
        match row_of_line(lines[0]) {
            Some(row) => match rows_of_lines(lines.skip(1)) {
                Some(rest) => Some(seq![row] + rest),
                None => None,
            },
            None => None,
        }
    }
}

/// The rows a roster file denotes: a `name,points` header line
/// followed by data lines; `None` for a missing header or a malformed
/// line.
pub open spec fn roster_rows(text: Seq<char>) -> Option<Seq<(Seq<char>, int)>> {
    let lines = split_lines(text);
    if lines.len() >= 1 && strip_cr(lines[0]) == "name,points"@ {
        rows_of_lines(lines.skip(1))
    } else {
        None
    }
}

/// The index of the first student with the given name, or `-1`.
pub open spec fn find_student(students: Seq<Student>, name: Seq<char>) -> int
    decreases students.len(),
{
    if students.len() == 0 {
        -1
    } else if students[0].name@ == name {
        0
    } else {
        let r = find_student(students.skip(1), name);
        if r == -1 {
            -1
        } else {
            r + 1
        }
    }
}

/// `find_student` returns the position of the first match.
proof fn lemma_find_student_at(students: Seq<Student>, name: Seq<char>, j: int)
    requires
        0 <= j < students.len(),
        students[j].name@ == name,
        forall|k: int| 0 <= k < j ==> (#[trigger] students[k]).name@ != name,
    ensures
        find_student(students, name) == j,
    decreases j,
{
    if j > 0 {
        lemma_find_student_at(students.skip(1), name, j - 1);
    }
}

/// `find_student` reports absence as `-1`.
proof fn lemma_find_student_missing(students: Seq<Student>, name: Seq<char>)
    requires
        forall|k: int| 0 <= k < students.len() ==> (#[trigger] students[k]).name@ != name,
    ensures
        find_student(students, name) == -1,
    decreases students.len(),
{
    if students.len() > 0 {
        lemma_find_student_missing(students.skip(1), name);
    }
}

/// The file line for one student row.
pub open spec fn row_text(name: Seq<char>, halves: int) -> Seq<char> {
    name + seq![','] + points_text(halves) + seq!['\n']
}

/// The file lines for a sequence of students, in order.
pub open spec fn rows_text(students: Seq<Student>) -> Seq<char>
    decreases students.len(),
{
    if students.len() == 0 {
        Seq::empty()
    } else {
        rows_text(students.drop_last()) + row_text(
            students.last().name@,
            students.last().points.halves(),
        )
    }
}

/// The whole file text a roster serializes to: the header line, then
/// one line per student.
pub open spec fn csv_text(l: StudentList) -> Seq<char> {
    "name,points\n"@ + rows_text(l.students@)
}

/// A newline-free prefix closed by a newline is split off as one line.
proof fn lemma_split_lines_prepend(x: Seq<char>, y: Seq<char>)
    requires
        forall|k: int| 0 <= k < x.len() ==> #[trigger] x[k] != '\n',
    ensures
        split_lines(x + seq!['\n'] + y) == seq![x] + split_lines(y),
{
    let s = x + seq!['\n'] + y;
    assert(s[x.len() as int] == '\n');
    assert forall|k: int| 0 <= k < x.len() implies s[k] != '\n' by {
        assert(s[k] == x[k]);
    }
    lemma_find_char_at(s, '\n', x.len() as int);
    assert(s.take(x.len() as int) =~= x);
    assert(s.skip(x.len() as int + 1) =~= y);
}

/// The file lines of a student sequence, peeled from the front: the
/// first student's row, then the rest's lines.
proof fn lemma_rows_text_first(students: Seq<Student>)
    requires
        students.len() >= 1,
    ensures
        rows_text(students) == row_text(students[0].name@, students[0].points.halves())
            + rows_text(students.skip(1)),
    decreases students.len(),
{
    if students.len() == 1 {
        assert(students.drop_last().len() == 0);
        assert(students.last() == students[0]);
        assert(students.skip(1).len() == 0);
        assert(rows_text(students) == rows_text(students.drop_last()) + row_text(
            students.last().name@,
            students.last().points.halves(),
        ));
        assert(rows_text(students.drop_last()) == Seq::<char>::empty());
        assert(rows_text(students.skip(1)) == Seq::<char>::empty());
        assert(rows_text(students) =~= row_text(students[0].name@, students[0].points.halves())
            + rows_text(students.skip(1)));
    } else {
        let d = students.drop_last();
        lemma_rows_text_first(d);
        assert(d[0] == students[0]);
        assert(students.skip(1).drop_last() =~= d.skip(1));
        assert(students.skip(1).last() == students.last());
        assert(rows_text(students.skip(1)) == rows_text(students.skip(1).drop_last()) + row_text(
            students.skip(1).last().name@,
            students.skip(1).last().points.halves(),
        ));
        assert(rows_text(students) =~= row_text(students[0].name@, students[0].points.halves())
            + rows_text(students.skip(1)));
    }
}

/// The data lines a student sequence serializes to read back as
/// exactly its rows.
proof fn lemma_rows_round_trip(students: Seq<Student>)
    requires
        forall|i: int| 0 <= i < students.len() ==> (#[trigger] students[i]).points.bounded()
            && name_ok(students[i].name@),
    ensures
        rows_of_lines(split_lines(rows_text(students))) matches Some(rows) && {
            &&& rows.len() == students.len()
            &&& forall|i: int| 0 <= i < students.len() ==> (#[trigger] rows[i]).0
                == students[i].name@ && rows[i].1 == students[i].points.halves()
        },
    decreases students.len(),
{
    if students.len() == 0 {
        assert(split_lines(rows_text(students)) =~= Seq::<Seq<char>>::empty());
    } else {
        let first = students[0];
        let rest = students.skip(1);
        let h = first.points.halves();
        let name = first.name@;
        let ptext = points_text(h);
        let x = name + seq![','] + ptext;
        lemma_rows_text_first(students);
        crate::text::lemma_points_text_shape(h);
        crate::text::lemma_points_text_round_trip(h);
        assert(rows_text(students) =~= x + seq!['\n'] + rows_text(rest));
        assert forall|k: int| 0 <= k < x.len() implies #[trigger] x[k] != '\n' by {
            if k < name.len() {
                assert(x[k] == name[k]);
            } else if k == name.len() {
                assert(x[k] == ',');
            } else {
                assert(x[k] == ptext[k - name.len() - 1]);
            }
        }
        lemma_split_lines_prepend(x, rows_text(rest));
        let lines = split_lines(rows_text(students));
        assert(lines == seq![x] + split_lines(rows_text(rest)));
        assert(lines[0] == x);
        assert(lines.skip(1) =~= split_lines(rows_text(rest)));
        // the line is kept whole: it ends in the point text, never in
        // a carriage return
        assert(x.last() == ptext.last());
        assert(strip_cr(x) == x);
        // its name is everything before the first comma
        assert(x[name.len() as int] == ',');
        assert forall|k: int| 0 <= k < name.len() implies x[k] != ',' by {
            assert(x[k] == name[k]);
        }
        lemma_find_char_at(x, ',', name.len() as int);
        assert(x.take(name.len() as int) =~= name);
        assert(x.skip(name.len() as int + 1) =~= ptext);
        assert(first.points.bounded());
        assert(row_of_line(x) == Some((name, h)));
        lemma_rows_round_trip(rest);
        let rest_rows = rows_of_lines(split_lines(rows_text(rest))).unwrap();
        let rows = rows_of_lines(lines).unwrap();
        assert(rows == seq![(name, h)] + rest_rows);
        assert forall|i: int| 0 <= i < students.len() implies (#[trigger] rows[i]).0
            == students[i].name@ && rows[i].1 == students[i].points.halves() by {
            if i > 0 {
                assert(rows[i] == rest_rows[i - 1]);
                assert(students[i] == rest[i - 1]);
            }
        }
    }
}

/// Round trip: the text a well-formed roster saves to reads back as
/// exactly its rows — the same names with the same points, in order.
/// This is why well-formed rosters keep commas and newlines out of
/// names: inside a row they would change where it splits.
pub proof fn lemma_save_load_round_trip(l: StudentList)
    requires
        l.wf(),
    ensures
        roster_rows(csv_text(l)) matches Some(rows) && {
            &&& rows.len() == l.students@.len()
            &&& forall|i: int| 0 <= i < rows.len() ==> (#[trigger] rows[i]).0
                == l.students@[i].name@ && rows[i].1 == l.students@[i].points.halves()
        },
{
    reveal_strlit("name,points\n");
    reveal_strlit("name,points");
    let header = "name,points"@;
    assert(header.len() == 11);
    assert(csv_text(l) =~= header + seq!['\n'] + rows_text(l.students@));
    assert forall|k: int| 0 <= k < header.len() implies #[trigger] header[k] != '\n' by {}
    lemma_split_lines_prepend(header, rows_text(l.students@));
    let lines = split_lines(csv_text(l));
    assert(lines == seq![header] + split_lines(rows_text(l.students@)));
    assert(lines[0] == header);
    assert(header.last() != '\r');
    assert(strip_cr(lines[0]) == header);
    assert(lines.skip(1) =~= split_lines(rows_text(l.students@)));
    lemma_rows_round_trip(l.students@);
}

/// Reads the student rows denoted by the text from position `pos` on.
#[verifier::rlimit(60)]
fn parse_students_from(text: &str, pos: usize) -> (r: Option<Vec<Student>>)
    requires
        pos <= text@.len(),
    ensures
        ({
            let rows_opt = rows_of_lines(split_lines(text@.skip(pos as int)));
            match r {
                Some(v) => (rows_opt matches Some(rows) && {
                    &&& v@.len() == rows.len()
                    &&& forall|i: int| 0 <= i < rows.len()
                        ==> (#[trigger] v@[i]).name@ == rows[i].0
                            && v@[i].points.halves() == rows[i].1
                            && v@[i].points.bounded()
                            && name_ok(v@[i].name@)
                }),
                None => rows_opt is None,
            }
        }),
    decreases text@.len() - pos,
{
    let len = text.unicode_len();
    if pos == len {
        proof {
            assert(text@.skip(pos as int) =~= Seq::<char>::empty());
        }
        return Some(Vec::new());
    }
    let ghost suffix = text@.skip(pos as int);
    let line_end = match find_in_region(text, pos, len, '\n') {
        Some(j) => j,
        None => len,
    };
    proof {
        if line_end < len {
            assert forall|k: int| 0 <= k < line_end - pos implies suffix[k] != '\n' by {
                assert(suffix[k] == text@[pos + k]);
            }
            lemma_find_char_at(suffix, '\n', line_end - pos);
        } else {
            assert forall|k: int| 0 <= k < suffix.len() implies suffix[k] != '\n' by {
                assert(suffix[k] == text@[pos + k]);
            }
            lemma_find_char_missing(suffix, '\n');
        }
    }
    let ghost lines = split_lines(suffix);
    let ghost line = suffix.take(line_end - pos);
    proof {
        if line_end < len {
            assert(lines == seq![line] + split_lines(suffix.skip(line_end - pos + 1)));
        } else {
            assert(line =~= suffix);
            assert(lines == seq![suffix]);
            assert(lines =~= seq![line] + Seq::<Seq<char>>::empty());
        }
        assert(lines[0] == line);
        assert(line =~= text@.subrange(pos as int, line_end as int));
    }
    let content_end = if line_end > pos && text.get_char(line_end - 1) == '\r' {
        line_end - 1
    } else {
        line_end
    };
    proof {
        assert(strip_cr(line) =~= text@.subrange(pos as int, content_end as int));
    }
    let next_pos = if line_end == len {
        len
    } else {
        line_end + 1
    };
    proof {
        if line_end < len {
            assert(suffix.skip(line_end - pos + 1) =~= text@.skip(next_pos as int));
            assert(lines.skip(1) =~= split_lines(text@.skip(next_pos as int)));
        } else {
            assert(text@.skip(next_pos as int) =~= Seq::<char>::empty());
            assert(lines.skip(1) =~= split_lines(text@.skip(next_pos as int)));
        }
    }
    if content_end == pos {
        // a blank line is skipped
        assert(strip_cr(lines[0]).len() == 0);
        return parse_students_from(text, next_pos);
    }
    let comma = match find_in_region(text, pos, content_end, ',') {
        Some(j) => j,
        None => {
            proof {
                let l = strip_cr(line);
                assert forall|k: int| 0 <= k < l.len() implies l[k] != ',' by {
                    assert(l[k] == text@[pos + k]);
                }
                lemma_find_char_missing(l, ',');
            }
            return None;
        }
    };
    let ghost l = strip_cr(line);
    proof {
        assert forall|k: int| 0 <= k < comma - pos implies l[k] != ',' by {
            assert(l[k] == text@[pos + k]);
        }
        assert(l[comma - pos] == text@[comma as int]);
        lemma_find_char_at(l, ',', comma - pos);
        assert(l.take(comma - pos) =~= text@.subrange(pos as int, comma as int));
        assert(l.skip(comma - pos + 1) =~= text@.subrange(comma + 1, content_end as int));
    }
    let name = text.substring_char(pos, comma).to_owned();
    let points = match parse_points_region(text, comma + 1, content_end) {
        Some(p) => p,
        None => {
            return None;
        }
    };
    let rest = match parse_students_from(text, next_pos) {
        Some(v) => v,
        None => {
            return None;
        }
    };
    let mut v: Vec<Student> = Vec::new();
    v.push(Student { name, points });
    let mut rest = rest;
    let ghost rest_view = rest@;
    v.append(&mut rest);
    proof {
        let rows = rows_of_lines(lines).unwrap();
        let rest_rows = rows_of_lines(lines.skip(1)).unwrap();
        assert(rows == seq![(l.take(comma - pos), points.halves() as int)] + rest_rows);
        assert(v@.len() == rows.len());
        // the head row's name lies before its comma and inside its
        // line, so it holds neither delimiter
        assert forall|k: int| 0 <= k < v@[0].name@.len() implies v@[0].name@[k] != ','
            && #[trigger] v@[0].name@[k] != '\n' by {
            assert(v@[0].name@[k] == text@[pos + k]);
        }
        assert(name_ok(v@[0].name@));
        assert forall|i: int| 0 <= i < rows.len() implies (#[trigger] v@[i]).name@ == rows[i].0
            && v@[i].points.halves() == rows[i].1 && v@[i].points.bounded()
            && name_ok(v@[i].name@) by {
            if i > 0 {
                assert(v@[i] == rest_view[i - 1]);
                assert(rows[i] == rest_rows[i - 1]);
            }
        }
    }
    Some(v)
}

/// What a per-student point adjustment leaves behind: nothing changes
/// when no student carries the name, or when the move would leave the
/// band from zero to `max`; otherwise exactly the first student with
/// the name has their points moved one step.
pub open spec fn adjusted(
    pre: Seq<Student>,
    post: Seq<Student>,
    name: Seq<char>,
    step: int,
    increase: bool,
    max: int,
) -> bool {
    let idx = find_student(pre, name);
    if idx == -1 {
        post == pre
    } else {
        let cur = pre[idx].points.halves();
        let target = if increase {
            cur + step
        } else {
            cur - step
        };
        if 0 <= target <= max {
            &&& post.len() == pre.len()
            &&& forall|k: int| 0 <= k < pre.len() && k != idx ==> #[trigger] post[k] == pre[k]
            &&& post[idx].name@ == pre[idx].name@
            &&& post[idx].points.halves() == target
        } else {
            post == pre
        }
    }
}

/// A class roster: the course name and its students in file order.
#[derive(Debug, Clone)]
pub struct StudentList {
    pub course: String,
    pub students: Vec<Student>,
}

impl StudentList {
    /// Well-formed rosters hold only representable point values and
    /// only names that fit a roster row, so that saving and loading
    /// round-trip.
    pub open spec fn wf(&self) -> bool {
        forall|i: int| 0 <= i < self.students@.len() ==> (#[trigger] self.students@[i]).points.bounded()
            && name_ok(self.students@[i].name@)
    }

    /// An empty roster with an empty course name.
    pub fn new() -> (r: StudentList)
        ensures
            r.course@ == Seq::<char>::empty(),
            r.students@.len() == 0,
            r.wf(),
    {
        StudentList { course: String::new(), students: Vec::new() }
    }

    /// The course (class) label of the roster.
    pub fn class_name(&self) -> (r: &str)
        ensures
            r@ == self.course@,
    {
        self.course.as_str()
    }

    /// The students, in the order the roster holds them.
    pub fn students(&self) -> (r: &Vec<Student>)
        ensures
            r == &self.students,
    {
        &self.students
    }

    /// The first student with the given name, if any.
    pub fn get_student(&self, name: &str) -> (r: Option<&Student>)
        ensures
            ({
                let idx = find_student(self.students@, name@);
                match r {
                    Some(s) => idx >= 0 && *s == self.students@[idx],
                    None => idx == -1,
                }
            }),
    {
        let mut i: usize = 0;
        while i < self.students.len()
            invariant
                i <= self.students@.len(),
                forall|k: int| 0 <= k < i ==> (#[trigger] self.students@[k]).name@ != name@,
            decreases self.students@.len() - i,
        {
            if str_eq(self.students[i].name.as_str(), name) {
                proof {
                    lemma_find_student_at(self.students@, name@, i as int);
                }
                return Some(&self.students[i]);
            }
            i += 1;
        }
        proof {
            lemma_find_student_missing(self.students@, name@);
        }
        None
    }

    /// Builds a roster from the text of a delimited file: a
    /// `name,points` header line, then one `name,points-value` line
    /// per student (the value in decimal with an optional half-point
    /// fraction), blank lines skipped.  The course label is taken from
    /// the caller, not from the file.  One malformed line fails the
    /// whole load.
    pub fn from_csv_text(course: &str, text: &str) -> (r: Result<StudentList, LoadError>)
        ensures
            match r {
                Ok(l) => (roster_rows(text@) matches Some(rows) && {
                    &&& l.course@ == course@
                    &&& l.wf()
                    &&& l.students@.len() == rows.len()
                    &&& forall|i: int| 0 <= i < rows.len()
                        ==> (#[trigger] l.students@[i]).name@ == rows[i].0
                            && l.students@[i].points.halves() == rows[i].1
                }),
                Err(e) => roster_rows(text@) is None && e == LoadError::Malformed,
            },
    {
        let len = text.unicode_len();
        if len == 0 {
            return Err(LoadError::Malformed);
        }
        let header_end = match find_in_region(text, 0, len, '\n') {
            Some(j) => j,
            None => len,
        };
        proof {
            if header_end < len {
                lemma_find_char_at(text@, '\n', header_end as int);
            } else {
                lemma_find_char_missing(text@, '\n');
            }
        }
        let content_end = if header_end > 0 && text.get_char(header_end - 1) == '\r' {
            header_end - 1
        } else {
            header_end
        };
        let ghost lines = split_lines(text@);
        proof {
            if header_end < len {
                assert(lines == seq![text@.take(header_end as int)] + split_lines(
                    text@.skip(header_end + 1),
                ));
            } else {
                assert(lines == seq![text@]);
                assert(text@.take(header_end as int) =~= text@);
            }
            assert(lines[0] =~= text@.take(header_end as int));
            assert(strip_cr(lines[0]) =~= text@.subrange(0, content_end as int));
        }
        if !region_matches(text, 0, content_end, "name,points") {
            return Err(LoadError::Malformed);
        }
        let start = if header_end == len {
            len
        } else {
            header_end + 1
        };
        proof {
            if header_end < len {
                assert(lines.skip(1) =~= split_lines(text@.skip(start as int)));
            } else {
                assert(text@.skip(start as int) =~= Seq::<char>::empty());
                assert(lines.skip(1) =~= split_lines(text@.skip(start as int)));
            }
        }
        match parse_students_from(text, start) {
            Some(students) => Ok(StudentList { course: course.to_owned(), students }),
            None => Err(LoadError::Malformed),
        }
    }

    /// The roster as the text of a delimited file, in the shape
    /// [`StudentList::from_csv_text`] reads: the header line, then one
    /// line per student.  Well-formedness is required because a name
    /// holding a comma or newline could not stand unescaped in a row;
    /// every loaded roster satisfies it.
    pub fn to_csv_text(&self) -> (r: String)
        requires
            self.wf(),
        ensures
            r@ == csv_text(*self),
    {
        let mut out = String::from_str("name,points\n");
        let mut i: usize = 0;
        while i < self.students.len()
            invariant
                i <= self.students@.len(),
                out@ == "name,points\n"@ + rows_text(self.students@.take(i as int)),
            decreases self.students@.len() - i,
        {
            out.append(self.students[i].name.as_str());
            out.append(",");
            crate::text::append_points(&mut out, self.students[i].points);
            out.append("\n");
            proof {
                reveal_strlit(",");
                reveal_strlit("\n");
                let t = self.students@.take(i + 1);
                assert(t.drop_last() =~= self.students@.take(i as int));
                assert(t.last() == self.students@[i as int]);
                assert(","@ =~= seq![',']);
                assert("\n"@ =~= seq!['\n']);
                assert(out@ =~= "name,points\n"@ + rows_text(t));
            }
            i += 1;
        }
        proof {
            assert(self.students@.take(self.students@.len() as int) =~= self.students@);
        }
        out
    }

    /// Moves the points of the named student one step up or down,
    /// leaving them untouched when no student carries the name (an
    /// interactive edit on a stale selection must not fail) or when the
    /// move would leave the band from zero to `max`.
    pub fn adjust_student_points(&mut self, name: &str, step: Points, increase: bool, max: Points)
        requires
            old(self).wf(),
            step.bounded(),
            max.bounded(),
        ensures
            final(self).wf(),
            final(self).course@ == old(self).course@,
            adjusted(
                old(self).students@,
                final(self).students@,
                name@,
                step.halves(),
                increase,
                max.halves(),
            ),
    {
        let mut i: usize = 0;
        while i < self.students.len()
            invariant
                old(self).wf(),
                self == old(self),
                step.bounded(),
                max.bounded(),
                i <= self.students@.len(),
                forall|k: int| 0 <= k < i ==> (#[trigger] self.students@[k]).name@ != name@,
            decreases self.students@.len() - i,
        {
            if str_eq(self.students[i].name.as_str(), name) {
                proof {
                    lemma_find_student_at(self.students@, name@, i as int);
                }
                let cur = self.students[i].points.half_units();
                assert(self.students@[i as int].points.bounded());
                assert(cur <= MAX_HALF_UNITS);
                let step_h = step.half_units();
                assert(step_h <= MAX_HALF_UNITS);
                if increase {
                    let target = cur + step_h;
                    if target <= max.half_units() {
                        self.students[i].points = Points::from_halves(target);
                    }
                } else {
                    if cur >= step_h && cur - step_h <= max.half_units() {
                        self.students[i].points = Points::from_halves(cur - step_h);
                    }
                }
                return;
            }
            i += 1;
        }
        proof {
            lemma_find_student_missing(self.students@, name@);
        }
    }
}

} // verus!
