use vstd::prelude::*;

verus! {

/// A grade in its numeric form: `1` (best) through `6` (worst).
/// Values outside that range cannot be constructed.
#[derive(Debug, Clone, Copy, PartialEq, Eq, Structural, Hash)]
pub struct Grade(u8);

#[derive(Debug, Clone, Copy, PartialEq, Eq, Structural)]
pub enum GradeError {
    InvalidGrade(u8),
}

impl Grade {
    /// The numeric value held, as a mathematical integer.
    pub closed spec fn number(&self) -> int {
        self.0 as int
    }

    /// Every constructed grade lies in `1..=6`.
    pub open spec fn wf(&self) -> bool {
        1 <= self.number() <= 6
    }

    /// Accepts exactly the values `1..=6`.
    pub fn new(value: u8) -> (r: Result<Grade, GradeError>)
        ensures
            1 <= value <= 6 <==> r is Ok,
            r matches Ok(g) ==> g.number() == value && g.wf(),
            r matches Err(e) ==> e == GradeError::InvalidGrade(value),
    {
        if 1 <= value && value <= 6 {
            Ok(Grade(value))
        } else {
            Err(GradeError::InvalidGrade(value))
        }
    }

    pub fn value(self) -> (r: u8)
        ensures
            r == self.number(),
    {
        self.0
    }

    /// The next worse grade, or `None` for the worst.
    pub fn next_worse(self) -> (r: Option<Grade>)
        requires
            self.wf(),
        ensures
            self.number() < 6 ==> (r matches Some(g) && g.number() == self.number() + 1 && g.wf()),
            self.number() == 6 ==> r is None,
    {
        match Grade::new(self.0 + 1) {
            Ok(g) => Some(g),
            Err(_) => None,
        }
    }

    /// The next better grade, or `None` for the best.
    pub fn next_better(self) -> (r: Option<Grade>)
        requires
            self.wf(),
        ensures
            self.number() > 1 ==> (r matches Some(g) && g.number() == self.number() - 1 && g.wf()),
            self.number() == 1 ==> r is None,
    {
        match Grade::new(self.0 - 1) {
            Ok(g) => Some(g),
            Err(_) => None,
        }
    }
}

} // verus!
