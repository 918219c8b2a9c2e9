//! Enrolling students in courses.

use crate::course::{Course, CourseError};
use crate::course_management::{do_insert_course, lemma_registry_sound, outcome, CourseRegistry};
use vstd::prelude::*;

verus! {

impl CourseRegistry {
    /// Enrolls one more student in the course `course_id` and answers with
    /// the course as it then is. A course that is not there is refused with
    /// `NotFound`, one without a place left with `CapacityExceeded`; either
    /// way nothing changes.
    pub fn enroll_student(&mut self, course_id: u64) -> (enrolled: Result<Course, CourseError>)
        ensures
            final(self)@ == old(self)@.enroll(course_id).0,
            outcome(enrolled) == old(self)@.enroll(course_id).1,
            enrolled matches Ok(course) ==> course@.enrolled_students <= course@.capacity,
            enrolled is Err ==> final(self)@ == old(self)@,
    {
        proof {
            lemma_registry_sound(*self);
        }
        let course = match self.find_course(course_id) {
            Some(course) => course,
            None => { return Err(CourseError::NotFound); },
        };
        let updated = match course.enroll() {
            Some(updated) => updated,
            None => { return Err(CourseError::CapacityExceeded); },
        };
        do_insert_course(self, &updated);
        Ok(updated)
    }
}

} // verus!
