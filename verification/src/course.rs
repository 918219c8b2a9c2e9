//! The course record: what it holds, when it is valid, and how it is laid
//! out in a stored record.

use crate::store::MAX_RECORD_SIZE;
use crate::wire::{
    frame, framed, lemma_take_frame, lemma_take_text, lemma_take_u64, put_text, put_u64,
    read_frame, read_text, read_u64, take_frame, take_text, take_u64, text_bytes, u64_bytes,
};
use vstd::prelude::*;
use vstd::string::*;
use vstd::utf8::*;

verus! {

/// A course as a mathematical value.
pub struct CourseView {
    pub id: u64,
    pub name: Seq<char>,
    pub instructor: Seq<char>,
    pub capacity: u64,
    pub enrolled_students: u64,
}

/// Why a course cannot be created from what the caller gave.
#[derive(Clone, Copy, Debug, PartialEq, Eq, Structural)]
pub enum Fault {
    /// The name is empty.
    EmptyName,
    /// The instructor is empty.
    EmptyInstructor,
    /// The capacity is zero.
    ZeroCapacity,
    /// Name and instructor together are too long for one stored record.
    RecordTooLarge,
}

/// Why an operation on courses failed.
#[derive(Clone, Copy, Debug, PartialEq, Eq, Structural)]
pub enum CourseError {
    /// The course asked for is malformed.
    ValidationError(Fault),
    /// No course has the identifier.
    NotFound,
    /// Every place of the course is taken.
    CapacityExceeded,
    /// The counter has no identifier left to give to a new course.
    IdsExhausted,
}

/// The first fault of a course with this name, instructor and capacity, if
/// it has one.
pub open spec fn course_fault(name: Seq<char>, instructor: Seq<char>, capacity: u64) -> Option<
    Fault,
> {
    if name.len() == 0 {
        Some(Fault::EmptyName)
    } else if instructor.len() == 0 {
        Some(Fault::EmptyInstructor)
    } else if capacity == 0 {
        Some(Fault::ZeroCapacity)
    } else if course_size(name, instructor) > MAX_RECORD_SIZE {
        Some(Fault::RecordTooLarge)
    } else {
        None
    }
}

/// The number of bytes that the stored record of a course takes besides the
/// bytes of its name and instructor: the frame, three integers and the
/// lengths of the two texts.
pub const COURSE_FIXED_SIZE: usize = 36;

/// The number of bytes in the stored record of a course with this name and
/// instructor.
pub open spec fn course_size(name: Seq<char>, instructor: Seq<char>) -> nat {
    COURSE_FIXED_SIZE as nat + encode_utf8(name).len() + encode_utf8(instructor).len()
}

impl CourseView {
    /// The data model's demands on a course: it has a name, an instructor
    /// and a capacity, holds no more students than its capacity, and fits
    /// in one stored record.
    pub open spec fn valid(self) -> bool {
        &&& course_fault(self.name, self.instructor, self.capacity) is None
        &&& self.enrolled_students <= self.capacity
    }

    /// A place is left.
    pub open spec fn has_room(self) -> bool {
        self.enrolled_students < self.capacity
    }

    /// The course with one more student enrolled.
    pub open spec fn enrolled(self) -> CourseView {
        CourseView { enrolled_students: (self.enrolled_students + 1) as u64, ..self }
    }

    /// The body of the course's stored record.
    pub open spec fn body(self) -> Seq<u8> {
        u64_bytes(self.id) + text_bytes(self.name) + text_bytes(self.instructor) + u64_bytes(
            self.capacity,
        ) + u64_bytes(self.enrolled_students)
    }

    /// The course's stored record.
    pub open spec fn bytes(self) -> Seq<u8> {
        framed(self.body())
    }
}

/// The course that a stored record holds, if it holds one: the record must
/// be laid out as [`CourseView::bytes`] lays it out, with nothing left over,
/// and the course must be valid.
pub open spec fn parse_course(bytes: Seq<u8>) -> Option<CourseView> {
    match take_frame(bytes) {
        Some(body) => match take_u64(body) {
            Some((id, rest)) => match take_text(rest) {
                Some((name, rest)) => match take_text(rest) {
                    Some((instructor, rest)) => match take_u64(rest) {
                        Some((capacity, rest)) => match take_u64(rest) {
                            Some((enrolled_students, rest)) => {
                                let course = CourseView {
                                    id,
                                    name,
                                    instructor,
                                    capacity,
                                    enrolled_students,
                                };
                                if rest.len() == 0 && course.valid() {
                                    Some(course)
                                } else {
                                    None
                                }
                            },
                            None => None,
                        },
                        None => None,
                    },
                    None => None,
                },
                None => None,
            },
            None => None,
        },
        None => None,
    }
}

/// A course. Every value of this type is valid.
#[derive(Debug)]
pub struct Course {
    id: u64,
    name: String,
    instructor: String,
    capacity: u64,
    enrolled_students: u64,
}

impl View for Course {
    type V = CourseView;

    closed spec fn view(&self) -> CourseView {
        CourseView {
            id: self.id,
            name: self.name@,
            instructor: self.instructor@,
            capacity: self.capacity,
            enrolled_students: self.enrolled_students,
        }
    }
}

impl Clone for Course {
    fn clone(&self) -> (copy: Self)
        ensures
            copy@ == self@,
    {
        proof {
            use_type_invariant(self);
        }
        Course {
            id: self.id,
            name: self.name.clone(),
            instructor: self.instructor.clone(),
            capacity: self.capacity,
            enrolled_students: self.enrolled_students,
        }
    }
}

impl Course {
    #[verifier::type_invariant]
    pub open spec fn well_formed(self) -> bool {
        self@.valid()
    }

    /// A course without students, unless name, instructor and capacity have
    /// a fault.
    pub fn new(
        id: u64,
        name: String,
        instructor: String,
        capacity: u64,
    ) -> (made: Result<Course, Fault>)
        ensures
            match made {
                Ok(course) => course_fault(name@, instructor@, capacity) is None && course@
                    == (CourseView {
                    id,
                    name: name@,
                    instructor: instructor@,
                    capacity,
                    enrolled_students: 0,
                }),
                Err(fault) => course_fault(name@, instructor@, capacity) == Some(fault),
            },
    {
        if name.as_str().is_empty() {
            return Err(Fault::EmptyName);
        }
        if instructor.as_str().is_empty() {
            return Err(Fault::EmptyInstructor);
        }
        if capacity == 0 {
            return Err(Fault::ZeroCapacity);
        }
        if !texts_fit(&name, &instructor) {
            return Err(Fault::RecordTooLarge);
        }
        Ok(Course { id, name, instructor, capacity, enrolled_students: 0 })
    }

    /// The course's identifier.
    pub fn id(&self) -> (id: u64)
        ensures
            id == self@.id,
    {
        self.id
    }

    /// The course's name.
    pub fn name(&self) -> (name: &String)
        ensures
            name@ == self@.name,
    {
        &self.name
    }

    /// The course's instructor.
    pub fn instructor(&self) -> (instructor: &String)
        ensures
            instructor@ == self@.instructor,
    {
        &self.instructor
    }

    /// The number of places.
    pub fn capacity(&self) -> (capacity: u64)
        ensures
            capacity == self@.capacity,
    {
        self.capacity
    }

    /// The number of places taken.
    pub fn enrolled_students(&self) -> (enrolled_students: u64)
        ensures
            enrolled_students == self@.enrolled_students,
    {
        self.enrolled_students
    }

    /// Whether a place is left.
    pub fn has_room(&self) -> (room: bool)
        ensures
            room == self@.has_room(),
    {
        self.enrolled_students < self.capacity
    }

    /// The course with one more student enrolled, if a place is left. The
    /// course itself stays as it is.
    pub fn enroll(&self) -> (enrolled: Option<Course>)
        ensures
            match enrolled {
                Some(course) => self@.has_room() && course@ == self@.enrolled(),
                None => !self@.has_room(),
            },
    {
        proof {
            use_type_invariant(self);
        }
        if self.enrolled_students >= self.capacity {
            return None;
        }
        Some(
            Course {
                id: self.id,
                name: self.name.clone(),
                instructor: self.instructor.clone(),
                capacity: self.capacity,
                enrolled_students: self.enrolled_students + 1,
            },
        )
    }

    /// The course's stored record.
    pub fn to_bytes(&self) -> (bytes: Vec<u8>)
        ensures
            bytes@ == self@.bytes(),
            bytes@.len() <= MAX_RECORD_SIZE,
    {
        proof {
            use_type_invariant(self);
            lemma_course_bytes(self@);
        }
        let mut body = Vec::new();
        put_u64(&mut body, self.id);
        put_text(&mut body, self.name.as_str());
        put_text(&mut body, self.instructor.as_str());
        put_u64(&mut body, self.capacity);
        put_u64(&mut body, self.enrolled_students);
        assert(body@ =~= self@.body());
        frame(&body)
    }

    /// The course that a stored record holds, if it holds one.
    pub fn from_bytes(bytes: &Vec<u8>) -> (parsed: Option<Course>)
        ensures
            match parsed {
                Some(course) => parse_course(bytes@) == Some(course@),
                None => parse_course(bytes@) is None,
            },
    {
        let at = match read_frame(bytes) {
            Some(at) => at,
            None => { return None; },
        };
        let (id, at) = match read_u64(bytes, at) {
            Some(read) => read,
            None => { return None; },
        };
        let (name, at) = match read_text(bytes, at) {
            Some(read) => read,
            None => { return None; },
        };
        let (instructor, at) = match read_text(bytes, at) {
            Some(read) => read,
            None => { return None; },
        };
        let (capacity, at) = match read_u64(bytes, at) {
            Some(read) => read,
            None => { return None; },
        };
        let (enrolled_students, at) = match read_u64(bytes, at) {
            Some(read) => read,
            None => { return None; },
        };
        if at != bytes.len() || name.as_str().is_empty() || instructor.as_str().is_empty()
            || capacity == 0 || enrolled_students > capacity || !texts_fit(&name, &instructor) {
            return None;
        }
        Some(Course { id, name, instructor, capacity, enrolled_students })
    }
}

impl Fault {
    /// The fault in words.
    pub fn message(&self) -> (message: String)
        ensures
            message@ == match *self {
                Fault::EmptyName => "Name field cannot be empty."@,
                Fault::EmptyInstructor => "Instructor field cannot be empty."@,
                Fault::ZeroCapacity => "Capacity must be greater than 0."@,
                Fault::RecordTooLarge => "Name and instructor are too long to be stored."@,
            },
    {
        match self {
            Fault::EmptyName => "Name field cannot be empty.".to_owned(),
            Fault::EmptyInstructor => "Instructor field cannot be empty.".to_owned(),
            Fault::ZeroCapacity => "Capacity must be greater than 0.".to_owned(),
            Fault::RecordTooLarge => "Name and instructor are too long to be stored.".to_owned(),
        }
    }
}

impl CourseError {
    /// The error in words.
    pub fn message(&self) -> (message: String)
        ensures
            message@ == match *self {
                CourseError::ValidationError(Fault::EmptyName) => "Name field cannot be empty."@,
                CourseError::ValidationError(
                    Fault::EmptyInstructor,
                ) => "Instructor field cannot be empty."@,
                CourseError::ValidationError(
                    Fault::ZeroCapacity,
                ) => "Capacity must be greater than 0."@,
                CourseError::ValidationError(
                    Fault::RecordTooLarge,
                ) => "Name and instructor are too long to be stored."@,
                CourseError::NotFound => "Course not found"@,
                CourseError::CapacityExceeded => "Course is already at full capacity"@,
                CourseError::IdsExhausted => "No course identifier is left"@,
            },
    {
        match self {
            CourseError::ValidationError(fault) => fault.message(),
            CourseError::NotFound => "Course not found".to_owned(),
            CourseError::CapacityExceeded => "Course is already at full capacity".to_owned(),
            CourseError::IdsExhausted => "No course identifier is left".to_owned(),
        }
    }
}

/// Whether a course with this name and instructor fits in one stored record.
fn texts_fit(name: &String, instructor: &String) -> (fit: bool)
    ensures
        fit == (course_size(name@, instructor@) <= MAX_RECORD_SIZE),
{
    let name_len = name.as_str().as_bytes().len();
    let instructor_len = instructor.as_str().as_bytes().len();
    let room = MAX_RECORD_SIZE - COURSE_FIXED_SIZE;
    name_len <= room && instructor_len <= room - name_len
}

/// The stored record of a valid course has as many bytes as
/// [`course_size`] says.
pub proof fn lemma_course_bytes(course: CourseView)
    requires
        course.valid(),
    ensures
        course.body().len() == course_size(course.name, course.instructor) - 4,
        course.bytes().len() == course_size(course.name, course.instructor),
{
    lemma_take_u64(course.id, Seq::empty());
    lemma_take_u64(course.capacity, Seq::empty());
    lemma_take_u64(course.enrolled_students, Seq::empty());
    lemma_take_text(course.name, Seq::empty());
    lemma_take_text(course.instructor, Seq::empty());
    lemma_take_frame(course.body());
}

/// Reading the stored record of a valid course gives the course back.
pub proof fn lemma_course_round_trip(course: CourseView)
    requires
        course.valid(),
    ensures
        parse_course(course.bytes()) == Some(course),
{
    lemma_course_bytes(course);
    let body = course.body();
    lemma_take_frame(body);
    let after_enrolled = Seq::<u8>::empty();
    let after_capacity = u64_bytes(course.enrolled_students) + after_enrolled;
    let after_instructor = u64_bytes(course.capacity) + after_capacity;
    let after_name = text_bytes(course.instructor) + after_instructor;
    let after_id = text_bytes(course.name) + after_name;
    assert(body =~= u64_bytes(course.id) + after_id);
    lemma_take_u64(course.id, after_id);
    lemma_take_text(course.name, after_name);
    lemma_take_text(course.instructor, after_instructor);
    lemma_take_u64(course.capacity, after_capacity);
    lemma_take_u64(course.enrolled_students, after_enrolled);
}

} // verus!
