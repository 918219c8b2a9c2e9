//! The course registry: a counter that mints course identifiers and a store
//! that holds one record per course.
//!
//! The registry is modelled by a [`RegistryView`]: the next identifier and
//! the courses, by identifier. A stored record counts as a course only if it
//! reads as a valid course that carries the very key it is stored under; the
//! registry writes no other records. What an operation does is a function on
//! the model, and each operation's contract says that the registry follows
//! that function.

pub use crate::course::Course;
use crate::course::{
    course_fault, lemma_course_round_trip, parse_course, CourseError, CourseView,
};
use crate::listing::{
    ascending, in_key_order, key_count, lemma_ascending_gap, lemma_scan_end, lemma_scan_step,
    passed,
};
use crate::store::{entry_views, is_listing, Counter, RecordStore};
use vstd::prelude::*;

verus! {

/// A registry as a mathematical value.
#[verifier::ext_equal]
pub struct RegistryView {
    /// The identifier that the next new course gets.
    pub next_id: u64,
    /// The courses, by identifier.
    pub courses: Map<u64, CourseView>,
}

/// The course that `records` hold under `id`, if they hold one there.
pub open spec fn course_at(records: Map<u64, Seq<u8>>, id: u64) -> Option<CourseView> {
    if records.contains_key(id) {
        match parse_course(records[id]) {
            Some(course) => if course.id == id {
                Some(course)
            } else {
                None
            },
            None => None,
        }
    } else {
        None
    }
}

/// The courses that `records` hold.
pub open spec fn courses_of(records: Map<u64, Seq<u8>>) -> Map<u64, CourseView> {
    Map::new(|id: u64| course_at(records, id) is Some, |id: u64| course_at(records, id)->0)
}

/// Which courses a query asks for.
pub enum Choice {
    /// Every course.
    Every,
    /// The courses with a place left.
    WithRoom,
    /// The courses without a place left.
    Full,
    /// The courses of one instructor.
    TaughtBy(Seq<char>),
}

impl Choice {
    /// Whether the query asks for `course`.
    pub open spec fn keeps(self, course: CourseView) -> bool {
        match self {
            Choice::Every => true,
            Choice::WithRoom => course.enrolled_students < course.capacity,
            Choice::Full => course.enrolled_students >= course.capacity,
            Choice::TaughtBy(instructor) => course.instructor == instructor,
        }
    }
}

/// The courses among `courses` that `choice` asks for, in the order they
/// have in `courses`.
pub open spec fn chosen(courses: Seq<CourseView>, choice: Choice) -> Seq<CourseView> {
    courses.filter(|course: CourseView| choice.keeps(course))
}

/// The students enrolled in `courses`, all together.
pub open spec fn total_enrolled(courses: Seq<CourseView>) -> nat
    decreases courses.len(),
{
    if courses.len() == 0 {
        0
    } else {
        total_enrolled(courses.drop_last()) + courses.last().enrolled_students as nat
    }
}

/// The courses that a list of courses holds.
pub open spec fn course_views(courses: Seq<Course>) -> Seq<CourseView> {
    courses.map_values(|course: Course| course@)
}

/// What an operation answered, with the course as a mathematical value.
pub open spec fn outcome(result: Result<Course, CourseError>) -> Result<CourseView, CourseError> {
    match result {
        Ok(course) => Ok(course@),
        Err(error) => Err(error),
    }
}

impl RegistryView {
    /// Every course is valid and is filed under its own identifier.
    pub open spec fn sound(self) -> bool {
        forall|id: u64| #[trigger]
            self.courses.contains_key(id) ==> self.courses[id].valid() && self.courses[id].id
                == id
    }

    /// No course is filed under an identifier that is still to be handed
    /// out.
    pub open spec fn fresh(self) -> bool {
        forall|id: u64| #[trigger] self.courses.contains_key(id) ==> id < self.next_id
    }

    /// The registry with `course` filed under its identifier, in place of
    /// whatever was there.
    pub open spec fn put(self, course: CourseView) -> RegistryView {
        RegistryView { courses: self.courses.insert(course.id, course), ..self }
    }

    /// Creating a course. A course with a fault is refused. Otherwise the
    /// course gets the next identifier, starts without students and is filed;
    /// if no identifier is left, nothing happens.
    pub open spec fn create(self, name: Seq<char>, instructor: Seq<char>, capacity: u64) -> (
        RegistryView,
        Result<CourseView, CourseError>,
    ) {
        match course_fault(name, instructor, capacity) {
            Some(fault) => (self, Err(CourseError::ValidationError(fault))),
            None => if self.next_id == u64::MAX {
                (self, Err(CourseError::IdsExhausted))
            } else {
                let course = CourseView {
                    id: self.next_id,
                    name,
                    instructor,
                    capacity,
                    enrolled_students: 0,
                };
                (
                    RegistryView { next_id: (self.next_id + 1) as u64, ..self.put(course) },
                    Ok(course),
                )
            },
        }
    }

    /// Enrolling a student in the course `id`. A course that is not there
    /// or has no place left is refused, and nothing happens. Otherwise the
    /// course is filed again with one more student.
    pub open spec fn enroll(self, id: u64) -> (RegistryView, Result<CourseView, CourseError>) {
        if !self.courses.contains_key(id) {
            (self, Err(CourseError::NotFound))
        } else if !self.courses[id].has_room() {
            (self, Err(CourseError::CapacityExceeded))
        } else {
            (self.put(self.courses[id].enrolled()), Ok(self.courses[id].enrolled()))
        }
    }

    /// The registry after `times` attempts to enroll a student in the
    /// course `id`.
    pub open spec fn enroll_repeatedly(self, id: u64, times: nat) -> RegistryView
        decreases times,
    {
        if times == 0 {
            self
        } else {
            self.enroll_repeatedly(id, (times - 1) as nat).enroll(id).0
        }
    }
}

/// The average number of students per course, as a fraction: the students
/// enrolled in all courses together, over the number of courses. Without
/// courses both are zero.
#[derive(Clone, Copy, Debug, PartialEq, Eq, Structural)]
pub struct Rate {
    pub enrolled: u128,
    pub courses: u64,
}

/// The registry of courses.
pub struct CourseRegistry {
    ids: Counter,
    records: RecordStore,
}

impl View for CourseRegistry {
    type V = RegistryView;

    closed spec fn view(&self) -> RegistryView {
        RegistryView { next_id: self.ids@, courses: courses_of(self.records@) }
    }
}

/// A query, as the scan of the store takes it.
enum Wanted<'a> {
    Every,
    WithRoom,
    Full,
    TaughtBy(&'a String),
}

impl Wanted<'_> {
    spec fn choice(self) -> Choice {
        match self {
            Wanted::Every => Choice::Every,
            Wanted::WithRoom => Choice::WithRoom,
            Wanted::Full => Choice::Full,
            Wanted::TaughtBy(instructor) => Choice::TaughtBy(instructor@),
        }
    }

    fn keeps(&self, course: &Course) -> (keep: bool)
        ensures
            keep == self.choice().keeps(course@),
    {
        match self {
            Wanted::Every => true,
            Wanted::WithRoom => course.enrolled_students() < course.capacity(),
            Wanted::Full => course.enrolled_students() >= course.capacity(),
            Wanted::TaughtBy(instructor) => *course.instructor() == **instructor,
        }
    }
}

impl CourseRegistry {
    /// The registry over a counter and a store.
    pub fn new(ids: Counter, records: RecordStore) -> (registry: CourseRegistry)
        ensures
            registry@ == (RegistryView { next_id: ids@, courses: courses_of(records@) }),
    {
        CourseRegistry { ids, records }
    }

    /// The course with the identifier `id`, if there is one.
    pub fn find_course(&self, id: u64) -> (found: Option<Course>)
        ensures
            match found {
                Some(course) => self@.courses.contains_key(id) && self@.courses[id] == course@,
                None => !self@.courses.contains_key(id),
            },
    {
        match self.records.get(id) {
            Some(record) => match Course::from_bytes(&record) {
                Some(course) => if course.id() == id {
                    Some(course)
                } else {
                    None
                },
                None => None,
            },
            None => None,
        }
    }

    /// Creates a course without students under the next identifier and
    /// answers with it. A name or an instructor that is empty, a capacity of
    /// zero, and a name and instructor too long for one record are refused
    /// with `ValidationError`; once the counter has no identifier left, every
    /// course is refused with `IdsExhausted`. A refusal changes nothing.
    pub fn create_course(
        &mut self,
        name: String,
        instructor: String,
        capacity: u64,
    ) -> (created: Result<Course, CourseError>)
        ensures
            final(self)@ == old(self)@.create(name@, instructor@, capacity).0,
            outcome(created) == old(self)@.create(name@, instructor@, capacity).1,
            created matches Ok(course) ==> course@.enrolled_students == 0 && course@.capacity > 0,
    {
        let id = self.ids.value();
        let course = match Course::new(id, name, instructor, capacity) {
            Ok(course) => course,
            Err(fault) => { return Err(CourseError::ValidationError(fault)); },
        };
        if self.ids.next().is_none() {
            return Err(CourseError::IdsExhausted);
        }
        do_insert_course(self, &course);
        assert(self@ =~= old(self)@.create(name@, instructor@, capacity).0);
        Ok(course)
    }

    /// The courses with a place left, in ascending order of identifier.
    pub fn get_courses_with_available_slots(&self) -> (found: Vec<Course>)
        ensures
            course_views(found@) == chosen(in_key_order(self@.courses), Choice::WithRoom),
    {
        self.select(Wanted::WithRoom)
    }

    /// The courses without a place left, in ascending order of identifier.
    pub fn get_full_capacity_courses(&self) -> (found: Vec<Course>)
        ensures
            course_views(found@) == chosen(in_key_order(self@.courses), Choice::Full),
    {
        self.select(Wanted::Full)
    }

    /// The courses of the instructor `instructor_name`, in ascending order
    /// of identifier.
    pub fn get_courses_by_instructor(&self, instructor_name: String) -> (found: Vec<Course>)
        ensures
            course_views(found@) == chosen(
                in_key_order(self@.courses),
                Choice::TaughtBy(instructor_name@),
            ),
    {
        self.select(Wanted::TaughtBy(&instructor_name))
    }

    /// The average number of students per course, as a fraction.
    pub fn get_average_enrollment_rate(&self) -> (rate: Rate)
        ensures
            rate.enrolled == total_enrolled(in_key_order(self@.courses)),
            rate.courses == in_key_order(self@.courses).len(),
    {
        let courses = self.select(Wanted::Every);
        proof {
            lemma_chosen_every(in_key_order(self@.courses));
        }
        let mut enrolled: u128 = 0;
        let mut at: usize = 0;
        assert(course_views(courses@).take(0) =~= Seq::<CourseView>::empty());
        while at < courses.len()
            invariant
                at <= courses@.len(),
                enrolled == total_enrolled(course_views(courses@).take(at as int)),
                enrolled <= at * u64::MAX,
            decreases courses@.len() - at,
        {
            proof {
                let views = course_views(courses@);
                assert(views.take(at + 1).drop_last() =~= views.take(at as int));
                assert(views.take(at + 1).last() == courses@[at as int]@);
            }
            enrolled = enrolled + courses[at].enrolled_students() as u128;
            at += 1;
        }
        assert(course_views(courses@).take(at as int) =~= course_views(courses@));
        Rate { enrolled, courses: courses.len() as u64 }
    }

    /// Scans the store in ascending order of key and keeps the courses that
    /// `wanted` asks for.
    fn select(&self, wanted: Wanted) -> (found: Vec<Course>)
        ensures
            course_views(found@) == chosen(in_key_order(self@.courses), wanted.choice()),
    {
        let entries = self.records.iterate();
        let ghost records = self.records@;
        let ghost listing = entry_views(entries@);
        let ghost courses = courses_of(records);
        let ghost choice = wanted.choice();
        let mut found: Vec<Course> = Vec::new();
        let mut at: usize = 0;
        proof {
            reveal(Seq::filter);
            assert(course_views(found@) =~= chosen(ascending(courses, 0), choice));
        }
        while at < entries.len()
            invariant
                at <= entries@.len(),
                listing == entry_views(entries@),
                is_listing(listing, records),
                courses == courses_of(records),
                choice == wanted.choice(),
                course_views(found@) == chosen(
                    ascending(courses, passed(listing, at as int)),
                    choice,
                ),
            decreases entries@.len() - at,
        {
            let key = entries[at].0;
            let parsed = Course::from_bytes(&entries[at].1);
            proof {
                assert(listing[at as int] == (key, entries@[at as int].1@));
                lemma_scan_step(listing, records, courses, at as int);
            }
            match parsed {
                Some(course) => {
                    if course.id() == key {
                        proof {
                            lemma_chosen_push(
                                ascending(courses, passed(listing, at as int)),
                                course@,
                                choice,
                            );
                        }
                        if wanted.keeps(&course) {
                            proof {
                                assert(course_views(found@.push(course)) =~= course_views(
                                    found@,
                                ).push(course@));
                            }
                            found.push(course);
                        }
                    }
                },
                None => {},
            }
            at += 1;
        }
        proof {
            lemma_scan_end(listing, records, courses);
        }
        found
    }
}

/// Files `course` under its identifier, in place of whatever was there.
pub fn do_insert_course(registry: &mut CourseRegistry, course: &Course)
    ensures
        final(registry)@ == old(registry)@.put(course@),
{
    let record = course.to_bytes();
    proof {
        use_type_invariant(course);
        lemma_courses_insert(registry.records@, course@);
    }
    registry.records.insert(course.id(), &record);
}

/// Filing the record of a valid course files the course, and touches no
/// other course.
pub proof fn lemma_courses_insert(records: Map<u64, Seq<u8>>, course: CourseView)
    requires
        course.valid(),
    ensures
        courses_of(records.insert(course.id, course.bytes())) == courses_of(records).insert(
            course.id,
            course,
        ),
{
    lemma_course_round_trip(course);
    let after = records.insert(course.id, course.bytes());
    assert forall|id: u64| course_at(after, id) == (if id == course.id {
        Some(course)
    } else {
        course_at(records, id)
    }) by {}
    assert(courses_of(after) =~= courses_of(records).insert(course.id, course));
}

/// One more course at the end of a list is chosen or not on its own.
pub proof fn lemma_chosen_push(courses: Seq<CourseView>, last: CourseView, choice: Choice)
    ensures
        chosen(courses.push(last), choice) == if choice.keeps(last) {
            chosen(courses, choice).push(last)
        } else {
            chosen(courses, choice)
        },
{
    reveal(Seq::filter);
    assert(courses.push(last).drop_last() =~= courses);
}

/// Asking for every course gives every course.
pub proof fn lemma_chosen_every(courses: Seq<CourseView>)
    ensures
        chosen(courses, Choice::Every) == courses,
    decreases courses.len(),
{
    reveal(Seq::filter);
    if courses.len() > 0 {
        lemma_chosen_every(courses.drop_last());
        assert(courses.drop_last().push(courses.last()) =~= courses);
    }
}

/// Without courses there is nothing to average: no course is listed and no
/// student is counted, so the rate is zero over zero.
pub proof fn lemma_no_courses_nothing_enrolled(courses: Map<u64, CourseView>)
    requires
        forall|id: u64| !courses.contains_key(id),
    ensures
        in_key_order(courses).len() == 0,
        total_enrolled(in_key_order(courses)) == 0,
{
    lemma_ascending_gap(courses, 0, key_count());
}

/// Every course of a registry is valid and is filed under its own
/// identifier: in particular, none holds more students than its capacity.
pub proof fn lemma_registry_sound(registry: CourseRegistry)
    ensures
        registry@.sound(),
{
}

/// A course that was just created has no students, has a capacity, has the
/// identifier that was next, and is the course filed under it; the next
/// course gets the identifier after it.
pub proof fn lemma_created_course(
    registry: RegistryView,
    name: Seq<char>,
    instructor: Seq<char>,
    capacity: u64,
)
    requires
        registry.create(name, instructor, capacity).1 is Ok,
    ensures
        ({
            let (after, created) = registry.create(name, instructor, capacity);
            &&& created->Ok_0.enrolled_students == 0
            &&& created->Ok_0.capacity == capacity > 0
            &&& created->Ok_0.valid()
            &&& created->Ok_0.id == registry.next_id
            &&& after.next_id == registry.next_id + 1
            &&& after.courses.contains_key(created->Ok_0.id)
            &&& after.courses[created->Ok_0.id] == created->Ok_0
        }),
{
}

/// Creating and enrolling keep a registry sound.
pub proof fn lemma_operations_keep_sound(
    registry: RegistryView,
    name: Seq<char>,
    instructor: Seq<char>,
    capacity: u64,
    id: u64,
)
    requires
        registry.sound(),
    ensures
        registry.create(name, instructor, capacity).0.sound(),
        registry.enroll(id).0.sound(),
{
}

/// Identifiers are not used twice: as long as no course is filed under an
/// identifier still to be handed out, creating and enrolling keep it so, and
/// a new course takes the place of no other.
pub proof fn lemma_registry_stays_fresh(
    registry: RegistryView,
    name: Seq<char>,
    instructor: Seq<char>,
    capacity: u64,
    id: u64,
)
    requires
        registry.sound(),
        registry.fresh(),
    ensures
        registry.create(name, instructor, capacity).0.fresh(),
        registry.enroll(id).0.fresh(),
        registry.create(name, instructor, capacity).1 matches Ok(course)
            ==> !registry.courses.contains_key(course.id),
{
}

/// However often a student is enrolled in a course, the course never holds
/// more students than its capacity; and once it is full, a further attempt
/// is refused with `CapacityExceeded` and leaves the registry as it was.
pub proof fn lemma_enrollment_stays_within_capacity(registry: RegistryView, id: u64, times: nat)
    requires
        registry.sound(),
        registry.courses.contains_key(id),
    ensures
        ({
            let after = registry.enroll_repeatedly(id, times);
            &&& after.sound()
            &&& after.courses.contains_key(id)
            &&& after.courses[id].enrolled_students <= after.courses[id].capacity
            &&& after.courses[id].capacity == registry.courses[id].capacity
            &&& !after.courses[id].has_room() ==> after.enroll(id) == (
                after,
                Err::<CourseView, CourseError>(CourseError::CapacityExceeded),
            )
        }),
    decreases times,
{
    if times > 0 {
        lemma_enrollment_stays_within_capacity(registry, id, (times - 1) as nat);
    }
}

} // verus!
