use ic_stable_structures::memory_manager::{MemoryId, MemoryManager};
use ic_stable_structures::{Cell, DefaultMemoryImpl, StableBTreeMap};
use icp_rust_boilerplate_backend::course::{CourseError, Fault};
use icp_rust_boilerplate_backend::course_management::{do_insert_course, CourseRegistry, Rate};
use icp_rust_boilerplate_backend::store::{Counter, RecordStore, MAX_RECORD_SIZE};
use icp_rust_boilerplate_backend::Course;

fn registry_in(memory: &DefaultMemoryImpl, first_id: u64) -> CourseRegistry {
    let regions = MemoryManager::init(memory.clone());
    let ids = Counter {
        cell: Cell::init(regions.get(MemoryId::new(0)), first_id).expect("a counter cell"),
    };
    let records = RecordStore {
        map: StableBTreeMap::init(regions.get(MemoryId::new(1))),
    };
    CourseRegistry::new(ids, records)
}

fn registry() -> CourseRegistry {
    registry_in(&DefaultMemoryImpl::default(), 0)
}

fn create(registry: &mut CourseRegistry, name: &str, instructor: &str, capacity: u64) -> Course {
    registry
        .create_course(name.to_string(), instructor.to_string(), capacity)
        .expect("a valid course")
}

fn ids(courses: &[Course]) -> Vec<u64> {
    courses.iter().map(|course| course.id()).collect()
}

#[test]
fn created_course_has_no_students() {
    let mut registry = registry();
    let course = create(&mut registry, "CS101", "Dr. A", 2);
    assert_eq!(course.id(), 0);
    assert_eq!(course.name(), "CS101");
    assert_eq!(course.instructor(), "Dr. A");
    assert_eq!(course.capacity(), 2);
    assert_eq!(course.enrolled_students(), 0);
    let stored = registry.find_course(0).expect("the course is stored");
    assert_eq!(stored.name(), "CS101");
    assert_eq!(stored.enrolled_students(), 0);
    assert!(stored.capacity() > 0);
}

#[test]
fn course_ids_count_up() {
    let mut registry = registry();
    assert_eq!(create(&mut registry, "A", "X", 1).id(), 0);
    assert_eq!(create(&mut registry, "B", "X", 1).id(), 1);
    assert_eq!(create(&mut registry, "C", "X", 1).id(), 2);
}

#[test]
fn course_without_name_is_refused() {
    let mut registry = registry();
    let refused = registry.create_course(String::new(), "Dr. A".to_string(), 2);
    assert_eq!(refused.err(), Some(CourseError::ValidationError(Fault::EmptyName)));
    assert!(registry.find_course(0).is_none());
}

#[test]
fn course_without_instructor_is_refused() {
    let mut registry = registry();
    let refused = registry.create_course("CS101".to_string(), String::new(), 2);
    assert_eq!(refused.err(), Some(CourseError::ValidationError(Fault::EmptyInstructor)));
}

#[test]
fn course_without_capacity_is_refused() {
    let mut registry = registry();
    let refused = registry.create_course("CS101".to_string(), "Dr. A".to_string(), 0);
    assert_eq!(refused.err(), Some(CourseError::ValidationError(Fault::ZeroCapacity)));
}

#[test]
fn first_fault_is_reported() {
    let mut registry = registry();
    let refused = registry.create_course(String::new(), String::new(), 0);
    assert_eq!(refused.err(), Some(CourseError::ValidationError(Fault::EmptyName)));
    let refused = registry.create_course("CS101".to_string(), String::new(), 0);
    assert_eq!(refused.err(), Some(CourseError::ValidationError(Fault::EmptyInstructor)));
}

#[test]
fn refused_course_takes_no_id() {
    let mut registry = registry();
    assert!(registry.create_course(String::new(), "Dr. A".to_string(), 2).is_err());
    assert_eq!(create(&mut registry, "CS101", "Dr. A", 2).id(), 0);
}

#[test]
fn course_fills_a_record_to_the_last_byte() {
    let mut registry = registry();
    let name = "n".repeat(MAX_RECORD_SIZE - 36 - 1);
    let course = create(&mut registry, &name, "i", 1);
    assert_eq!(course.to_bytes().len(), MAX_RECORD_SIZE);
    assert_eq!(registry.find_course(0).expect("stored").name(), &name);
}

#[test]
fn course_too_long_for_a_record_is_refused() {
    let mut registry = registry();
    let name = "n".repeat(MAX_RECORD_SIZE - 36);
    let refused = registry.create_course(name, "i".to_string(), 1);
    assert_eq!(refused.err(), Some(CourseError::ValidationError(Fault::RecordTooLarge)));
    assert!(registry.find_course(0).is_none());
}

#[test]
fn length_is_counted_in_bytes() {
    let mut registry = registry();
    let name = "é".repeat((MAX_RECORD_SIZE - 36) / 2);
    let refused = registry.create_course(name, "i".to_string(), 1);
    assert_eq!(refused.err(), Some(CourseError::ValidationError(Fault::RecordTooLarge)));
}

#[test]
fn no_course_without_an_id() {
    let mut registry = registry_in(&DefaultMemoryImpl::default(), u64::MAX - 1);
    assert_eq!(create(&mut registry, "A", "X", 1).id(), u64::MAX - 1);
    let refused = registry.create_course("B".to_string(), "X".to_string(), 1);
    assert_eq!(refused.err(), Some(CourseError::IdsExhausted));
    assert!(registry.find_course(u64::MAX).is_none());
}

#[test]
fn enrollment_stops_at_capacity() {
    let mut registry = registry();
    let course = create(&mut registry, "CS101", "Dr. A", 2);
    let once = registry.enroll_student(course.id()).expect("a place is left");
    assert_eq!(once.enrolled_students(), 1);
    let twice = registry.enroll_student(course.id()).expect("a place is left");
    assert_eq!(twice.enrolled_students(), 2);
    assert_eq!(twice.capacity(), 2);
    let refused = registry.enroll_student(course.id());
    assert_eq!(refused.err(), Some(CourseError::CapacityExceeded));
    let stored = registry.find_course(course.id()).expect("stored");
    assert_eq!(stored.enrolled_students(), 2);
    assert_eq!(stored.name(), "CS101");
    assert_eq!(stored.instructor(), "Dr. A");
}

#[test]
fn enrollment_never_exceeds_capacity() {
    let mut registry = registry();
    let course = create(&mut registry, "CS101", "Dr. A", 5);
    for attempt in 0..20u64 {
        let enrolled = registry.enroll_student(course.id());
        assert_eq!(enrolled.is_ok(), attempt < 5);
        let stored = registry.find_course(course.id()).expect("stored");
        assert!(stored.enrolled_students() <= stored.capacity());
        assert_eq!(stored.enrolled_students(), (attempt + 1).min(5));
    }
}

#[test]
fn enrolling_in_a_missing_course_fails() {
    let mut registry = registry();
    create(&mut registry, "CS101", "Dr. A", 2);
    assert_eq!(registry.enroll_student(7).err(), Some(CourseError::NotFound));
    assert_eq!(registry.find_course(0).expect("stored").enrolled_students(), 0);
}

#[test]
fn enrolling_touches_no_other_course() {
    let mut registry = registry();
    let first = create(&mut registry, "A", "X", 3);
    let second = create(&mut registry, "B", "Y", 3);
    registry.enroll_student(second.id()).expect("a place is left");
    assert_eq!(registry.find_course(first.id()).expect("stored").enrolled_students(), 0);
    assert_eq!(registry.find_course(second.id()).expect("stored").enrolled_students(), 1);
}

#[test]
fn queries_select_in_order_of_id() {
    let mut registry = registry();
    let a = create(&mut registry, "A", "Dr. A", 1);
    let b = create(&mut registry, "B", "Dr. B", 2);
    let c = create(&mut registry, "C", "Dr. A", 1);
    let d = create(&mut registry, "D", "Dr. B", 3);
    registry.enroll_student(a.id()).expect("a place is left");
    registry.enroll_student(b.id()).expect("a place is left");
    registry.enroll_student(c.id()).expect("a place is left");
    assert_eq!(ids(&registry.get_courses_with_available_slots()), vec![1, 3]);
    assert_eq!(ids(&registry.get_full_capacity_courses()), vec![0, 2]);
    assert_eq!(ids(&registry.get_courses_by_instructor("Dr. A".to_string())), vec![0, 2]);
    assert_eq!(ids(&registry.get_courses_by_instructor("Dr. B".to_string())), vec![1, 3]);
    assert!(registry.get_courses_by_instructor("Dr. C".to_string()).is_empty());
    assert_eq!(registry.get_courses_with_available_slots()[0].enrolled_students(), 1);
}

#[test]
fn queries_on_an_empty_registry_find_nothing() {
    let registry = registry();
    assert!(registry.get_courses_with_available_slots().is_empty());
    assert!(registry.get_full_capacity_courses().is_empty());
    assert!(registry.get_courses_by_instructor("Dr. A".to_string()).is_empty());
}

#[test]
fn average_of_no_courses_is_zero_over_zero() {
    let registry = registry();
    let rate = registry.get_average_enrollment_rate();
    assert_eq!(rate, Rate { enrolled: 0, courses: 0 });
    let average = if rate.courses == 0 { 0.0 } else { rate.enrolled as f64 / rate.courses as f64 };
    assert_eq!(average, 0.0);
}

#[test]
fn average_counts_students_and_courses() {
    let mut registry = registry();
    let a = create(&mut registry, "A", "X", 5);
    let b = create(&mut registry, "B", "X", 5);
    create(&mut registry, "C", "X", 5);
    create(&mut registry, "D", "X", 5);
    for _ in 0..3 {
        registry.enroll_student(a.id()).expect("a place is left");
    }
    for _ in 0..2 {
        registry.enroll_student(b.id()).expect("a place is left");
    }
    let rate = registry.get_average_enrollment_rate();
    assert_eq!(rate, Rate { enrolled: 5, courses: 4 });
    assert_eq!(rate.enrolled as f64 / rate.courses as f64, 1.25);
}

#[test]
fn average_does_not_overflow() {
    let mut registry = registry();
    for _ in 0..3 {
        let course = Course::new(0, "A".to_string(), "X".to_string(), u64::MAX).expect("valid");
        let id = create(&mut registry, "A", "X", u64::MAX).id();
        assert_eq!(course.capacity(), u64::MAX);
        assert!(registry.enroll_student(id).is_ok());
    }
    assert_eq!(registry.get_average_enrollment_rate(), Rate { enrolled: 3, courses: 3 });
}

#[test]
fn registry_survives_restart() {
    let memory = DefaultMemoryImpl::default();
    {
        let mut registry = registry_in(&memory, 0);
        let course = create(&mut registry, "CS101", "Dr. A", 2);
        create(&mut registry, "CS102", "Dr. B", 4);
        registry.enroll_student(course.id()).expect("a place is left");
    }
    let mut registry = registry_in(&memory, 0);
    assert_eq!(registry.find_course(0).expect("stored").enrolled_students(), 1);
    assert_eq!(registry.find_course(1).expect("stored").name(), "CS102");
    assert_eq!(create(&mut registry, "CS103", "Dr. C", 1).id(), 2);
}

#[test]
fn do_insert_course_files_under_the_course_id() {
    let mut registry = registry();
    let course = Course::new(41, "CS101".to_string(), "Dr. A".to_string(), 2).expect("valid");
    do_insert_course(&mut registry, &course);
    let stored = registry.find_course(41).expect("stored");
    assert_eq!(stored.name(), "CS101");
    let replacement = Course::new(41, "CS102".to_string(), "Dr. B".to_string(), 9).expect("valid");
    do_insert_course(&mut registry, &replacement);
    let stored = registry.find_course(41).expect("stored");
    assert_eq!(stored.name(), "CS102");
    assert_eq!(stored.capacity(), 9);
    assert_eq!(ids(&registry.get_courses_with_available_slots()), vec![41]);
}

#[test]
fn course_record_has_the_stated_layout() {
    let course = Course::new(3, "CS101".to_string(), "Dr. A".to_string(), 2).expect("valid");
    let course = course.enroll().expect("a place is left");
    let mut expected: Vec<u8> = vec![42, 0, 0, 0];
    expected.extend([3, 0, 0, 0, 0, 0, 0, 0]);
    expected.extend([5, 0, 0, 0]);
    expected.extend(b"CS101");
    expected.extend([5, 0, 0, 0]);
    expected.extend(b"Dr. A");
    expected.extend([2, 0, 0, 0, 0, 0, 0, 0]);
    expected.extend([1, 0, 0, 0, 0, 0, 0, 0]);
    assert_eq!(course.to_bytes(), expected);
    assert_eq!(expected.len(), 36 + 5 + 5);
}

#[test]
fn course_record_reads_back() {
    let course = Course::new(u64::MAX, "Algèbre".to_string(), "Noether".to_string(), 30)
        .expect("valid");
    let read = Course::from_bytes(&course.to_bytes()).expect("a course record");
    assert_eq!(read.id(), u64::MAX);
    assert_eq!(read.name(), "Algèbre");
    assert_eq!(read.instructor(), "Noether");
    assert_eq!(read.capacity(), 30);
    assert_eq!(read.enrolled_students(), 0);
}

#[test]
fn malformed_course_records_are_refused() {
    let course = Course::new(3, "CS101".to_string(), "Dr. A".to_string(), 2).expect("valid");
    let good = course.to_bytes();
    assert!(Course::from_bytes(&Vec::new()).is_none());
    assert!(Course::from_bytes(&good[..good.len() - 1].to_vec()).is_none());
    let mut longer = good.clone();
    longer.push(0);
    assert!(Course::from_bytes(&longer).is_none());
    let mut wrong_frame = good.clone();
    wrong_frame[0] += 1;
    assert!(Course::from_bytes(&wrong_frame).is_none());
    let mut not_utf8 = good.clone();
    not_utf8[16] = 0xff;
    assert!(Course::from_bytes(&not_utf8).is_none());
    let mut overfull = good.clone();
    overfull[38] = 3;
    assert!(Course::from_bytes(&overfull).is_none());
    let mut no_capacity = good.clone();
    no_capacity[30] = 0;
    assert!(Course::from_bytes(&no_capacity).is_none());
}

#[test]
fn record_under_another_key_is_no_course() {
    let memory = DefaultMemoryImpl::default();
    let regions = MemoryManager::init(memory.clone());
    let mut records = RecordStore {
        map: StableBTreeMap::init(regions.get(MemoryId::new(1))),
    };
    let course = Course::new(3, "CS101".to_string(), "Dr. A".to_string(), 2).expect("valid");
    records.insert(4, &course.to_bytes());
    records.insert(5, &vec![1, 2, 3]);
    drop(records);
    let registry = registry_in(&memory, 0);
    assert!(registry.find_course(3).is_none());
    assert!(registry.find_course(4).is_none());
    assert!(registry.find_course(5).is_none());
    assert!(registry.get_courses_with_available_slots().is_empty());
    assert_eq!(registry.get_average_enrollment_rate(), Rate { enrolled: 0, courses: 0 });
}

#[test]
fn errors_have_messages() {
    assert_eq!(Fault::EmptyName.message(), "Name field cannot be empty.");
    assert_eq!(Fault::EmptyInstructor.message(), "Instructor field cannot be empty.");
    assert_eq!(Fault::ZeroCapacity.message(), "Capacity must be greater than 0.");
    assert_eq!(
        CourseError::ValidationError(Fault::ZeroCapacity).message(),
        "Capacity must be greater than 0."
    );
    assert_eq!(CourseError::NotFound.message(), "Course not found");
    assert_eq!(CourseError::CapacityExceeded.message(), "Course is already at full capacity");
    assert!(!Fault::RecordTooLarge.message().is_empty());
    assert!(!CourseError::IdsExhausted.message().is_empty());
}
