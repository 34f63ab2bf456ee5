use transcript::state::Transcipt;
use transcript::{AccountId, Error};

fn admin() -> AccountId {
    AccountId(10)
}

fn teacher() -> AccountId {
    AccountId(20)
}

fn student() -> AccountId {
    AccountId(30)
}

fn stranger() -> AccountId {
    AccountId(40)
}

#[test]
fn full_flow_score_then_self_read() {
    let mut c = Transcipt::new(admin());
    assert_eq!(c.add_teacher(admin(), teacher()), Ok(()));
    assert_eq!(c.add_student(admin(), student()), Ok(()));
    assert_eq!(
        c.add_classes(admin(), "CS50".to_string(), teacher(), vec![student()]),
        Ok(())
    );
    assert_eq!(c.add_score(teacher(), "CS50".to_string(), student(), 2), Ok(()));
    assert_eq!(
        c.access_grades(student(), "CS50".to_string(), student()),
        Ok(vec![2])
    );
}

#[test]
fn last_admin_cannot_be_removed() {
    let mut c = Transcipt::new(admin());
    assert_eq!(
        c.remove_admins(admin(), admin()),
        Err(Error::AccessNotAllowed)
    );
    assert_eq!(c.admins, vec![admin()]);
}

#[test]
fn duplicate_class_name_is_invalid() {
    let mut c = Transcipt::new(admin());
    assert_eq!(c.add_teacher(admin(), teacher()), Ok(()));
    assert_eq!(c.add_student(admin(), student()), Ok(()));
    assert_eq!(
        c.add_classes(admin(), "CS50".to_string(), teacher(), vec![student()]),
        Ok(())
    );
    assert_eq!(
        c.add_classes(admin(), "CS50".to_string(), teacher(), vec![student()]),
        Err(Error::InvalidInput)
    );
}

#[test]
fn enroll_unknown_student_is_invalid() {
    let mut c = Transcipt::new(admin());
    assert_eq!(c.add_teacher(admin(), teacher()), Ok(()));
    assert_eq!(c.add_student(admin(), student()), Ok(()));
    assert_eq!(
        c.add_classes(admin(), "CS50".to_string(), teacher(), vec![student()]),
        Ok(())
    );
    assert_eq!(
        c.enroll_student(admin(), "CS50".to_string(), stranger()),
        Err(Error::InvalidInput)
    );
}

#[test]
fn remove_student_cascades() {
    let mut c = Transcipt::new(admin());
    assert_eq!(c.add_teacher(admin(), teacher()), Ok(()));
    assert_eq!(c.add_student(admin(), student()), Ok(()));
    assert_eq!(
        c.add_classes(admin(), "CS50".to_string(), teacher(), vec![student()]),
        Ok(())
    );
    assert_eq!(c.add_score(teacher(), "CS50".to_string(), student(), 2), Ok(()));
    assert_eq!(c.add_score(teacher(), "CS50".to_string(), student(), 3), Ok(()));
    assert_eq!(
        c.get_grades(student(), &"CS50".to_string()),
        Some(vec![2, 3])
    );
    assert_eq!(c.remove_student(admin(), student()), Ok(()));
    assert_eq!(c.get_grades(student(), &"CS50".to_string()), None);
    assert_eq!(
        c.get_class(&"CS50".to_string()),
        Some((teacher(), Vec::new()))
    );
    assert!(!c.students.contains(&student()));
    assert_eq!(c.get_access(student()), None);
}

#[test]
fn stranger_cannot_read_grades() {
    let mut c = Transcipt::new(admin());
    assert_eq!(c.add_teacher(admin(), teacher()), Ok(()));
    assert_eq!(c.add_student(admin(), student()), Ok(()));
    assert_eq!(
        c.add_classes(admin(), "CS50".to_string(), teacher(), vec![student()]),
        Ok(())
    );
    assert_eq!(
        c.access_grades(stranger(), "CS50".to_string(), student()),
        Err(Error::AccessNotAllowed)
    );
}

#[test]
fn score_order_is_preserved() {
    let mut c = Transcipt::new(admin());
    assert_eq!(c.add_teacher(admin(), teacher()), Ok(()));
    assert_eq!(c.add_student(admin(), student()), Ok(()));
    assert_eq!(
        c.add_classes(admin(), "CS50".to_string(), teacher(), vec![student()]),
        Ok(())
    );
    assert_eq!(c.add_score(teacher(), "CS50".to_string(), student(), 2), Ok(()));
    assert_eq!(c.add_score(teacher(), "CS50".to_string(), student(), 3), Ok(()));
    assert_eq!(c.add_score(teacher(), "CS50".to_string(), student(), 2), Ok(()));
    assert_eq!(
        c.access_grades(teacher(), "CS50".to_string(), student()),
        Ok(vec![2, 3, 2])
    );
}

#[test]
fn remove_access_is_idempotent() {
    let mut c = Transcipt::new(admin());
    assert_eq!(c.add_teacher(admin(), teacher()), Ok(()));
    assert_eq!(c.add_student(admin(), student()), Ok(()));
    // The grant was never given: removal still succeeds, twice.
    assert_eq!(
        c.remove_accessstudents(admin(), student(), stranger()),
        Ok(())
    );
    assert_eq!(
        c.remove_accessstudents(admin(), student(), stranger()),
        Ok(())
    );
    // A real grant comes out, and removing it again still succeeds.
    assert_eq!(c.add_accessstudents(admin(), student(), stranger()), Ok(()));
    assert_eq!(
        c.remove_accessstudents(admin(), student(), stranger()),
        Ok(())
    );
    assert_eq!(c.get_access(student()), Some(vec![student()]));
    assert_eq!(
        c.remove_accessstudents(admin(), student(), stranger()),
        Ok(())
    );
    assert_eq!(c.get_access(student()), Some(vec![student()]));
}

#[test]
fn remove_class_cascades_to_grades() {
    let mut c = Transcipt::new(admin());
    assert_eq!(c.add_teacher(admin(), teacher()), Ok(()));
    assert_eq!(c.add_student(admin(), student()), Ok(()));
    assert_eq!(
        c.add_classes(admin(), "CS50".to_string(), teacher(), vec![student()]),
        Ok(())
    );
    assert_eq!(c.add_score(teacher(), "CS50".to_string(), student(), 7), Ok(()));
    assert_eq!(c.remove_classes(admin(), "CS50".to_string()), Ok(()));
    assert_eq!(c.get_grades(student(), &"CS50".to_string()), None);
    assert!(!c.class_list.contains(&"CS50".to_string()));
    assert_eq!(c.get_class(&"CS50".to_string()), None);
    // The grade query still answers, with an empty record.
    assert_eq!(
        c.access_grades(teacher(), "CS50".to_string(), student()),
        Ok(Vec::new())
    );
}

#[test]
fn unenroll_not_enrolled_is_invalid() {
    let mut c = Transcipt::new(admin());
    assert_eq!(c.add_teacher(admin(), teacher()), Ok(()));
    assert_eq!(c.add_student(admin(), student()), Ok(()));
    assert_eq!(c.add_student(admin(), stranger()), Ok(()));
    assert_eq!(
        c.add_classes(admin(), "CS50".to_string(), teacher(), vec![student()]),
        Ok(())
    );
    assert_eq!(
        c.unenroll_student(admin(), "CS50".to_string(), stranger()),
        Err(Error::InvalidInput)
    );
}

#[test]
fn duplicate_roster_is_invalid() {
    let mut c = Transcipt::new(admin());
    assert_eq!(c.add_teacher(admin(), teacher()), Ok(()));
    assert_eq!(c.add_student(admin(), student()), Ok(()));
    assert_eq!(
        c.add_classes(
            admin(),
            "CS50".to_string(),
            teacher(),
            vec![student(), student()]
        ),
        Err(Error::InvalidInput)
    );
}

#[test]
fn grant_list_needs_a_registered_student() {
    let mut c = Transcipt::new(admin());
    assert_eq!(c.add_teacher(admin(), teacher()), Ok(()));
    // The subject was never added as a student, so no grant list
    // exists and extending it is a failure, not a silent default.
    assert_eq!(
        c.add_accessstudents(teacher(), stranger(), teacher()),
        Err(Error::InvalidInput)
    );
}

#[test]
fn missing_class_is_a_caller_error() {
    let mut c = Transcipt::new(admin());
    assert_eq!(
        c.remove_classes(admin(), "CS50".to_string()),
        Err(Error::InvalidInput)
    );
    assert_eq!(
        c.enroll_student(admin(), "CS50".to_string(), student()),
        Err(Error::InvalidInput)
    );
    assert_eq!(
        c.unenroll_student(admin(), "CS50".to_string(), student()),
        Err(Error::InvalidInput)
    );
    assert_eq!(
        c.add_score(admin(), "CS50".to_string(), student(), 1),
        Err(Error::InvalidInput)
    );
}

#[test]
fn commands_demand_an_administrator() {
    let mut c = Transcipt::new(admin());
    assert_eq!(
        c.add_teacher(stranger(), teacher()),
        Err(Error::AccessNotAllowed)
    );
    assert_eq!(
        c.add_student(stranger(), student()),
        Err(Error::AccessNotAllowed)
    );
    assert_eq!(
        c.add_admins(stranger(), stranger()),
        Err(Error::AccessNotAllowed)
    );
    assert_eq!(
        c.add_classes(stranger(), "CS50".to_string(), teacher(), Vec::new()),
        Err(Error::AccessNotAllowed)
    );
    assert_eq!(
        c.remove_student(stranger(), student()),
        Err(Error::AccessNotAllowed)
    );
    assert_eq!(
        c.remove_teacher(stranger(), teacher()),
        Err(Error::AccessNotAllowed)
    );
    assert_eq!(
        c.remove_accessstudents(stranger(), student(), stranger()),
        Err(Error::AccessNotAllowed)
    );
}

#[test]
fn only_the_assigned_teacher_scores() {
    let mut c = Transcipt::new(admin());
    assert_eq!(c.add_teacher(admin(), teacher()), Ok(()));
    assert_eq!(c.add_student(admin(), student()), Ok(()));
    assert_eq!(
        c.add_classes(admin(), "CS50".to_string(), teacher(), vec![student()]),
        Ok(())
    );
    // Even the administrator is refused: scoring belongs to the
    // class's assigned teacher alone.
    assert_eq!(
        c.add_score(admin(), "CS50".to_string(), student(), 2),
        Err(Error::AccessNotAllowed)
    );
    // An enrolled class, the right teacher, a student not on the
    // roster: refused too.
    assert_eq!(
        c.add_score(teacher(), "CS50".to_string(), stranger(), 2),
        Err(Error::AccessNotAllowed)
    );
}
