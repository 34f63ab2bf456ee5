use transcript::state::Transcipt;
use transcript::{AccountId, Error};

fn alice() -> AccountId {
    AccountId(1)
}

fn bob() -> AccountId {
    AccountId(2)
}

fn charlie() -> AccountId {
    AccountId(3)
}

fn eve() -> AccountId {
    AccountId(5)
}

fn frank() -> AccountId {
    AccountId(6)
}

#[test]
fn lib_new_works() {
    let contract = Transcipt::new(alice());
    assert_eq!(contract.admins, [alice()]);
}

#[test]
fn add_teacher_works() {
    let mut contract = Transcipt::new(alice());
    assert!(contract.add_teacher(alice(), bob()).is_ok());
    assert!(contract.add_teacher(alice(), bob()).is_err());
    assert!(contract.add_admins(alice(), charlie()).is_ok());
    assert!(contract.remove_admins(alice(), alice()).is_ok());
    assert!(contract.add_teacher(alice(), eve()).is_err());
    assert_eq!(contract.teachers, [bob()]);
}

#[test]
fn add_students_works() {
    let mut contract = Transcipt::new(alice());
    assert!(contract.add_student(alice(), bob()).is_ok());
    assert!(contract.add_student(alice(), bob()).is_err());
    assert_eq!(contract.students, [bob()]);
    assert_eq!(contract.get_access(bob()), Some([bob()].to_vec()));
    assert!(contract.add_admins(alice(), charlie()).is_ok());
    assert!(contract.remove_admins(alice(), alice()).is_ok());
    assert!(contract.add_student(alice(), eve()).is_err());
}

#[test]
fn add_admins_works() {
    let mut contract = Transcipt::new(alice());
    assert!(contract.add_admins(alice(), bob()).is_ok());
    assert!(contract.add_admins(alice(), bob()).is_err());
    assert_eq!(contract.admins, [alice(), bob()]);
    assert!(contract.remove_admins(alice(), alice()).is_ok());
    assert!(contract.add_admins(alice(), frank()).is_err());
}

#[test]
fn add_classes_works() {
    let mut contract = Transcipt::new(alice());
    assert!(contract.add_teacher(alice(), alice()).is_ok());
    assert!(contract.add_student(alice(), bob()).is_ok());
    assert!(contract.add_classes(alice(), "CS50".to_string(), alice(), [bob()].to_vec()).is_ok());
    assert!(contract.add_classes(alice(), "CS50".to_string(), alice(), [bob()].to_vec()).is_err());
    assert!(contract.add_classes(alice(), "CS51".to_string(), alice(), [eve()].to_vec()).is_err());
    assert!(contract.add_classes(alice(), "CS51".to_string(), eve(), [bob()].to_vec()).is_err());
    assert_eq!(
        contract.get_class(&"CS50".to_string()),
        Some((alice(), [bob()].to_vec()))
    );
    assert!(contract.class_list.contains(&"CS50".to_string()));
    assert!(contract.add_admins(alice(), charlie()).is_ok());
    assert!(contract.remove_admins(alice(), alice()).is_ok());
    assert!(contract.add_classes(alice(), "CS51".to_string(), alice(), [bob()].to_vec()).is_err());
}

#[test]
fn add_score_works() {
    let mut contract = Transcipt::new(alice());
    assert!(contract.add_teacher(alice(), alice()).is_ok());
    assert!(contract.add_teacher(alice(), eve()).is_ok());
    assert!(contract.add_student(alice(), bob()).is_ok());
    assert!(contract.add_classes(alice(), "CS50".to_string(), alice(), [bob()].to_vec()).is_ok());
    assert!(contract.add_classes(alice(), "CS51".to_string(), eve(), [bob()].to_vec()).is_ok());
    assert!(contract.add_score(alice(), "CS50".to_string(), bob(), 2).is_ok());
    assert_eq!(
        contract.get_grades(bob(), &"CS50".to_string()),
        Some([2].to_vec())
    );
    assert_eq!(
        contract
            .access_grades(alice(), "CS50".to_string(), bob())
            .unwrap(),
        [2].to_vec()
    );
    assert!(contract.add_admins(alice(), charlie()).is_ok());
    assert!(contract.remove_admins(alice(), alice()).is_ok());
    assert!(contract.add_score(alice(), "CS50".to_string(), bob(), 3).is_ok());
    assert_eq!(
        contract
            .access_grades(alice(), "CS50".to_string(), bob())
            .unwrap(),
        [2, 3].to_vec()
    );
    assert!(contract.add_score(alice(), "CS51".to_string(), bob(), 3).is_err());
}

#[test]
fn add_accessstudents_works_1() {
    let mut contract = Transcipt::new(alice());
    assert!(contract.add_teacher(alice(), alice()).is_ok());
    assert!(contract.add_teacher(alice(), eve()).is_ok());
    assert!(contract.add_student(alice(), bob()).is_ok());
    assert!(contract.add_classes(alice(), "CS50".to_string(), alice(), [bob()].to_vec()).is_ok());
    assert!(contract.add_score(alice(), "CS50".to_string(), bob(), 2).is_ok());
    assert_eq!(contract.get_access(bob()).unwrap(), [bob()].to_vec());
    assert!(contract.add_accessstudents(alice(), bob(), frank()).is_ok());
    assert_eq!(contract.get_access(bob()).unwrap(), [bob(), frank()].to_vec());
    assert!(contract.add_accessstudents(alice(), bob(), frank()).is_err());
    assert!(contract.add_admins(alice(), charlie()).is_ok());
    assert!(contract.remove_admins(alice(), alice()).is_ok());
    assert!(contract.add_accessstudents(alice(), bob(), charlie()).is_ok());
}

#[test]
fn add_accessstudents_works_2() {
    let mut contract = Transcipt::new(alice());
    assert!(contract.add_teacher(alice(), alice()).is_ok());
    assert!(contract.add_teacher(alice(), eve()).is_ok());
    assert!(contract.add_student(alice(), bob()).is_ok());
    assert!(contract.add_classes(alice(), "CS50".to_string(), eve(), [bob()].to_vec()).is_ok());
    assert_eq!(contract.get_access(bob()).unwrap(), [bob()].to_vec());
    assert!(contract.add_accessstudents(alice(), bob(), frank()).is_ok());
    assert_eq!(contract.get_access(bob()).unwrap(), [bob(), frank()].to_vec());
    assert!(contract.add_accessstudents(alice(), bob(), frank()).is_err());
    assert!(contract.add_admins(alice(), charlie()).is_ok());
    assert!(contract.remove_teacher(alice(), alice()).is_ok());
    assert!(contract.remove_admins(alice(), alice()).is_ok());
    assert!(contract.add_accessstudents(alice(), bob(), charlie()).is_err());
}

#[test]
fn add_access_grades_works() {
    let mut contract = Transcipt::new(alice());
    assert!(contract.add_teacher(alice(), alice()).is_ok());
    assert!(contract.add_student(alice(), alice()).is_ok());
    assert!(contract.add_teacher(alice(), eve()).is_ok());
    assert!(contract.add_student(alice(), bob()).is_ok());
    assert!(contract.add_classes(alice(), "CS50".to_string(), alice(), [bob()].to_vec()).is_ok());
    assert!(contract.add_classes(alice(), "CS51".to_string(), eve(), [alice()].to_vec()).is_ok());
    assert!(contract.add_classes(alice(), "CS52".to_string(), eve(), [bob()].to_vec()).is_ok());
    assert!(contract.add_score(alice(), "CS50".to_string(), bob(), 2).is_ok());
    assert_eq!(
        contract
            .access_grades(alice(), "CS50".to_string(), bob())
            .unwrap(),
        [2].to_vec()
    );
    assert!(contract.add_admins(alice(), charlie()).is_ok());
    assert!(contract.remove_teacher(alice(), alice()).is_ok());
    assert!(contract.remove_admins(alice(), alice()).is_ok());
    assert_eq!(
        contract
            .access_grades(alice(), "CS51".to_string(), alice())
            .unwrap(),
        Vec::<u8>::new()
    );
    assert!(contract.access_grades(alice(), "CS52".to_string(), bob()).is_err());
}

#[test]
fn remove_access_grades_works() {
    let mut contract = Transcipt::new(alice());
    assert!(contract.add_teacher(alice(), alice()).is_ok());
    assert!(contract.add_student(alice(), alice()).is_ok());
    assert!(contract.add_teacher(alice(), eve()).is_ok());
    assert!(contract.add_student(alice(), bob()).is_ok());
    assert!(contract.add_classes(alice(), "CS51".to_string(), eve(), [alice()].to_vec()).is_ok());
    assert!(contract.add_admins(alice(), charlie()).is_ok());
    assert!(contract.remove_teacher(alice(), alice()).is_ok());
    assert!(contract.remove_admins(alice(), alice()).is_ok());
    assert_eq!(
        contract
            .access_grades(alice(), "CS51".to_string(), alice())
            .unwrap(),
        Vec::<u8>::new()
    );
    assert!(contract.remove_accessstudents(alice(), alice(), alice()).is_err());
    assert!(contract.access_grades(alice(), "CS51".to_string(), alice()).is_ok());
}

#[test]
fn remove_classes_works() {
    let mut contract = Transcipt::new(alice());
    assert!(contract.add_teacher(alice(), alice()).is_ok());
    assert!(contract.add_student(alice(), bob()).is_ok());
    assert!(contract.add_student(alice(), eve()).is_ok());
    assert!(contract.add_classes(alice(), "CS50".to_string(), alice(), [bob()].to_vec()).is_ok());
    assert!(contract.add_classes(alice(), "CS51".to_string(), alice(), [eve()].to_vec()).is_ok());
    assert_eq!(
        contract.get_class(&"CS50".to_string()),
        Some((alice(), [bob()].to_vec()))
    );
    assert!(contract.class_list.contains(&"CS50".to_string()));
    assert!(contract.remove_classes(alice(), "CS50".to_string()).is_ok());
    assert!(!contract.class_list.contains(&"CS50".to_string()));
    assert!(contract.class_list.contains(&"CS51".to_string()));
    assert!(contract.add_admins(alice(), charlie()).is_ok());
    assert!(contract.remove_admins(alice(), alice()).is_ok());
    assert!(contract.remove_classes(alice(), "CS51".to_string()).is_err());
}

#[test]
fn enroll_unenroll_student_works() {
    let mut contract = Transcipt::new(alice());
    assert!(contract.add_teacher(alice(), alice()).is_ok());
    assert!(contract.add_student(alice(), bob()).is_ok());
    assert!(contract.add_student(alice(), eve()).is_ok());
    assert!(contract.add_classes(alice(), "CS50".to_string(), alice(), [bob()].to_vec()).is_ok());
    assert_eq!(
        contract.get_class(&"CS50".to_string()),
        Some((alice(), [bob()].to_vec()))
    );
    assert!(contract.enroll_student(alice(), "CS50".to_string(), eve()).is_ok());
    assert_eq!(
        contract.get_class(&"CS50".to_string()),
        Some((alice(), [bob(), eve()].to_vec()))
    );
    assert!(contract.enroll_student(alice(), "CS50".to_string(), eve()).is_err());
    assert!(contract.enroll_student(alice(), "CS50".to_string(), charlie()).is_err());
    assert!(contract.unenroll_student(alice(), "CS50".to_string(), eve()).is_ok());
    assert_eq!(
        contract.get_class(&"CS50".to_string()),
        Some((alice(), [bob()].to_vec()))
    );
    assert!(contract.add_admins(alice(), charlie()).is_ok());
    assert!(contract.remove_admins(alice(), alice()).is_ok());
    assert!(contract.enroll_student(alice(), "CS50".to_string(), eve()).is_err());
}

#[test]
fn change_teacher_works() {
    let mut contract = Transcipt::new(alice());
    assert!(contract.add_teacher(alice(), alice()).is_ok());
    assert!(contract.add_teacher(alice(), eve()).is_ok());
    assert!(contract.add_student(alice(), bob()).is_ok());
    assert!(contract.add_classes(alice(), "CS50".to_string(), alice(), [bob()].to_vec()).is_ok());
    assert_eq!(
        contract.get_class(&"CS50".to_string()),
        Some((alice(), [bob()].to_vec()))
    );
    assert!(contract.change_teacher(alice(), "CS50".to_string(), eve()).is_ok());
    assert_eq!(
        contract.get_class(&"CS50".to_string()),
        Some((eve(), [bob()].to_vec()))
    );
    assert!(contract.change_teacher(alice(), "CS50".to_string(), charlie()).is_err());
    assert!(contract.change_teacher(alice(), "CS50".to_string(), bob()).is_err());
    assert!(contract.add_admins(alice(), charlie()).is_ok());
    assert!(contract.remove_admins(alice(), alice()).is_ok());
    assert!(contract.change_teacher(alice(), "CS50".to_string(), alice()).is_err());
}

#[test]
fn remove_teacher_works() {
    let mut contract = Transcipt::new(alice());
    assert!(contract.add_teacher(alice(), bob()).is_ok());
    assert!(contract.add_teacher(alice(), charlie()).is_ok());
    assert_eq!(contract.teachers, [bob(), charlie()]);
    assert!(contract.remove_teacher(alice(), charlie()).is_ok());
    assert_eq!(contract.teachers, [bob()]);
    assert!(contract.add_admins(alice(), charlie()).is_ok());
    assert!(contract.remove_admins(alice(), alice()).is_ok());
    assert!(contract.remove_teacher(alice(), charlie()).is_err());
}

#[test]
fn remove_student_works() {
    let mut contract = Transcipt::new(alice());
    assert!(contract.add_teacher(alice(), alice()).is_ok());
    assert!(contract.add_student(alice(), eve()).is_ok());
    assert!(contract.add_student(alice(), bob()).is_ok());
    assert!(contract
        .add_classes(alice(), "CS50".to_string(), alice(), [bob(), eve()].to_vec())
        .is_ok());
    assert_eq!(
        contract.get_class(&"CS50".to_string()),
        Some((alice(), [bob(), eve()].to_vec()))
    );
    assert!(contract.add_score(alice(), "CS50".to_string(), bob(), 2).is_ok());
    assert!(contract.add_score(alice(), "CS50".to_string(), eve(), 3).is_ok());
    assert_eq!(
        contract.get_grades(bob(), &"CS50".to_string()),
        Some([2].to_vec())
    );
    assert_eq!(
        contract.get_grades(eve(), &"CS50".to_string()),
        Some([3].to_vec())
    );
    assert!(contract.remove_student(alice(), bob()).is_ok());
    assert_eq!(
        contract.get_class(&"CS50".to_string()),
        Some((alice(), [eve()].to_vec()))
    );
    assert_eq!(contract.get_grades(bob(), &"CS50".to_string()), None);
    assert_eq!(
        contract.get_grades(eve(), &"CS50".to_string()),
        Some([3].to_vec())
    );
    assert!(!contract.students.contains(&bob()));
    assert!(contract.add_admins(alice(), charlie()).is_ok());
    assert!(contract.remove_admins(alice(), alice()).is_ok());
    assert!(contract.remove_student(alice(), eve()).is_err());
}
