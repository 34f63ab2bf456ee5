//! The class roster store: creating and removing classes, enrolling
//! and unenrolling students, and reassigning a class's teacher. All
//! five commands require administrator capability, checked before any
//! lookup.

use vstd::prelude::*;

use crate::assoc::{
    assoc_map, distinct_keys, lemma_assoc_map_dom, lemma_assoc_map_push, lemma_assoc_map_remove,
    lemma_assoc_map_update, lemma_distinct_keys_push, lemma_push_contains,
    lemma_push_keeps_distinct, lemma_remove_value_at, lemma_remove_value_facts, seq_distinct,
};
use crate::state::{
    all_members, class_pairs, contains_account, grade_pairs, has_duplicate, is_admin, is_student,
    is_teacher, position_account, position_class_name, state_wf, ClassEntry, GradeEntry, StateView,
    Transcipt,
};
use crate::{AccountId, Error};

verus! {

/// Why `add_classes` fails, or `None` when it succeeds: administrator
/// capability, a registered teacher, a duplicate-free roster of
/// registered students, and a name no active class holds.
pub open spec fn add_classes_check(
    s: StateView,
    caller: AccountId,
    name: Seq<char>,
    teacher_id: AccountId,
    student_ids: Seq<AccountId>,
) -> Option<Error> {
    if !is_admin(s, caller) {
        Some(Error::AccessNotAllowed)
    } else if !(is_teacher(s, teacher_id) && (forall|i: int|
        0 <= i < student_ids.len() ==> s.students.contains(student_ids[i])) && seq_distinct(
        student_ids,
    ) && !s.classes.contains_key(name)) {
        Some(Error::InvalidInput)
    } else {
        None
    }
}

/// What a successful `add_classes` does: records the class under its
/// name and adds the name to the active list.
pub open spec fn add_classes_apply(
    s: StateView,
    name: Seq<char>,
    teacher_id: AccountId,
    student_ids: Seq<AccountId>,
) -> StateView {
    StateView {
        class_list: s.class_list.push(name),
        classes: s.classes.insert(name, (teacher_id, student_ids)),
        ..s
    }
}

/// Why `remove_classes` fails, or `None` when it succeeds: a missing
/// class is a caller error.
pub open spec fn remove_classes_check(s: StateView, caller: AccountId, name: Seq<char>) -> Option<
    Error,
> {
    if !is_admin(s, caller) {
        Some(Error::AccessNotAllowed)
    } else if !s.classes.contains_key(name) {
        Some(Error::InvalidInput)
    } else {
        None
    }
}

/// What a successful `remove_classes` does: deletes every grade
/// record of the class, the class record itself and its name on the
/// active list.
pub open spec fn remove_classes_apply(s: StateView, name: Seq<char>) -> StateView {
    StateView {
        class_list: s.class_list.remove_value(name),
        classes: s.classes.remove(name),
        grades: s.grades.remove_keys(Set::new(|gk: (AccountId, Seq<char>)| gk.1 == name)),
        ..s
    }
}

/// Why `enroll_student` fails, or `None` when it succeeds: the class
/// must exist, the id must be a registered student, and the student
/// must not already be on the roster.
pub open spec fn enroll_student_check(
    s: StateView,
    caller: AccountId,
    name: Seq<char>,
    student_id: AccountId,
) -> Option<Error> {
    if !is_admin(s, caller) {
        Some(Error::AccessNotAllowed)
    } else if !s.classes.contains_key(name) {
        Some(Error::InvalidInput)
    } else if !(is_student(s, student_id) && !s.classes[name].1.contains(student_id)) {
        Some(Error::InvalidInput)
    } else {
        None
    }
}

/// What a successful `enroll_student` does: appends the student to
/// the roster and opens an empty grade record for the pair.
pub open spec fn enroll_student_apply(
    s: StateView,
    name: Seq<char>,
    student_id: AccountId,
) -> StateView {
    StateView {
        classes: s.classes.insert(name, (s.classes[name].0, s.classes[name].1.push(student_id))),
        grades: s.grades.insert((student_id, name), Seq::empty()),
        ..s
    }
}

/// Why `unenroll_student` fails, or `None` when it succeeds: the
/// class must exist and the id must be a registered student currently
/// on the roster.
pub open spec fn unenroll_student_check(
    s: StateView,
    caller: AccountId,
    name: Seq<char>,
    student_id: AccountId,
) -> Option<Error> {
    if !is_admin(s, caller) {
        Some(Error::AccessNotAllowed)
    } else if !s.classes.contains_key(name) {
        Some(Error::InvalidInput)
    } else if !(is_student(s, student_id) && s.classes[name].1.contains(student_id)) {
        Some(Error::InvalidInput)
    } else {
        None
    }
}

/// What a successful `unenroll_student` does: takes the student off
/// the roster and deletes the pair's grade record.
pub open spec fn unenroll_student_apply(
    s: StateView,
    name: Seq<char>,
    student_id: AccountId,
) -> StateView {
    StateView {
        classes: s.classes.insert(
            name,
            (s.classes[name].0, s.classes[name].1.remove_value(student_id)),
        ),
        grades: s.grades.remove((student_id, name)),
        ..s
    }
}

/// Why `change_teacher` fails, or `None` when it succeeds: the new
/// teacher must be registered and the class must exist.
pub open spec fn change_teacher_check(
    s: StateView,
    caller: AccountId,
    name: Seq<char>,
    teacher_id: AccountId,
) -> Option<Error> {
    if !is_admin(s, caller) {
        Some(Error::AccessNotAllowed)
    } else if !is_teacher(s, teacher_id) {
        Some(Error::InvalidInput)
    } else if !s.classes.contains_key(name) {
        Some(Error::InvalidInput)
    } else {
        None
    }
}

/// What a successful `change_teacher` does: replaces the class's
/// teacher and keeps its roster.
pub open spec fn change_teacher_apply(
    s: StateView,
    name: Seq<char>,
    teacher_id: AccountId,
) -> StateView {
    StateView { classes: s.classes.insert(name, (teacher_id, s.classes[name].1)), ..s }
}

impl Transcipt {
    /// Create a class under a fresh name, assigning a registered
    /// teacher and an initial roster of registered students.
    /// Administrator capability required.
    pub fn add_classes(
        &mut self,
        caller: AccountId,
        class_name: String,
        teacher_id: AccountId,
        student_ids: Vec<AccountId>,
    ) -> (r: Result<(), Error>)
        requires
            old(self).wf(),
        ensures
            final(self).wf(),
            ({
                let s = old(self)@;
                match add_classes_check(s, caller, class_name@, teacher_id, student_ids@) {
                    Some(e) => r == Err::<(), Error>(e) && final(self)@ == s,
                    None => r == Ok::<(), Error>(()) && final(self)@ == add_classes_apply(
                        s,
                        class_name@,
                        teacher_id,
                        student_ids@,
                    ),
                }
            }),
    {
        if !contains_account(&self.admins, caller) {
            return Err(Error::AccessNotAllowed);
        }
        if !contains_account(&self.teachers, teacher_id) {
            return Err(Error::InvalidInput);
        }
        if !all_members(&self.students, &student_ids) {
            return Err(Error::InvalidInput);
        }
        if has_duplicate(&student_ids) {
            return Err(Error::InvalidInput);
        }
        if self.find_class(&class_name).is_some() {
            return Err(Error::InvalidInput);
        }
        let ghost pairs0 = class_pairs(self.classes@);
        let ghost list0 = self.class_list.deep_view();
        let name_for_entry = class_name.clone();
        self.classes.push(ClassEntry { name: name_for_entry, teacher: teacher_id, roster: student_ids });
        self.class_list.push(class_name);
        proof {
            assert(class_pairs(self.classes@) =~= pairs0.push(
                (class_name@, (teacher_id, student_ids@)),
            ));
            lemma_distinct_keys_push(pairs0, (class_name@, (teacher_id, student_ids@)));
            lemma_assoc_map_push(pairs0, (class_name@, (teacher_id, student_ids@)));
            assert(self.class_list.deep_view() =~= list0.push(class_name@));
            assert(!list0.contains(class_name@));
            lemma_push_keeps_distinct(list0, class_name@);
            assert(self@ =~= add_classes_apply(old(self)@, class_name@, teacher_id, student_ids@));
            let s1 = self@;
            assert forall|i: int| 0 <= i < self.class_list@.len() implies
                #[trigger] s1.classes.contains_key(self.class_list.deep_view()[i]) by {
                if i < list0.len() {
                    assert(old(self)@.classes.contains_key(list0[i]));
                }
            }
            lemma_push_contains(list0, class_name@);
        }
        Ok(())
    }

    /// Remove a class: every grade record of the class goes with it,
    /// and the name leaves the active list. Administrator capability
    /// required; a missing class is a caller error.
    #[verifier::loop_isolation(false)]
    pub fn remove_classes(&mut self, caller: AccountId, class_name: String) -> (r: Result<
        (),
        Error,
    >)
        requires
            old(self).wf(),
        ensures
            final(self).wf(),
            ({
                let s = old(self)@;
                match remove_classes_check(s, caller, class_name@) {
                    Some(e) => r == Err::<(), Error>(e) && final(self)@ == s,
                    None => r == Ok::<(), Error>(()) && final(self)@ == remove_classes_apply(
                        s,
                        class_name@,
                    ),
                }
            }),
    {
        if !contains_account(&self.admins, caller) {
            return Err(Error::AccessNotAllowed);
        }
        let ci = match self.find_class(&class_name) {
            Some(ci) => ci,
            None => {
                return Err(Error::InvalidInput);
            },
        };
        let ghost gm0 = self@.grades;
        let ghost dropped = Set::new(|gk: (AccountId, Seq<char>)| gk.1 == class_name@);
        // Delete every grade record kept for this class.
        let mut i: usize = 0;
        while i < self.grades.len()
            invariant
                self.admins == old(self).admins,
                self.teachers == old(self).teachers,
                self.students == old(self).students,
                self.class_list == old(self).class_list,
                self.classes == old(self).classes,
                self.accessstudents == old(self).accessstudents,
                distinct_keys(grade_pairs(self.grades@)),
                i <= self.grades@.len(),
                forall|j: int| 0 <= j < i ==> grade_pairs(self.grades@)[j].0.1 != class_name@,
                forall|k: (AccountId, Seq<char>)|
                    #[trigger] self@.grades.contains_key(k) ==> gm0.contains_key(k)
                        && self@.grades[k] == gm0[k],
                forall|k: (AccountId, Seq<char>)|
                    k.1 != class_name@ && #[trigger] gm0.contains_key(k)
                        ==> self@.grades.contains_key(k),
            decreases self.grades@.len() - i,
        {
            if self.grades[i].class_name == class_name {
                let ghost prev = grade_pairs(self.grades@);
                let ghost prevm = self@.grades;
                self.grades.remove(i);
                proof {
                    assert(prev[i as int].0.1 == class_name@);
                    assert(grade_pairs(self.grades@) =~= prev.remove(i as int));
                    lemma_assoc_map_remove(prev, i as int);
                    assert(self@.grades == prevm.remove(prev[i as int].0));
                    assert forall|k: (AccountId, Seq<char>)|
                        #[trigger] self@.grades.contains_key(k) implies gm0.contains_key(k)
                            && self@.grades[k] == gm0[k] by {
                        assert(prevm.contains_key(k));
                    }
                    assert forall|k: (AccountId, Seq<char>)|
                        k.1 != class_name@ && #[trigger] gm0.contains_key(k)
                            implies self@.grades.contains_key(k) by {
                        assert(prevm.contains_key(k));
                        assert(k != prev[i as int].0);
                    }
                }
            } else {
                proof {
                    assert(grade_pairs(self.grades@)[i as int].0.1 == self.grades@[i as int].class_name@);
                }
                i = i + 1;
            }
        }
        proof {
            lemma_assoc_map_dom(grade_pairs(self.grades@));
            assert forall|k: (AccountId, Seq<char>)|
                #[trigger] self@.grades.contains_key(k) implies !dropped.contains(k) by {
                if k.1 == class_name@ {
                    let j = choose|j: int|
                        0 <= j < grade_pairs(self.grades@).len() && grade_pairs(self.grades@)[j].0
                            == k;
                    assert(grade_pairs(self.grades@)[j].0.1 == class_name@);
                }
            }
            assert(self@.grades =~= gm0.remove_keys(dropped));
        }
        // Delete the class record itself.
        let ghost cp = class_pairs(self.classes@);
        self.classes.remove(ci);
        proof {
            assert(class_pairs(self.classes@) =~= cp.remove(ci as int));
            lemma_assoc_map_remove(cp, ci as int);
        }
        // Take the name off the active list; it is there because the
        // class was stored.
        match position_class_name(&self.class_list, &class_name) {
            Some(li) => {
                let ghost list0 = self.class_list.deep_view();
                self.class_list.remove(li);
                proof {
                    assert(self.class_list.deep_view() =~= list0.remove(li as int));
                    lemma_remove_value_at(list0, class_name@, li as int);
                    lemma_remove_value_facts(list0, class_name@);
                }
            },
            None => {
                proof {
                    assert(old(self)@.classes.contains_key(class_name@));
                    assert(false);
                }
            },
        }
        proof {
            let s0 = old(self)@;
            let s1 = self@;
            assert(s1 =~= remove_classes_apply(s0, class_name@));
            lemma_remove_value_facts(s0.class_list, class_name@);
            assert(state_wf(s1)) by {
                assert forall|gk: (AccountId, Seq<char>)|
                    #[trigger] s1.grades.contains_key(gk) implies {
                    &&& s1.classes.contains_key(gk.1)
                    &&& s1.classes[gk.1].1.contains(gk.0)
                } by {
                    assert(s0.grades.contains_key(gk));
                    assert(gk.1 != class_name@);
                }
            }
            assert(self.stores_wf()) by {
                assert forall|i: int| 0 <= i < self.class_list@.len() implies
                    #[trigger] s1.classes.contains_key(self.class_list.deep_view()[i]) by {
                    assert(s0.class_list.contains(self.class_list.deep_view()[i]));
                    assert(s1.class_list.contains(self.class_list.deep_view()[i]));
                    assert(self.class_list.deep_view()[i] != class_name@);
                }
            }
        }
        Ok(())
    }

    /// Enroll a registered student in an existing class and open an
    /// empty grade record for the pair. Administrator capability
    /// required; a student already on the roster is rejected.
    pub fn enroll_student(&mut self, caller: AccountId, class_name: String, student_id: AccountId)
        -> (r: Result<(), Error>)
        requires
            old(self).wf(),
        ensures
            final(self).wf(),
            ({
                let s = old(self)@;
                match enroll_student_check(s, caller, class_name@, student_id) {
                    Some(e) => r == Err::<(), Error>(e) && final(self)@ == s,
                    None => r == Ok::<(), Error>(()) && final(self)@ == enroll_student_apply(
                        s,
                        class_name@,
                        student_id,
                    ),
                }
            }),
    {
        if !contains_account(&self.admins, caller) {
            return Err(Error::AccessNotAllowed);
        }
        let ci = match self.find_class(&class_name) {
            Some(ci) => ci,
            None => {
                return Err(Error::InvalidInput);
            },
        };
        if !contains_account(&self.students, student_id) {
            return Err(Error::InvalidInput);
        }
        if contains_account(&self.classes[ci].roster, student_id) {
            return Err(Error::InvalidInput);
        }
        let ghost cp0 = class_pairs(self.classes@);
        let ghost rost = self.classes@[ci as int].roster@;
        let ghost teach = self.classes@[ci as int].teacher;
        self.classes[ci].roster.push(student_id);
        proof {
            assert(class_pairs(self.classes@) =~= cp0.update(
                ci as int,
                (class_name@, (teach, rost.push(student_id))),
            ));
            lemma_assoc_map_update(cp0, ci as int, (class_name@, (teach, rost.push(student_id))));
        }
        let ghost gp0 = grade_pairs(self.grades@);
        proof {
            assert(!old(self)@.grades.contains_key((student_id, class_name@)));
            lemma_assoc_map_dom(gp0);
        }
        self.grades.push(GradeEntry { student: student_id, class_name, scores: Vec::new() });
        proof {
            assert(grade_pairs(self.grades@) =~= gp0.push(
                ((student_id, class_name@), Seq::empty()),
            ));
            lemma_distinct_keys_push(gp0, ((student_id, class_name@), Seq::<u8>::empty()));
            lemma_assoc_map_push(gp0, ((student_id, class_name@), Seq::<u8>::empty()));
            let s0 = old(self)@;
            let s1 = self@;
            assert(s1 =~= enroll_student_apply(s0, class_name@, student_id));
            lemma_push_keeps_distinct(rost, student_id);
            lemma_push_contains(rost, student_id);
            assert(state_wf(s1)) by {
                assert forall|k: Seq<char>| #[trigger] s1.classes.contains_key(k) implies {
                    &&& seq_distinct(s1.classes[k].1)
                    &&& forall|a: AccountId|
                        #[trigger] s1.classes[k].1.contains(a) ==> s1.students.contains(a)
                } by {
                    if k != class_name@ {
                        assert(s0.classes.contains_key(k));
                        assert(s1.classes[k] == s0.classes[k]);
                    }
                }
                assert forall|gk: (AccountId, Seq<char>)|
                    #[trigger] s1.grades.contains_key(gk) implies {
                    &&& s1.classes.contains_key(gk.1)
                    &&& s1.classes[gk.1].1.contains(gk.0)
                } by {
                    if gk != (student_id, class_name@) {
                        assert(s0.grades.contains_key(gk));
                        if gk.1 == class_name@ {
                            assert(s0.classes[gk.1].1.contains(gk.0));
                        }
                    }
                }
            }
        }
        Ok(())
    }

    /// Unenroll a student from a class and delete the pair's grade
    /// record. Administrator capability required; the id must be a
    /// registered student currently on the roster.
    pub fn unenroll_student(
        &mut self,
        caller: AccountId,
        class_name: String,
        student_id: AccountId,
    ) -> (r: Result<(), Error>)
        requires
            old(self).wf(),
        ensures
            final(self).wf(),
            ({
                let s = old(self)@;
                match unenroll_student_check(s, caller, class_name@, student_id) {
                    Some(e) => r == Err::<(), Error>(e) && final(self)@ == s,
                    None => r == Ok::<(), Error>(()) && final(self)@ == unenroll_student_apply(
                        s,
                        class_name@,
                        student_id,
                    ),
                }
            }),
    {
        if !contains_account(&self.admins, caller) {
            return Err(Error::AccessNotAllowed);
        }
        let ci = match self.find_class(&class_name) {
            Some(ci) => ci,
            None => {
                return Err(Error::InvalidInput);
            },
        };
        if !contains_account(&self.students, student_id) {
            return Err(Error::InvalidInput);
        }
        let ghost cp0 = class_pairs(self.classes@);
        let ghost rost = self.classes@[ci as int].roster@;
        let ghost teach = self.classes@[ci as int].teacher;
        let pidx = match position_account(&self.classes[ci].roster, student_id) {
            Some(pidx) => pidx,
            None => {
                return Err(Error::InvalidInput);
            },
        };
        proof {
            lemma_remove_value_at(rost, student_id, pidx as int);
            lemma_remove_value_facts(rost, student_id);
        }
        self.classes[ci].roster.remove(pidx);
        proof {
            assert(class_pairs(self.classes@) =~= cp0.update(
                ci as int,
                (class_name@, (teach, rost.remove_value(student_id))),
            ));
            lemma_assoc_map_update(
                cp0,
                ci as int,
                (class_name@, (teach, rost.remove_value(student_id))),
            );
        }
        let ghost gp0 = grade_pairs(self.grades@);
        let ghost gm0 = assoc_map(gp0);
        match self.find_grade(student_id, &class_name) {
            Some(gi) => {
                self.grades.remove(gi);
                proof {
                    assert(grade_pairs(self.grades@) =~= gp0.remove(gi as int));
                    lemma_assoc_map_remove(gp0, gi as int);
                }
            },
            None => {
                proof {
                    assert(self@.grades =~= gm0.remove((student_id, class_name@)));
                }
            },
        }
        proof {
            let s0 = old(self)@;
            let s1 = self@;
            assert(s1 =~= unenroll_student_apply(s0, class_name@, student_id));
            assert(state_wf(s1)) by {
                assert forall|k: Seq<char>| #[trigger] s1.classes.contains_key(k) implies {
                    &&& seq_distinct(s1.classes[k].1)
                    &&& forall|a: AccountId|
                        #[trigger] s1.classes[k].1.contains(a) ==> s1.students.contains(a)
                } by {
                    if k != class_name@ {
                        assert(s0.classes.contains_key(k));
                        assert(s1.classes[k] == s0.classes[k]);
                    }
                }
                assert forall|gk: (AccountId, Seq<char>)|
                    #[trigger] s1.grades.contains_key(gk) implies {
                    &&& s1.classes.contains_key(gk.1)
                    &&& s1.classes[gk.1].1.contains(gk.0)
                } by {
                    assert(gk != (student_id, class_name@));
                    assert(s0.grades.contains_key(gk));
                    if gk.1 == class_name@ {
                        assert(gk.0 != student_id);
                        assert(s0.classes[gk.1].1.contains(gk.0));
                    }
                }
            }
        }
        Ok(())
    }

    /// Assign another registered teacher to an existing class,
    /// keeping its roster. Administrator capability required.
    pub fn change_teacher(&mut self, caller: AccountId, class_name: String, teacher_id: AccountId)
        -> (r: Result<(), Error>)
        requires
            old(self).wf(),
        ensures
            final(self).wf(),
            ({
                let s = old(self)@;
                match change_teacher_check(s, caller, class_name@, teacher_id) {
                    Some(e) => r == Err::<(), Error>(e) && final(self)@ == s,
                    None => r == Ok::<(), Error>(()) && final(self)@ == change_teacher_apply(
                        s,
                        class_name@,
                        teacher_id,
                    ),
                }
            }),
    {
        if !contains_account(&self.admins, caller) {
            return Err(Error::AccessNotAllowed);
        }
        if !contains_account(&self.teachers, teacher_id) {
            return Err(Error::InvalidInput);
        }
        let ci = match self.find_class(&class_name) {
            Some(ci) => ci,
            None => {
                return Err(Error::InvalidInput);
            },
        };
        let ghost cp0 = class_pairs(self.classes@);
        let ghost rost = self.classes@[ci as int].roster@;
        self.classes[ci].teacher = teacher_id;
        proof {
            assert(class_pairs(self.classes@) =~= cp0.update(
                ci as int,
                (class_name@, (teacher_id, rost)),
            ));
            lemma_assoc_map_update(cp0, ci as int, (class_name@, (teacher_id, rost)));
            let s0 = old(self)@;
            let s1 = self@;
            assert(s1 =~= change_teacher_apply(s0, class_name@, teacher_id));
            assert(state_wf(s1)) by {
                assert forall|k: Seq<char>| #[trigger] s1.classes.contains_key(k) implies {
                    &&& seq_distinct(s1.classes[k].1)
                    &&& forall|a: AccountId|
                        #[trigger] s1.classes[k].1.contains(a) ==> s1.students.contains(a)
                } by {
                    assert(s0.classes.contains_key(k));
                    if k != class_name@ {
                        assert(s1.classes[k] == s0.classes[k]);
                    } else {
                        assert(s1.classes[k].1 == s0.classes[k].1);
                    }
                }
                assert forall|gk: (AccountId, Seq<char>)|
                    #[trigger] s1.grades.contains_key(gk) implies {
                    &&& s1.classes.contains_key(gk.1)
                    &&& s1.classes[gk.1].1.contains(gk.0)
                } by {
                    assert(s0.grades.contains_key(gk));
                    assert(s1.classes[gk.1].1 == s0.classes[gk.1].1);
                }
            }
        }
        Ok(())
    }
}

} // verus!
