//! The role registry: administrators, teachers and students, with the
//! admin-gated commands that add and remove them. Removing a student
//! cascades into the roster store, the grade ledger and the grant
//! directory.

use vstd::prelude::*;

use crate::assoc::{
    distinct_keys, lemma_assoc_map_dom, lemma_assoc_map_map_values, lemma_assoc_map_push,
    lemma_assoc_map_remove, lemma_assoc_map_update, lemma_distinct_keys_push, lemma_push_contains,
    lemma_push_keeps_distinct, lemma_remove_value_absent, lemma_remove_value_at,
    lemma_remove_value_facts, seq_distinct,
};
use crate::state::{
    access_pairs, class_pairs, contains_account, grade_pairs, is_admin, is_student, is_teacher,
    position_account, state_wf, AccessEntry, StateView, Transcipt,
};
use crate::{AccountId, Error};

verus! {

/// Why `add_teacher` fails, or `None` when it succeeds: only an
/// administrator may call it, and only a new id may be added.
pub open spec fn add_teacher_check(s: StateView, caller: AccountId, t: AccountId) -> Option<Error> {
    if !is_admin(s, caller) {
        Some(Error::AccessNotAllowed)
    } else if is_teacher(s, t) {
        Some(Error::InvalidInput)
    } else {
        None
    }
}

/// What a successful `add_teacher` does: appends the id to the
/// teacher set and touches nothing else.
pub open spec fn add_teacher_apply(s: StateView, t: AccountId) -> StateView {
    StateView { teachers: s.teachers.push(t), ..s }
}

/// Why `add_admins` fails, or `None` when it succeeds.
pub open spec fn add_admins_check(s: StateView, caller: AccountId, a: AccountId) -> Option<Error> {
    if !is_admin(s, caller) {
        Some(Error::AccessNotAllowed)
    } else if is_admin(s, a) {
        Some(Error::InvalidInput)
    } else {
        None
    }
}

/// What a successful `add_admins` does: appends the id to the admin set.
pub open spec fn add_admins_apply(s: StateView, a: AccountId) -> StateView {
    StateView { admins: s.admins.push(a), ..s }
}

/// Why `add_student` fails, or `None` when it succeeds.
pub open spec fn add_student_check(s: StateView, caller: AccountId, a: AccountId) -> Option<
    Error,
> {
    if !is_admin(s, caller) {
        Some(Error::AccessNotAllowed)
    } else if is_student(s, a) {
        Some(Error::InvalidInput)
    } else {
        None
    }
}

/// What a successful `add_student` does: appends the id to the student
/// set and seeds the student's access-grant list with the student's
/// own id.
pub open spec fn add_student_apply(s: StateView, a: AccountId) -> StateView {
    StateView { students: s.students.push(a), access: s.access.insert(a, seq![a]), ..s }
}

/// Why `remove_teacher` fails, or `None` when it succeeds: classes
/// that reference the removed teacher keep that reference.
pub open spec fn remove_teacher_check(s: StateView, caller: AccountId, t: AccountId) -> Option<
    Error,
> {
    if !is_admin(s, caller) {
        Some(Error::AccessNotAllowed)
    } else if !is_teacher(s, t) {
        Some(Error::InvalidInput)
    } else {
        None
    }
}

/// What a successful `remove_teacher` does: drops the id from the
/// teacher set; class records are not touched.
pub open spec fn remove_teacher_apply(s: StateView, t: AccountId) -> StateView {
    StateView { teachers: s.teachers.remove_value(t), ..s }
}

/// Why `remove_admins` fails, or `None` when it succeeds: the caller
/// must be an administrator and at least two must remain before the
/// removal, so the set can never be emptied. An id that is not an
/// administrator leaves the set unchanged.
pub open spec fn remove_admins_check(s: StateView, caller: AccountId, a: AccountId) -> Option<
    Error,
> {
    if !(is_admin(s, caller) && s.admins.len() >= 2) {
        Some(Error::AccessNotAllowed)
    } else {
        None
    }
}

/// What a successful `remove_admins` does: drops the id from the
/// admin set, a no-op when it was not there.
pub open spec fn remove_admins_apply(s: StateView, a: AccountId) -> StateView {
    StateView { admins: s.admins.remove_value(a), ..s }
}

/// Why `remove_student` fails, or `None` when it succeeds.
pub open spec fn remove_student_check(s: StateView, caller: AccountId, a: AccountId) -> Option<
    Error,
> {
    if !is_admin(s, caller) {
        Some(Error::AccessNotAllowed)
    } else if !is_student(s, a) {
        Some(Error::InvalidInput)
    } else {
        None
    }
}

/// What a successful `remove_student` does: the student leaves the
/// student set, every class roster, the grade ledger and the grant
/// directory in one step.
pub open spec fn remove_student_apply(s: StateView, a: AccountId) -> StateView {
    StateView {
        students: s.students.remove_value(a),
        classes: s.classes.map_values(
            |v: (AccountId, Seq<AccountId>)| (v.0, v.1.remove_value(a)),
        ),
        grades: s.grades.remove_keys(Set::new(|gk: (AccountId, Seq<char>)| gk.0 == a)),
        access: s.access.remove(a),
        ..s
    }
}

impl Transcipt {
    /// Register a new teacher. Administrator capability required;
    /// an id that is already a teacher is rejected.
    pub fn add_teacher(&mut self, caller: AccountId, teacher_id: AccountId) -> (r: Result<
        (),
        Error,
    >)
        requires
            old(self).wf(),
        ensures
            final(self).wf(),
            ({
                let s = old(self)@;
                match add_teacher_check(s, caller, teacher_id) {
                    Some(e) => r == Err::<(), Error>(e) && final(self)@ == s,
                    None => r == Ok::<(), Error>(()) && final(self)@ == add_teacher_apply(
                        s,
                        teacher_id,
                    ),
                }
            }),
    {
        if !contains_account(&self.admins, caller) {
            return Err(Error::AccessNotAllowed);
        }
        if contains_account(&self.teachers, teacher_id) {
            return Err(Error::InvalidInput);
        }
        self.teachers.push(teacher_id);
        proof {
            lemma_push_keeps_distinct(old(self).teachers@, teacher_id);
            assert(self@ =~= add_teacher_apply(old(self)@, teacher_id));
        }
        Ok(())
    }

    /// Register a new administrator. Administrator capability
    /// required; an id that is already an administrator is rejected.
    pub fn add_admins(&mut self, caller: AccountId, admin_id: AccountId) -> (r: Result<(), Error>)
        requires
            old(self).wf(),
        ensures
            final(self).wf(),
            ({
                let s = old(self)@;
                match add_admins_check(s, caller, admin_id) {
                    Some(e) => r == Err::<(), Error>(e) && final(self)@ == s,
                    None => r == Ok::<(), Error>(()) && final(self)@ == add_admins_apply(
                        s,
                        admin_id,
                    ),
                }
            }),
    {
        if !contains_account(&self.admins, caller) {
            return Err(Error::AccessNotAllowed);
        }
        if contains_account(&self.admins, admin_id) {
            return Err(Error::InvalidInput);
        }
        self.admins.push(admin_id);
        proof {
            lemma_push_keeps_distinct(old(self).admins@, admin_id);
            assert(self@ =~= add_admins_apply(old(self)@, admin_id));
        }
        Ok(())
    }

    /// Register a new student and seed the student's access-grant
    /// list with the student's own id. Administrator capability
    /// required; an id that is already a student is rejected.
    pub fn add_student(&mut self, caller: AccountId, student_id: AccountId) -> (r: Result<
        (),
        Error,
    >)
        requires
            old(self).wf(),
        ensures
            final(self).wf(),
            ({
                let s = old(self)@;
                match add_student_check(s, caller, student_id) {
                    Some(e) => r == Err::<(), Error>(e) && final(self)@ == s,
                    None => r == Ok::<(), Error>(()) && final(self)@ == add_student_apply(
                        s,
                        student_id,
                    ),
                }
            }),
    {
        if !contains_account(&self.admins, caller) {
            return Err(Error::AccessNotAllowed);
        }
        if contains_account(&self.students, student_id) {
            return Err(Error::InvalidInput);
        }
        self.students.push(student_id);
        let mut viewers: Vec<AccountId> = Vec::new();
        viewers.push(student_id);
        proof {
            assert(viewers@ =~= seq![student_id]);
        }
        let ghost pairs0 = access_pairs(self.accessstudents@);
        match self.find_access(student_id) {
            Some(i) => {
                self.accessstudents[i] = AccessEntry { student: student_id, viewers };
                proof {
                    assert(access_pairs(self.accessstudents@) =~= pairs0.update(
                        i as int,
                        (student_id, seq![student_id]),
                    ));
                    lemma_assoc_map_update(pairs0, i as int, (student_id, seq![student_id]));
                }
            },
            None => {
                self.accessstudents.push(AccessEntry { student: student_id, viewers });
                proof {
                    assert(access_pairs(self.accessstudents@) =~= pairs0.push(
                        (student_id, seq![student_id]),
                    ));
                    lemma_distinct_keys_push(pairs0, (student_id, seq![student_id]));
                    lemma_assoc_map_push(pairs0, (student_id, seq![student_id]));
                }
            },
        }
        proof {
            lemma_push_keeps_distinct(old(self).students@, student_id);
            lemma_push_contains(old(self).students@, student_id);
            assert(self@ =~= add_student_apply(old(self)@, student_id));
            assert(state_wf(self@)) by {
                let s0 = old(self)@;
                let s1 = self@;
                assert(forall|k: Seq<char>| #[trigger] s1.classes.contains_key(k) ==> forall|
                    a: AccountId,
                |
                    #[trigger] s1.classes[k].1.contains(a) ==> s1.students.contains(a));
                assert(forall|a: AccountId| #[trigger] s1.students.contains(a)
                    ==> s1.access.contains_key(a));
                assert(forall|a: AccountId| #[trigger] s1.access.contains_key(a) ==> seq_distinct(
                    s1.access[a],
                ));
            }
        }
        Ok(())
    }

    /// Remove a teacher. Administrator capability required; an id
    /// that is not a teacher is rejected. Classes keep a removed
    /// teacher's id until an administrator assigns another.
    pub fn remove_teacher(&mut self, caller: AccountId, teacher_id: AccountId) -> (r: Result<
        (),
        Error,
    >)
        requires
            old(self).wf(),
        ensures
            final(self).wf(),
            ({
                let s = old(self)@;
                match remove_teacher_check(s, caller, teacher_id) {
                    Some(e) => r == Err::<(), Error>(e) && final(self)@ == s,
                    None => r == Ok::<(), Error>(()) && final(self)@ == remove_teacher_apply(
                        s,
                        teacher_id,
                    ),
                }
            }),
    {
        if !contains_account(&self.admins, caller) {
            return Err(Error::AccessNotAllowed);
        }
        match position_account(&self.teachers, teacher_id) {
            Some(i) => {
                proof {
                    lemma_remove_value_at(self.teachers@, teacher_id, i as int);
                    lemma_remove_value_facts(self.teachers@, teacher_id);
                }
                self.teachers.remove(i);
                proof {
                    assert(self@ =~= remove_teacher_apply(old(self)@, teacher_id));
                }
                Ok(())
            },
            None => Err(Error::InvalidInput),
        }
    }

    /// Remove an administrator, refused whenever fewer than two
    /// administrators remain, so the set is never emptied. Removing
    /// an id that is not an administrator succeeds and changes
    /// nothing.
    pub fn remove_admins(&mut self, caller: AccountId, admin_id: AccountId) -> (r: Result<
        (),
        Error,
    >)
        requires
            old(self).wf(),
        ensures
            final(self).wf(),
            ({
                let s = old(self)@;
                match remove_admins_check(s, caller, admin_id) {
                    Some(e) => r == Err::<(), Error>(e) && final(self)@ == s,
                    None => r == Ok::<(), Error>(()) && final(self)@ == remove_admins_apply(
                        s,
                        admin_id,
                    ),
                }
            }),
    {
        let caller_is_admin = contains_account(&self.admins, caller);
        if !(caller_is_admin && self.admins.len() >= 2) {
            return Err(Error::AccessNotAllowed);
        }
        match position_account(&self.admins, admin_id) {
            Some(i) => {
                proof {
                    lemma_remove_value_at(self.admins@, admin_id, i as int);
                    lemma_remove_value_facts(self.admins@, admin_id);
                }
                self.admins.remove(i);
                proof {
                    assert(self@ =~= remove_admins_apply(old(self)@, admin_id));
                }
            },
            None => {
                proof {
                    lemma_remove_value_absent(self.admins@, admin_id);
                    assert(self@ =~= remove_admins_apply(old(self)@, admin_id));
                }
            },
        }
        Ok(())
    }

    /// Remove a student together with all derived state: every grade
    /// record of the student, the student's place on every roster,
    /// and the student's access-grant entry. Administrator capability
    /// required; an id that is not a student is rejected.
    #[verifier::loop_isolation(false)]
    pub fn remove_student(&mut self, caller: AccountId, student_id: AccountId) -> (r: Result<
        (),
        Error,
    >)
        requires
            old(self).wf(),
        ensures
            final(self).wf(),
            ({
                let s = old(self)@;
                match remove_student_check(s, caller, student_id) {
                    Some(e) => r == Err::<(), Error>(e) && final(self)@ == s,
                    None => r == Ok::<(), Error>(()) && final(self)@ == remove_student_apply(
                        s,
                        student_id,
                    ),
                }
            }),
    {
        if !contains_account(&self.admins, caller) {
            return Err(Error::AccessNotAllowed);
        }
        if !contains_account(&self.students, student_id) {
            return Err(Error::InvalidInput);
        }
        let ghost gm0 = self@.grades;
        let ghost dropped = Set::new(|gk: (AccountId, Seq<char>)| gk.0 == student_id);
        // Delete every grade record the student holds.
        let mut i: usize = 0;
        while i < self.grades.len()
            invariant
                self.admins == old(self).admins,
                self.teachers == old(self).teachers,
                self.students == old(self).students,
                self.class_list == old(self).class_list,
                self.classes == old(self).classes,
                self.accessstudents == old(self).accessstudents,
                distinct_keys(grade_pairs(self.grades@)),
                i <= self.grades@.len(),
                forall|j: int| 0 <= j < i ==> grade_pairs(self.grades@)[j].0.0 != student_id,
                forall|k: (AccountId, Seq<char>)|
                    #[trigger] self@.grades.contains_key(k) ==> gm0.contains_key(k)
                        && self@.grades[k] == gm0[k],
                forall|k: (AccountId, Seq<char>)|
                    k.0 != student_id && #[trigger] gm0.contains_key(k)
                        ==> self@.grades.contains_key(k),
            decreases self.grades@.len() - i,
        {
            if self.grades[i].student == student_id {
                let ghost prev = grade_pairs(self.grades@);
                let ghost prevm = self@.grades;
                self.grades.remove(i);
                proof {
                    assert(prev[i as int].0.0 == student_id);
                    assert(grade_pairs(self.grades@) =~= prev.remove(i as int));
                    lemma_assoc_map_remove(prev, i as int);
                    assert(self@.grades == prevm.remove(prev[i as int].0));
                    assert forall|k: (AccountId, Seq<char>)|
                        #[trigger] self@.grades.contains_key(k) implies gm0.contains_key(k)
                            && self@.grades[k] == gm0[k] by {
                        assert(prevm.contains_key(k));
                    }
                    assert forall|k: (AccountId, Seq<char>)|
                        k.0 != student_id && #[trigger] gm0.contains_key(k)
                            implies self@.grades.contains_key(k) by {
                        assert(prevm.contains_key(k));
                        assert(k != prev[i as int].0);
                    }
                }
            } else {
                proof {
                    assert(grade_pairs(self.grades@)[i as int].0.0 == self.grades@[i as int].student);
                }
                i = i + 1;
            }
        }
        proof {
            lemma_assoc_map_dom(grade_pairs(self.grades@));
            assert forall|k: (AccountId, Seq<char>)|
                #[trigger] self@.grades.contains_key(k) implies !dropped.contains(k) by {
                if k.0 == student_id {
                    let j = choose|j: int|
                        0 <= j < grade_pairs(self.grades@).len() && grade_pairs(self.grades@)[j].0
                            == k;
                    assert(grade_pairs(self.grades@)[j].0.0 == student_id);
                }
            }
            assert(self@.grades =~= gm0.remove_keys(dropped));
        }
        let ghost g1 = self.grades@;
        let ghost cp0 = class_pairs(self.classes@);
        let ghost cm0 = self@.classes;
        let ghost shrink = |v: (AccountId, Seq<AccountId>)| (v.0, v.1.remove_value(student_id));
        // Take the student off every class roster.
        let mut i: usize = 0;
        while i < self.classes.len()
            invariant
                self.admins == old(self).admins,
                self.teachers == old(self).teachers,
                self.students == old(self).students,
                self.class_list == old(self).class_list,
                self.accessstudents == old(self).accessstudents,
                self.grades@ == g1,
                self.classes@.len() == cp0.len(),
                i <= cp0.len(),
                forall|j: int| i <= j < cp0.len() ==> class_pairs(self.classes@)[j] == cp0[j],
                forall|j: int|
                    0 <= j < i ==> class_pairs(self.classes@)[j] == (
                        cp0[j].0,
                        shrink(cp0[j].1),
                    ),
            decreases cp0.len() - i,
        {
            let ghost cls_pre = self.classes@;
            let ghost rost = self.classes@[i as int].roster@;
            proof {
                assert(class_pairs(self.classes@)[i as int] == cp0[i as int]);
                assert(rost == cp0[i as int].1.1);
            }
            match position_account(&self.classes[i].roster, student_id) {
                Some(pidx) => {
                    proof {
                        lemma_remove_value_at(rost, student_id, pidx as int);
                    }
                    self.classes[i].roster.remove(pidx);
                },
                None => {
                    proof {
                        lemma_remove_value_absent(rost, student_id);
                    }
                },
            }
            proof {
                assert(forall|j: int|
                    0 <= j < cls_pre.len() && j != i as int ==> self.classes@[j] == cls_pre[j]);
                assert forall|j: int| 0 <= j < i implies class_pairs(self.classes@)[j] == (
                    cp0[j].0,
                    shrink(cp0[j].1),
                ) by {
                    assert(class_pairs(cls_pre)[j] == (cp0[j].0, shrink(cp0[j].1)));
                    assert(self.classes@[j] == cls_pre[j]);
                }
                assert(self.classes@[i as int].roster@ == rost.remove_value(student_id));
                assert(self.classes@[i as int].name@ == cp0[i as int].0);
                assert(self.classes@[i as int].teacher == cp0[i as int].1.0);
                assert(rost == cp0[i as int].1.1);
                assert(class_pairs(self.classes@)[i as int] == (cp0[i as int].0, shrink(
                    cp0[i as int].1,
                )));
            }
            i = i + 1;
        }
        proof {
            lemma_assoc_map_map_values(cp0, class_pairs(self.classes@), shrink);
        }
        // Delete the student's access-grant entry; one exists because
        // the id is a registered student.
        match self.find_access(student_id) {
            Some(ai) => {
                let ghost ap = access_pairs(self.accessstudents@);
                self.accessstudents.remove(ai);
                proof {
                    assert(access_pairs(self.accessstudents@) =~= ap.remove(ai as int));
                    lemma_assoc_map_remove(ap, ai as int);
                }
            },
            None => {
                proof {
                    assert(old(self)@.students.contains(student_id));
                    assert(false);
                }
            },
        }
        // Finally take the id out of the student set itself.
        match position_account(&self.students, student_id) {
            Some(si) => {
                proof {
                    lemma_remove_value_at(self.students@, student_id, si as int);
                    lemma_remove_value_facts(self.students@, student_id);
                }
                self.students.remove(si);
            },
            None => {
                proof {
                    assert(false);
                }
            },
        }
        proof {
            let s0 = old(self)@;
            let s1 = self@;
            assert(s1 =~= remove_student_apply(s0, student_id));
            assert(state_wf(s1)) by {
                lemma_remove_value_facts(s0.students, student_id);
                assert forall|k: Seq<char>| #[trigger] s1.classes.contains_key(k) implies {
                    &&& seq_distinct(s1.classes[k].1)
                    &&& forall|a: AccountId|
                        #[trigger] s1.classes[k].1.contains(a) ==> s1.students.contains(a)
                } by {
                    assert(s0.classes.contains_key(k));
                    assert(s1.classes[k] == shrink(s0.classes[k]));
                    lemma_remove_value_facts(s0.classes[k].1, student_id);
                }
                assert forall|gk: (AccountId, Seq<char>)|
                    #[trigger] s1.grades.contains_key(gk) implies {
                    &&& s1.classes.contains_key(gk.1)
                    &&& s1.classes[gk.1].1.contains(gk.0)
                } by {
                    assert(s0.grades.contains_key(gk));
                    assert(gk.0 != student_id);
                    assert(s1.classes[gk.1] == shrink(s0.classes[gk.1]));
                    lemma_remove_value_facts(s0.classes[gk.1].1, student_id);
                }
                assert forall|a: AccountId| #[trigger] s1.students.contains(a)
                    implies s1.access.contains_key(a) by {
                    assert(s0.students.contains(a) && a != student_id);
                }
            }
            assert(self.stores_wf()) by {
                assert forall|idx: int| 0 <= idx < self.class_list@.len() implies
                    #[trigger] self@.classes.contains_key(self.class_list.deep_view()[idx]) by {
                    assert(cm0.contains_key(old(self).class_list.deep_view()[idx]));
                }
            }
        }
        Ok(())
    }
}
} // verus!
