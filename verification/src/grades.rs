//! The grade ledger: the class's assigned teacher appends scores, and
//! grades are read back by teachers, administrators and granted
//! viewers. Scores are never reordered or deduplicated.

use vstd::prelude::*;

use crate::assoc::{lemma_assoc_map_push, lemma_assoc_map_update, lemma_distinct_keys_push};
use crate::state::{
    can_view, contains_account, grade_pairs, grades_of, state_wf, GradeEntry, StateView, Transcipt,
};
use crate::{AccountId, Error};

verus! {

/// Why `add_score` fails, or `None` when it succeeds: the class must
/// exist, and only its assigned teacher may score a student on its
/// roster. The class lookup comes before the capability check, so a
/// missing class is reported as invalid input even to a stranger.
pub open spec fn add_score_check(
    s: StateView,
    caller: AccountId,
    name: Seq<char>,
    student_id: AccountId,
) -> Option<Error> {
    if !s.classes.contains_key(name) {
        Some(Error::InvalidInput)
    } else if !(s.classes[name].0 == caller && s.classes[name].1.contains(student_id)) {
        Some(Error::AccessNotAllowed)
    } else {
        None
    }
}

/// What a successful `add_score` does: appends the value to the
/// pair's score sequence, starting one where none exists yet.
pub open spec fn add_score_apply(
    s: StateView,
    name: Seq<char>,
    student_id: AccountId,
    grade: u8,
) -> StateView {
    StateView {
        grades: s.grades.insert((student_id, name), grades_of(s, student_id, name).push(grade)),
        ..s
    }
}

impl Transcipt {
    /// Append a score for a student in a class. Only the class's
    /// assigned teacher may do so, and only for an enrolled student.
    pub fn add_score(
        &mut self,
        caller: AccountId,
        class_name: String,
        student_id: AccountId,
        grade: u8,
    ) -> (r: Result<(), Error>)
        requires
            old(self).wf(),
        ensures
            final(self).wf(),
            ({
                let s = old(self)@;
                match add_score_check(s, caller, class_name@, student_id) {
                    Some(e) => r == Err::<(), Error>(e) && final(self)@ == s,
                    None => r == Ok::<(), Error>(()) && final(self)@ == add_score_apply(
                        s,
                        class_name@,
                        student_id,
                        grade,
                    ),
                }
            }),
    {
        let ci = match self.find_class(&class_name) {
            Some(ci) => ci,
            None => {
                return Err(Error::InvalidInput);
            },
        };
        if !(self.classes[ci].teacher == caller && contains_account(
            &self.classes[ci].roster,
            student_id,
        )) {
            return Err(Error::AccessNotAllowed);
        }
        let ghost gp0 = grade_pairs(self.grades@);
        match self.find_grade(student_id, &class_name) {
            Some(gi) => {
                let ghost scores0 = self.grades@[gi as int].scores@;
                self.grades[gi].scores.push(grade);
                proof {
                    assert(grade_pairs(self.grades@) =~= gp0.update(
                        gi as int,
                        ((student_id, class_name@), scores0.push(grade)),
                    ));
                    lemma_assoc_map_update(
                        gp0,
                        gi as int,
                        ((student_id, class_name@), scores0.push(grade)),
                    );
                    assert(self@ =~= add_score_apply(old(self)@, class_name@, student_id, grade));
                }
            },
            None => {
                let mut scores: Vec<u8> = Vec::new();
                scores.push(grade);
                self.grades.push(
                    GradeEntry { student: student_id, class_name, scores },
                );
                proof {
                    assert(Seq::<u8>::empty().push(grade) =~= seq![grade]);
                    assert(grade_pairs(self.grades@) =~= gp0.push(
                        ((student_id, class_name@), seq![grade]),
                    ));
                    lemma_distinct_keys_push(gp0, ((student_id, class_name@), seq![grade]));
                    lemma_assoc_map_push(gp0, ((student_id, class_name@), seq![grade]));
                    assert(self@ =~= add_score_apply(old(self)@, class_name@, student_id, grade));
                }
            },
        }
        proof {
            let s0 = old(self)@;
            let s1 = self@;
            assert(state_wf(s1)) by {
                assert forall|gk: (AccountId, Seq<char>)|
                    #[trigger] s1.grades.contains_key(gk) implies {
                    &&& s1.classes.contains_key(gk.1)
                    &&& s1.classes[gk.1].1.contains(gk.0)
                } by {
                    if gk != (student_id, class_name@) {
                        assert(s0.grades.contains_key(gk));
                    }
                }
            }
        }
        Ok(())
    }

    /// Read the scores of a student in a class: permitted to any
    /// teacher, any administrator, and anyone on the student's
    /// access-grant list; an empty sequence where no record exists.
    pub fn access_grades(&self, caller: AccountId, class_name: String, student_id: AccountId)
        -> (r: Result<Vec<u8>, Error>)
        requires
            self.wf(),
        ensures
            can_view(self@, caller, student_id) ==> (r matches Ok(v) && v@ == grades_of(
                self@,
                student_id,
                class_name@,
            )),
            !can_view(self@, caller, student_id) ==> r == Err::<Vec<u8>, Error>(
                Error::AccessNotAllowed,
            ),
    {
        let mut permitted = contains_account(&self.teachers, caller) || contains_account(
            &self.admins,
            caller,
        );
        if !permitted {
            permitted = match self.find_access(student_id) {
                Some(ai) => contains_account(&self.accessstudents[ai].viewers, caller),
                None => false,
            };
        }
        if !permitted {
            return Err(Error::AccessNotAllowed);
        }
        match self.find_grade(student_id, &class_name) {
            Some(gi) => Ok(crate::state::copy_scores(&self.grades[gi].scores)),
            None => Ok(Vec::new()),
        }
    }
}

} // verus!
