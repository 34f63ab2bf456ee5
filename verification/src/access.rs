//! The access-grant directory: who, beyond teachers and
//! administrators, may read a student's grades. Grants are extended by
//! teachers, administrators or the student, and withdrawn only by
//! teachers or administrators.

use vstd::prelude::*;

use crate::assoc::{
    lemma_assoc_map_update, lemma_push_keeps_distinct, lemma_remove_value_absent,
    lemma_remove_value_at, lemma_remove_value_facts,
};
use crate::state::{
    access_pairs, contains_account, is_admin, is_teacher, position_account, StateView, Transcipt,
};
use crate::{AccountId, Error};

verus! {

/// Why `add_accessstudents` fails, or `None` when it succeeds: a
/// teacher, an administrator or the student may extend the list; a
/// student never given a grant list is a failure, and so is a grantee
/// already on it.
pub open spec fn add_accessstudents_check(
    s: StateView,
    caller: AccountId,
    student_id: AccountId,
    new_access_id: AccountId,
) -> Option<Error> {
    if !(is_teacher(s, caller) || is_admin(s, caller) || caller == student_id) {
        Some(Error::AccessNotAllowed)
    } else if !s.access.contains_key(student_id) {
        Some(Error::InvalidInput)
    } else if s.access[student_id].contains(new_access_id) {
        Some(Error::InvalidInput)
    } else {
        None
    }
}

/// What a successful `add_accessstudents` does: appends the grantee
/// to the student's list.
pub open spec fn add_accessstudents_apply(
    s: StateView,
    student_id: AccountId,
    new_access_id: AccountId,
) -> StateView {
    StateView {
        access: s.access.insert(student_id, s.access[student_id].push(new_access_id)),
        ..s
    }
}

/// Why `remove_accessstudents` fails, or `None` when it succeeds:
/// only a teacher or an administrator may withdraw a grant — the
/// student may not. Whether the grantee holds a grant is never
/// checked: the removal is idempotent.
pub open spec fn remove_accessstudents_check(s: StateView, caller: AccountId) -> Option<Error> {
    if !(is_teacher(s, caller) || is_admin(s, caller)) {
        Some(Error::AccessNotAllowed)
    } else {
        None
    }
}

/// What a successful `remove_accessstudents` does: drops the grantee
/// from the student's list, and changes nothing when the student has
/// no list or the grantee is not on it.
pub open spec fn remove_accessstudents_apply(
    s: StateView,
    student_id: AccountId,
    remove_access_id: AccountId,
) -> StateView {
    if s.access.contains_key(student_id) {
        StateView {
            access: s.access.insert(
                student_id,
                s.access[student_id].remove_value(remove_access_id),
            ),
            ..s
        }
    } else {
        s
    }
}

impl Transcipt {
    /// Grant an account the right to read a student's grades. The
    /// caller must be a teacher, an administrator or that student,
    /// the student must have a grant list, and the grantee must be
    /// new to it.
    pub fn add_accessstudents(
        &mut self,
        caller: AccountId,
        student_id: AccountId,
        new_access_id: AccountId,
    ) -> (r: Result<(), Error>)
        requires
            old(self).wf(),
        ensures
            final(self).wf(),
            ({
                let s = old(self)@;
                match add_accessstudents_check(s, caller, student_id, new_access_id) {
                    Some(e) => r == Err::<(), Error>(e) && final(self)@ == s,
                    None => r == Ok::<(), Error>(()) && final(self)@ == add_accessstudents_apply(
                        s,
                        student_id,
                        new_access_id,
                    ),
                }
            }),
    {
        if !(contains_account(&self.teachers, caller) || contains_account(&self.admins, caller)
            || caller == student_id) {
            return Err(Error::AccessNotAllowed);
        }
        let ai = match self.find_access(student_id) {
            Some(ai) => ai,
            None => {
                return Err(Error::InvalidInput);
            },
        };
        if contains_account(&self.accessstudents[ai].viewers, new_access_id) {
            return Err(Error::InvalidInput);
        }
        let ghost ap0 = access_pairs(self.accessstudents@);
        let ghost viewers0 = self.accessstudents@[ai as int].viewers@;
        self.accessstudents[ai].viewers.push(new_access_id);
        proof {
            assert(access_pairs(self.accessstudents@) =~= ap0.update(
                ai as int,
                (student_id, viewers0.push(new_access_id)),
            ));
            lemma_assoc_map_update(ap0, ai as int, (student_id, viewers0.push(new_access_id)));
            lemma_push_keeps_distinct(viewers0, new_access_id);
            assert(self@ =~= add_accessstudents_apply(old(self)@, student_id, new_access_id));
        }
        Ok(())
    }

    /// Withdraw an account's right to read a student's grades. Only a
    /// teacher or an administrator may do so; removing a grant that
    /// was never given succeeds and changes nothing.
    pub fn remove_accessstudents(
        &mut self,
        caller: AccountId,
        student_id: AccountId,
        remove_access_id: AccountId,
    ) -> (r: Result<(), Error>)
        requires
            old(self).wf(),
        ensures
            final(self).wf(),
            ({
                let s = old(self)@;
                match remove_accessstudents_check(s, caller) {
                    Some(e) => r == Err::<(), Error>(e) && final(self)@ == s,
                    None => r == Ok::<(), Error>(())
                        && final(self)@ == remove_accessstudents_apply(
                        s,
                        student_id,
                        remove_access_id,
                    ),
                }
            }),
    {
        if !(contains_account(&self.teachers, caller) || contains_account(&self.admins, caller)) {
            return Err(Error::AccessNotAllowed);
        }
        let ai = match self.find_access(student_id) {
            Some(ai) => ai,
            None => {
                return Ok(());
            },
        };
        let ghost ap0 = access_pairs(self.accessstudents@);
        let ghost viewers0 = self.accessstudents@[ai as int].viewers@;
        match position_account(&self.accessstudents[ai].viewers, remove_access_id) {
            Some(pidx) => {
                proof {
                    lemma_remove_value_at(viewers0, remove_access_id, pidx as int);
                    lemma_remove_value_facts(viewers0, remove_access_id);
                }
                self.accessstudents[ai].viewers.remove(pidx);
                proof {
                    assert(access_pairs(self.accessstudents@) =~= ap0.update(
                        ai as int,
                        (student_id, viewers0.remove_value(remove_access_id)),
                    ));
                    lemma_assoc_map_update(
                        ap0,
                        ai as int,
                        (student_id, viewers0.remove_value(remove_access_id)),
                    );
                    assert(self@ =~= remove_accessstudents_apply(
                        old(self)@,
                        student_id,
                        remove_access_id,
                    ));
                }
            },
            None => {
                proof {
                    lemma_remove_value_absent(viewers0, remove_access_id);
                    assert(old(self)@.access.insert(student_id, viewers0) =~= old(self)@.access);
                    assert(self@ =~= remove_accessstudents_apply(
                        old(self)@,
                        student_id,
                        remove_access_id,
                    ));
                }
            },
        }
        Ok(())
    }
}

} // verus!
