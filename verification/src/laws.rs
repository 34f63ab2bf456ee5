//! The laws of the record keeper, stated over the same spec functions
//! that the commands' contracts use and proved once for all states and
//! inputs.

use vstd::prelude::*;

use crate::access::{
    remove_accessstudents_apply, remove_accessstudents_check,
};
use crate::assoc::{lemma_remove_value_absent, lemma_remove_value_facts};
use crate::classes::{
    enroll_student_check, remove_classes_apply, unenroll_student_check,
};
use crate::grades::add_score_apply;
use crate::roles::{
    add_student_apply, add_student_check, remove_admins_apply, remove_admins_check,
};
use crate::state::{
    can_view, grades_of, is_admin, is_teacher, state_wf, StateView,
};
use crate::{AccountId, Error};

verus! {

/// Immediately after a successful `add_student(a)`, reading a's own
/// grades is permitted to caller a — in any class, with an empty
/// sequence wherever nothing has been scored.
pub proof fn lemma_add_student_grants_self_view(
    s: StateView,
    caller: AccountId,
    a: AccountId,
    class: Seq<char>,
)
    requires
        add_student_check(s, caller, a) is None,
    ensures
        can_view(add_student_apply(s, a), a, a),
        !s.grades.contains_key((a, class)) ==> grades_of(add_student_apply(s, a), a, class)
            == Seq::<u8>::empty(),
{
    let s1 = add_student_apply(s, a);
    assert(s1.access[a] == seq![a]);
    assert(s1.access[a][0] == a);
    assert(s1.access[a].contains(a));
}

/// `remove_admins` never reduces the administrator count below one:
/// whenever it succeeds, at least one administrator remains.
pub proof fn lemma_remove_admins_keeps_one(s: StateView, caller: AccountId, a: AccountId)
    requires
        remove_admins_check(s, caller, a) is None,
    ensures
        remove_admins_apply(s, a).admins.len() >= 1,
{
    lemma_remove_value_facts(s.admins, a);
}

/// Withdrawing a grant succeeds whether or not the grantee currently
/// holds one: success depends only on the caller's role. And on a
/// well-formed state the removal is idempotent: withdrawing the same
/// grant twice equals withdrawing it once.
pub proof fn lemma_remove_access_idempotent(
    s: StateView,
    caller: AccountId,
    student_id: AccountId,
    g: AccountId,
)
    requires
        state_wf(s),
    ensures
        (remove_accessstudents_check(s, caller) is None) <==> (is_teacher(s, caller) || is_admin(
            s,
            caller,
        )),
        remove_accessstudents_apply(remove_accessstudents_apply(s, student_id, g), student_id, g)
            == remove_accessstudents_apply(s, student_id, g),
{
    let s1 = remove_accessstudents_apply(s, student_id, g);
    if s.access.contains_key(student_id) {
        lemma_remove_value_facts(s.access[student_id], g);
        assert(s1.access[student_id] == s.access[student_id].remove_value(g));
        lemma_remove_value_absent(s1.access[student_id], g);
        assert(s1.access.insert(student_id, s1.access[student_id]) =~= s1.access);
        assert(remove_accessstudents_apply(s1, student_id, g) =~= s1);
    }
}

/// Scores keep the order they were recorded in: two successive
/// `add_score` calls append their two values, in that order, to
/// whatever stood in the record before.
pub proof fn lemma_score_order_preserved(
    s: StateView,
    name: Seq<char>,
    student_id: AccountId,
    g1: u8,
    g2: u8,
)
    ensures
        grades_of(
            add_score_apply(add_score_apply(s, name, student_id, g1), name, student_id, g2),
            student_id,
            name,
        ) == grades_of(s, student_id, name).push(g1).push(g2),
{
}

/// After `remove_classes(c)`, no grade record remains for any
/// (student, c) pair, the name c is no longer on the active class
/// list, and no class record carries it.
pub proof fn lemma_remove_classes_cascade(s: StateView, name: Seq<char>)
    requires
        state_wf(s),
    ensures
        forall|a: AccountId| !remove_classes_apply(s, name).grades.contains_key((a, name)),
        !remove_classes_apply(s, name).class_list.contains(name),
        !remove_classes_apply(s, name).classes.contains_key(name),
{
    lemma_remove_value_facts(s.class_list, name);
    let dropped = Set::new(|gk: (AccountId, Seq<char>)| gk.1 == name);
    assert forall|a: AccountId| !remove_classes_apply(s, name).grades.contains_key(
        (a, name),
    ) by {
        assert(dropped.contains((a, name)));
    }
}

/// Enrollment is exclusive: enrolling a student already on the roster
/// is invalid input, and unenrolling a student who is not on the
/// roster is invalid input, even for a registered student.
pub proof fn lemma_enrollment_exclusive(
    s: StateView,
    caller: AccountId,
    name: Seq<char>,
    student_id: AccountId,
)
    requires
        is_admin(s, caller),
        s.classes.contains_key(name),
    ensures
        s.classes[name].1.contains(student_id) ==> enroll_student_check(s, caller, name, student_id)
            == Some(Error::InvalidInput),
        !s.classes[name].1.contains(student_id) ==> unenroll_student_check(
            s,
            caller,
            name,
            student_id,
        ) == Some(Error::InvalidInput),
{
}

} // verus!
