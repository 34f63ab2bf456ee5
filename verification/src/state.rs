//! The record keeper's state: the three role sets, the class roster
//! store, the grade ledger and the access-grant directory, together
//! with the abstract view and the well-formedness invariant that every
//! command preserves.

use vstd::prelude::*;

use crate::AccountId;
use crate::assoc::{assoc_map, distinct_keys, seq_distinct};

verus! {

/// One class: its unique name, the assigned teacher and the roster of
/// enrolled students.
pub struct ClassEntry {
    pub name: String,
    pub teacher: AccountId,
    pub roster: Vec<AccountId>,
}

/// The scores one student has received in one class, in the order they
/// were recorded.
pub struct GradeEntry {
    pub student: AccountId,
    pub class_name: String,
    pub scores: Vec<u8>,
}

/// The accounts permitted to read one student's grades.
pub struct AccessEntry {
    pub student: AccountId,
    pub viewers: Vec<AccountId>,
}

/// The abstract state: role sets as sequences, the three stores as
/// finite maps keyed by plain values.
#[verifier::ext_equal]
pub ghost struct StateView {
    pub admins: Seq<AccountId>,
    pub teachers: Seq<AccountId>,
    pub students: Seq<AccountId>,
    pub class_list: Seq<Seq<char>>,
    pub classes: Map<Seq<char>, (AccountId, Seq<AccountId>)>,
    pub grades: Map<(AccountId, Seq<char>), Seq<u8>>,
    pub access: Map<AccountId, Seq<AccountId>>,
}

/// The academic-record keeper. Commands check the caller's capability
/// first and mutate the stores only when every check passes.
pub struct Transcipt {
    pub admins: Vec<AccountId>,
    pub teachers: Vec<AccountId>,
    pub students: Vec<AccountId>,
    pub class_list: Vec<String>,
    pub classes: Vec<ClassEntry>,
    pub grades: Vec<GradeEntry>,
    pub accessstudents: Vec<AccessEntry>,
}

/// The class store read as key-value pairs over plain values.
pub open spec fn class_pairs(s: Seq<ClassEntry>) -> Seq<(Seq<char>, (AccountId, Seq<AccountId>))> {
    s.map_values(|e: ClassEntry| (e.name@, (e.teacher, e.roster@)))
}

/// The grade ledger read as key-value pairs over plain values.
pub open spec fn grade_pairs(s: Seq<GradeEntry>) -> Seq<((AccountId, Seq<char>), Seq<u8>)> {
    s.map_values(|e: GradeEntry| ((e.student, e.class_name@), e.scores@))
}

/// The grant directory read as key-value pairs over plain values.
pub open spec fn access_pairs(s: Seq<AccessEntry>) -> Seq<(AccountId, Seq<AccountId>)> {
    s.map_values(|e: AccessEntry| (e.student, e.viewers@))
}

impl View for Transcipt {
    type V = StateView;

    open spec fn view(&self) -> StateView {
        StateView {
            admins: self.admins@,
            teachers: self.teachers@,
            students: self.students@,
            class_list: self.class_list.deep_view(),
            classes: assoc_map(class_pairs(self.classes@)),
            grades: assoc_map(grade_pairs(self.grades@)),
            access: assoc_map(access_pairs(self.accessstudents@)),
        }
    }
}

impl Transcipt {
    /// The concrete stores carry each key at most once, and the active
    /// class list names exactly the stored classes, each once.
    pub open spec fn stores_wf(&self) -> bool {
        &&& distinct_keys(class_pairs(self.classes@))
        &&& distinct_keys(grade_pairs(self.grades@))
        &&& distinct_keys(access_pairs(self.accessstudents@))
    }

    /// The full invariant every command requires and preserves.
    pub open spec fn wf(&self) -> bool {
        &&& self.stores_wf()
        &&& state_wf(self@)
    }
}

/// The relational invariants of the abstract state:
/// - at least one administrator remains, and no role set holds an id twice;
/// - the active class list names exactly the stored classes, each once;
/// - every roster is duplicate-free and enrolls only registered students;
/// - a grade record exists only for an enrolled (student, class) pair;
/// - every registered student has an access-grant entry, and no grant
///   list names a viewer twice.
pub open spec fn state_wf(s: StateView) -> bool {
    &&& s.admins.len() >= 1
    &&& seq_distinct(s.admins)
    &&& seq_distinct(s.teachers)
    &&& seq_distinct(s.students)
    &&& seq_distinct(s.class_list)
    &&& forall|i: int|
        0 <= i < s.class_list.len() ==> #[trigger] s.classes.contains_key(s.class_list[i])
    &&& forall|k: Seq<char>| #[trigger] s.classes.contains_key(k) ==> s.class_list.contains(k)
    &&& forall|k: Seq<char>| #[trigger] s.classes.contains_key(k) ==> {
        &&& seq_distinct(s.classes[k].1)
        &&& forall|a: AccountId| #[trigger] s.classes[k].1.contains(a) ==> s.students.contains(a)
    }
    &&& forall|gk: (AccountId, Seq<char>)| #[trigger] s.grades.contains_key(gk) ==> {
        &&& s.classes.contains_key(gk.1)
        &&& s.classes[gk.1].1.contains(gk.0)
    }
    &&& forall|a: AccountId| #[trigger] s.students.contains(a) ==> s.access.contains_key(a)
    &&& forall|a: AccountId| #[trigger] s.access.contains_key(a) ==> seq_distinct(s.access[a])
}

/// The state a fresh contract starts in: the creator is the only
/// administrator and every store is empty.
pub open spec fn initial_state(creator: AccountId) -> StateView {
    StateView {
        admins: seq![creator],
        teachers: Seq::empty(),
        students: Seq::empty(),
        class_list: Seq::empty(),
        classes: Map::empty(),
        grades: Map::empty(),
        access: Map::empty(),
    }
}

/// Administrator capability: membership in the admin set.
pub open spec fn is_admin(s: StateView, a: AccountId) -> bool {
    s.admins.contains(a)
}

/// Teacher role: membership in the teacher set.
pub open spec fn is_teacher(s: StateView, a: AccountId) -> bool {
    s.teachers.contains(a)
}

/// Student role: membership in the student set.
pub open spec fn is_student(s: StateView, a: AccountId) -> bool {
    s.students.contains(a)
}

/// Who may read a student's grades: any teacher, any administrator,
/// or an account on that student's access-grant list.
pub open spec fn can_view(s: StateView, caller: AccountId, student: AccountId) -> bool {
    ||| is_teacher(s, caller)
    ||| is_admin(s, caller)
    ||| (s.access.contains_key(student) && s.access[student].contains(caller))
}

/// The recorded scores of a student in a class, an empty sequence
/// where no record exists.
pub open spec fn grades_of(s: StateView, student: AccountId, class: Seq<char>) -> Seq<u8> {
    if s.grades.contains_key((student, class)) {
        s.grades[(student, class)]
    } else {
        Seq::empty()
    }
}

/// Whether an account occurs in a list of accounts.
pub fn contains_account(v: &Vec<AccountId>, x: AccountId) -> (r: bool)
    ensures
        r == v@.contains(x),
{
    let mut i: usize = 0;
    while i < v.len()
        invariant
            0 <= i <= v@.len(),
            forall|j: int| 0 <= j < i ==> v@[j] != x,
        decreases v@.len() - i,
    {
        if v[i] == x {
            proof {
                assert(v@[i as int] == x);
            }
            return true;
        }
        i = i + 1;
    }
    false
}

/// The index of the first occurrence of an account, if any.
pub fn position_account(v: &Vec<AccountId>, x: AccountId) -> (r: Option<usize>)
    ensures
        match r {
            Some(i) => i < v@.len() && v@[i as int] == x && (forall|j: int|
                0 <= j < i ==> v@[j] != x),
            None => !v@.contains(x),
        },
{
    let mut i: usize = 0;
    while i < v.len()
        invariant
            0 <= i <= v@.len(),
            forall|j: int| 0 <= j < i ==> v@[j] != x,
        decreases v@.len() - i,
    {
        if v[i] == x {
            return Some(i);
        }
        i = i + 1;
    }
    None
}

/// Whether every account in a request list is a member of a role list.
pub fn all_members(roles: &Vec<AccountId>, ids: &Vec<AccountId>) -> (r: bool)
    ensures
        r == (forall|i: int| 0 <= i < ids@.len() ==> roles@.contains(ids@[i])),
{
    let mut i: usize = 0;
    while i < ids.len()
        invariant
            0 <= i <= ids@.len(),
            forall|j: int| 0 <= j < i ==> roles@.contains(ids@[j]),
        decreases ids@.len() - i,
    {
        if !contains_account(roles, ids[i]) {
            return false;
        }
        i = i + 1;
    }
    true
}

/// Whether a list of accounts names some account twice.
#[verifier::loop_isolation(false)]
pub fn has_duplicate(ids: &Vec<AccountId>) -> (r: bool)
    ensures
        r == !crate::assoc::seq_distinct(ids@),
{
    let mut i: usize = 0;
    while i < ids.len()
        invariant
            0 <= i <= ids@.len(),
            forall|p: int, q: int| 0 <= p < q < i ==> ids@[p] != ids@[q],
        decreases ids@.len() - i,
    {
        let mut j: usize = 0;
        while j < i
            invariant
                0 <= j <= i,
                forall|q: int| 0 <= q < j ==> ids@[q] != ids@[i as int],
            decreases i - j,
        {
            if ids[j] == ids[i] {
                return true;
            }
            j = j + 1;
        }
        i = i + 1;
    }
    false
}

/// A fresh copy of a list of accounts.
pub fn copy_accounts(v: &Vec<AccountId>) -> (r: Vec<AccountId>)
    ensures
        r@ == v@,
{
    let mut r: Vec<AccountId> = Vec::new();
    let mut i: usize = 0;
    while i < v.len()
        invariant
            0 <= i <= v@.len(),
            r@ == v@.subrange(0, i as int),
        decreases v@.len() - i,
    {
        r.push(v[i]);
        proof {
            assert(r@ =~= v@.subrange(0, i + 1));
        }
        i = i + 1;
    }
    proof {
        assert(r@ =~= v@);
    }
    r
}

/// A fresh copy of a list of scores.
pub fn copy_scores(v: &Vec<u8>) -> (r: Vec<u8>)
    ensures
        r@ == v@,
{
    let mut r: Vec<u8> = Vec::new();
    let mut i: usize = 0;
    while i < v.len()
        invariant
            0 <= i <= v@.len(),
            r@ == v@.subrange(0, i as int),
        decreases v@.len() - i,
    {
        r.push(v[i]);
        proof {
            assert(r@ =~= v@.subrange(0, i + 1));
        }
        i = i + 1;
    }
    proof {
        assert(r@ =~= v@);
    }
    r
}

/// The index of the first class-list entry that reads as the given
/// name, if any.
pub fn position_class_name(v: &Vec<String>, name: &String) -> (r: Option<usize>)
    ensures
        match r {
            Some(i) => i < v@.len() && v.deep_view()[i as int] == name@ && (forall|j: int|
                0 <= j < i ==> v.deep_view()[j] != name@),
            None => !v.deep_view().contains(name@),
        },
{
    let mut i: usize = 0;
    while i < v.len()
        invariant
            0 <= i <= v@.len(),
            forall|j: int| 0 <= j < i ==> v.deep_view()[j] != name@,
        decreases v@.len() - i,
    {
        if v[i] == *name {
            proof {
                assert(v.deep_view()[i as int] == name@);
            }
            return Some(i);
        }
        proof {
            assert(v.deep_view()[i as int] == v@[i as int]@);
        }
        i = i + 1;
    }
    proof {
        if v.deep_view().contains(name@) {
            let j = choose|j: int| 0 <= j < v.deep_view().len() && v.deep_view()[j] == name@;
            assert(v.deep_view()[j] == name@);
        }
    }
    None
}

impl Transcipt {
    /// The index of the class entry with the given name, if any.
    /// With distinct keys the entry found is the map's binding.
    pub fn find_class(&self, name: &String) -> (r: Option<usize>)
        requires
            crate::assoc::distinct_keys(class_pairs(self.classes@)),
        ensures
            match r {
                Some(i) => {
                    &&& i < self.classes@.len()
                    &&& self.classes@[i as int].name@ == name@
                    &&& self@.classes.contains_key(name@)
                    &&& self@.classes[name@] == (
                        self.classes@[i as int].teacher,
                        self.classes@[i as int].roster@,
                    )
                },
                None => !self@.classes.contains_key(name@),
            },
    {
        let ghost pairs = class_pairs(self.classes@);
        let mut i: usize = 0;
        while i < self.classes.len()
            invariant
                0 <= i <= self.classes@.len(),
                pairs == class_pairs(self.classes@),
                crate::assoc::distinct_keys(pairs),
                forall|j: int| 0 <= j < i ==> pairs[j].0 != name@,
            decreases self.classes@.len() - i,
        {
            if self.classes[i].name == *name {
                proof {
                    assert(pairs[i as int].0 == name@);
                    crate::assoc::lemma_assoc_map_index(pairs, i as int);
                }
                return Some(i);
            }
            proof {
                assert(pairs[i as int].0 == self.classes@[i as int].name@);
            }
            i = i + 1;
        }
        proof {
            crate::assoc::lemma_assoc_map_dom(pairs);
        }
        None
    }

    /// The index of the grade entry for one (student, class) pair,
    /// if any.
    pub fn find_grade(&self, student: AccountId, name: &String) -> (r: Option<usize>)
        requires
            crate::assoc::distinct_keys(grade_pairs(self.grades@)),
        ensures
            match r {
                Some(i) => {
                    &&& i < self.grades@.len()
                    &&& self.grades@[i as int].student == student
                    &&& self.grades@[i as int].class_name@ == name@
                    &&& self@.grades.contains_key((student, name@))
                    &&& self@.grades[(student, name@)] == self.grades@[i as int].scores@
                },
                None => !self@.grades.contains_key((student, name@)),
            },
    {
        let ghost pairs = grade_pairs(self.grades@);
        let mut i: usize = 0;
        while i < self.grades.len()
            invariant
                0 <= i <= self.grades@.len(),
                pairs == grade_pairs(self.grades@),
                crate::assoc::distinct_keys(pairs),
                forall|j: int| 0 <= j < i ==> pairs[j].0 != (student, name@),
            decreases self.grades@.len() - i,
        {
            if self.grades[i].student == student && self.grades[i].class_name == *name {
                proof {
                    assert(pairs[i as int].0 == (student, name@));
                    crate::assoc::lemma_assoc_map_index(pairs, i as int);
                }
                return Some(i);
            }
            proof {
                assert(pairs[i as int].0 == (
                    self.grades@[i as int].student,
                    self.grades@[i as int].class_name@,
                ));
            }
            i = i + 1;
        }
        proof {
            crate::assoc::lemma_assoc_map_dom(pairs);
        }
        None
    }

    /// The index of a student's access-grant entry, if any.
    pub fn find_access(&self, student: AccountId) -> (r: Option<usize>)
        requires
            crate::assoc::distinct_keys(access_pairs(self.accessstudents@)),
        ensures
            match r {
                Some(i) => {
                    &&& i < self.accessstudents@.len()
                    &&& self.accessstudents@[i as int].student == student
                    &&& self@.access.contains_key(student)
                    &&& self@.access[student] == self.accessstudents@[i as int].viewers@
                },
                None => !self@.access.contains_key(student),
            },
    {
        let ghost pairs = access_pairs(self.accessstudents@);
        let mut i: usize = 0;
        while i < self.accessstudents.len()
            invariant
                0 <= i <= self.accessstudents@.len(),
                pairs == access_pairs(self.accessstudents@),
                crate::assoc::distinct_keys(pairs),
                forall|j: int| 0 <= j < i ==> pairs[j].0 != student,
            decreases self.accessstudents@.len() - i,
        {
            if self.accessstudents[i].student == student {
                proof {
                    assert(pairs[i as int].0 == student);
                    crate::assoc::lemma_assoc_map_index(pairs, i as int);
                }
                return Some(i);
            }
            proof {
                assert(pairs[i as int].0 == self.accessstudents@[i as int].student);
            }
            i = i + 1;
        }
        proof {
            crate::assoc::lemma_assoc_map_dom(pairs);
        }
        None
    }
}

impl Transcipt {
    /// The teacher and roster of a class, or `None` where no class
    /// carries the name.
    pub fn get_class(&self, name: &String) -> (r: Option<(AccountId, Vec<AccountId>)>)
        requires
            self.wf(),
        ensures
            match r {
                Some(t) => self@.classes.contains_key(name@) && t.0 == self@.classes[name@].0
                    && t.1@ == self@.classes[name@].1,
                None => !self@.classes.contains_key(name@),
            },
    {
        match self.find_class(name) {
            Some(ci) => Some(
                (self.classes[ci].teacher, copy_accounts(&self.classes[ci].roster)),
            ),
            None => None,
        }
    }

    /// The recorded scores of a student in a class, or `None` where
    /// no grade record exists for the pair.
    pub fn get_grades(&self, student_id: AccountId, name: &String) -> (r: Option<Vec<u8>>)
        requires
            self.wf(),
        ensures
            match r {
                Some(v) => self@.grades.contains_key((student_id, name@)) && v@
                    == self@.grades[(student_id, name@)],
                None => !self@.grades.contains_key((student_id, name@)),
            },
    {
        match self.find_grade(student_id, name) {
            Some(gi) => Some(copy_scores(&self.grades[gi].scores)),
            None => None,
        }
    }

    /// The accounts permitted to read a student's grades, or `None`
    /// where the student has no grant list.
    pub fn get_access(&self, student_id: AccountId) -> (r: Option<Vec<AccountId>>)
        requires
            self.wf(),
        ensures
            match r {
                Some(v) => self@.access.contains_key(student_id) && v@
                    == self@.access[student_id],
                None => !self@.access.contains_key(student_id),
            },
    {
        match self.find_access(student_id) {
            Some(ai) => Some(copy_accounts(&self.accessstudents[ai].viewers)),
            None => None,
        }
    }

    /// Create a new record keeper whose only administrator is the
    /// account that created it.
    pub fn new(creator: AccountId) -> (r: Transcipt)
        ensures
            r.wf(),
            r@ == initial_state(creator),
    {
        let mut admins: Vec<AccountId> = Vec::new();
        admins.push(creator);
        let r = Transcipt {
            admins,
            teachers: Vec::new(),
            students: Vec::new(),
            class_list: Vec::new(),
            classes: Vec::new(),
            grades: Vec::new(),
            accessstudents: Vec::new(),
        };
        proof {
            assert(r@ =~= initial_state(creator));
            assert(r.class_list.deep_view() =~= Seq::<Seq<char>>::empty());
        }
        r
    }
}

} // verus!
