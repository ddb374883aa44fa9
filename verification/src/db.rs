//! The decisions of the school's user store: who may log in, how a stored
//! user is read back into a profile, and what is stored for a new user.
//! The store itself (a PostgreSQL database) is reached by the caller, which
//! hands over the rows it read and stores the rows made here.
use vstd::prelude::*;

use crate::crypt::{digest_matches, encrypt, hashable, sha256_hex};
use crate::data::{
    gender_flag, gender_of, lemma_gender_flag_roundtrip, lemma_student_classes_trim,
    lemma_student_text_roundtrip, storable_student_classes, student_classes, student_text,
    teacher_classes, teacher_text, Classes, Counts, Gender, IndusStudent, IndusTeacher, IndusUser,
    RoleView, StudentTeacher, StudentView, TeacherView, UserView,
};
use crate::text::trim_str;
use crate::text::trim;

verus! {

/// Why a login was refused.
#[derive(Debug, Clone, Copy, PartialEq, Eq, Structural)]
pub enum LoginFailure {
    NoAccount,
    DuplicateAccounts,
    PasswordMismatch,
}

/// A row of the users table.
pub struct UserRow {
    pub id: i32,
    pub first_name: String,
    pub last_name: String,
    pub gender: bool,
    pub username: String,
    /// The stored form of the password (see `encrypt`).
    pub password: String,
}

/// What a `UserRow` holds.
pub struct UserRowView {
    pub id: i32,
    pub first_name: Seq<char>,
    pub last_name: Seq<char>,
    pub gender: bool,
    pub username: Seq<char>,
    pub password: Seq<char>,
}

impl View for UserRow {
    type V = UserRowView;

    open spec fn view(&self) -> UserRowView {
        UserRowView {
            id: self.id,
            first_name: self.first_name@,
            last_name: self.last_name@,
            gender: self.gender,
            username: self.username@,
            password: self.password@,
        }
    }
}

/// What each row of a list holds.
pub open spec fn row_views(rows: Seq<UserRow>) -> Seq<UserRowView> {
    rows.map_values(|r: UserRow| r@)
}

/// The row of the students table or of the teachers table for a user.
pub enum RoleRow {
    Student { classes: String, grade: i16, section: String },
    Teacher { subject: String, classes: String, hod: bool },
}

/// What a `RoleRow` holds.
pub enum RoleRowView {
    Student { classes: Seq<char>, grade: i16, section: Seq<char> },
    Teacher { subject: Seq<char>, classes: Seq<char>, hod: bool },
}

impl View for RoleRow {
    type V = RoleRowView;

    open spec fn view(&self) -> RoleRowView {
        match self {
            RoleRow::Student { classes, grade, section } => RoleRowView::Student {
                classes: classes@,
                grade: *grade,
                section: section@,
            },
            RoleRow::Teacher { subject, classes, hod } => RoleRowView::Teacher {
                subject: subject@,
                classes: classes@,
                hod: *hod,
            },
        }
    }
}

/// What an optional role row holds.
pub open spec fn role_row_view(r: Option<RoleRow>) -> Option<RoleRowView> {
    match r {
        Some(x) => Some(x@),
        None => None,
    }
}

// ---------------------------------------------------------------------
// Logging in
// ---------------------------------------------------------------------

/// The positions, in order, of the rows whose stored password is `digest`.
pub open spec fn matching_rows(rows: Seq<UserRowView>, digest: Seq<char>) -> Seq<int>
    decreases rows.len(),
{
    if rows.len() == 0 {
        Seq::<int>::empty()
    } else {
        let prev = matching_rows(rows.drop_last(), digest);
        if rows.last().password == digest {
            prev.push(rows.len() - 1)
        } else {
            prev
        }
    }
}

/// Which row logging in with `password` selects, given the rows stored
/// under the user name: none stored, none holding the stored form of
/// `password`, more than one holding it, or the position of the one row
/// that holds it.
pub open spec fn account_result(rows: Seq<UserRowView>, password: Seq<char>) -> Result<
    int,
    LoginFailure,
> {
    let m = matching_rows(rows, sha256_hex(password));
    if rows.len() == 0 {
        Err(LoginFailure::NoAccount)
    } else if m.len() == 0 {
        Err(LoginFailure::PasswordMismatch)
    } else if m.len() > 1 {
        Err(LoginFailure::DuplicateAccounts)
    } else {
        Ok(m[0])
    }
}

/// The outcome of logging in with `password`, given the rows stored under
/// the user name: the failure, or the id of the selected row.
pub open spec fn login_result(rows: Seq<UserRowView>, password: Seq<char>) -> Result<
    i32,
    LoginFailure,
> {
    match account_result(rows, password) {
        Ok(i) => Ok(rows[i].id),
        Err(e) => Err(e),
    }
}

/// The position of the row that logging in with `password` selects, given
/// the rows stored under the user name.
pub fn find_account(rows: &Vec<UserRow>, password: &str) -> (r: Result<usize, LoginFailure>)
    requires
        hashable(password@),
    ensures
        match r {
            Ok(i) => account_result(row_views(rows@), password@) == Ok::<int, LoginFailure>(
                i as int,
            ) && i < rows@.len(),
            Err(e) => account_result(row_views(rows@), password@) == Err::<int, LoginFailure>(e),
        },
{
    let ghost views = row_views(rows@);
    let ghost digest_spec = sha256_hex(password@);
    let digest = encrypt(password);
    let mut count: usize = 0;
    let mut first: usize = 0;
    let mut k: usize = 0;
    assert(views.take(0) =~= Seq::<UserRowView>::empty());
    while k < rows.len()
        invariant
            views == row_views(rows@),
            digest@ == digest_spec,
            k <= rows@.len(),
            count as int == matching_rows(views.take(k as int), digest_spec).len(),
            count <= k,
            count > 0 ==> first < k && first as int == matching_rows(
                views.take(k as int),
                digest_spec,
            )[0],
        decreases rows@.len() - k,
    {
        let ghost before = matching_rows(views.take(k as int), digest_spec);
        assert(views.take(k + 1).drop_last() =~= views.take(k as int));
        assert(views.take(k + 1).last() == rows@[k as int]@);
        if digest_matches(digest.as_str(), rows[k].password.as_str()) {
            if count == 0 {
                first = k;
            }
            count = count + 1;
        }
        k = k + 1;
    }
    assert(views.take(rows@.len() as int) =~= views);
    if rows.len() == 0 {
        Err(LoginFailure::NoAccount)
    } else if count == 0 {
        Err(LoginFailure::PasswordMismatch)
    } else if count > 1 {
        Err(LoginFailure::DuplicateAccounts)
    } else {
        Ok(first)
    }
}

/// Decides a login with `password`, given the rows stored under the user
/// name.
pub fn login_outcome(rows: &Vec<UserRow>, password: &str) -> (r: Result<i32, LoginFailure>)
    requires
        hashable(password@),
    ensures
        r == login_result(row_views(rows@), password@),
{
    match find_account(rows, password) {
        Ok(i) => Ok(rows[i].id),
        Err(e) => Err(e),
    }
}

/// No row holding the digest: no position is found.
proof fn lemma_matching_none(rows: Seq<UserRowView>, digest: Seq<char>)
    requires
        forall|j: int| 0 <= j < rows.len() ==> (#[trigger] rows[j]).password != digest,
    ensures
        matching_rows(rows, digest) == Seq::<int>::empty(),
    decreases rows.len(),
{
    if rows.len() > 0 {
        let d = rows.drop_last();
        assert forall|j: int| 0 <= j < d.len() implies (#[trigger] d[j]).password != digest by {
            assert(d[j] == rows[j]);
        }
        lemma_matching_none(d, digest);
    }
}

/// Exactly one row holding the digest: its position is the one found.
proof fn lemma_matching_unique(rows: Seq<UserRowView>, digest: Seq<char>, i: int)
    requires
        0 <= i < rows.len(),
        rows[i].password == digest,
        forall|j: int| 0 <= j < rows.len() && j != i ==> (#[trigger] rows[j]).password != digest,
    ensures
        matching_rows(rows, digest) == seq![i],
    decreases rows.len(),
{
    let d = rows.drop_last();
    if i == rows.len() - 1 {
        assert forall|j: int| 0 <= j < d.len() implies (#[trigger] d[j]).password != digest by {
            assert(d[j] == rows[j]);
        }
        lemma_matching_none(d, digest);
        assert(Seq::<int>::empty().push(i) =~= seq![i]);
    } else {
        assert(d[i] == rows[i]);
        assert forall|j: int| 0 <= j < d.len() && j != i implies (#[trigger] d[j]).password
            != digest by {
            assert(d[j] == rows[j]);
        }
        lemma_matching_unique(d, digest, i);
    }
}

/// Of the rows stored under a user name, the one row that holds the stored
/// form of `password` is the one that logs in, whatever other rows (with
/// other passwords) are stored under the same name.
pub proof fn lemma_login_selects_matching_row(rows: Seq<UserRowView>, password: Seq<char>, i: int)
    requires
        0 <= i < rows.len(),
        rows[i].password == sha256_hex(password),
        forall|j: int|
            0 <= j < rows.len() && j != i ==> (#[trigger] rows[j]).password != sha256_hex(
                password,
            ),
    ensures
        login_result(rows, password) == Ok::<i32, LoginFailure>(rows[i].id),
{
    lemma_matching_unique(rows, sha256_hex(password), i);
}

/// Rows exist under the user name but none holds the stored form of
/// `password`: the password does not match.
pub proof fn lemma_login_wrong_password(rows: Seq<UserRowView>, password: Seq<char>)
    requires
        rows.len() > 0,
        forall|j: int| 0 <= j < rows.len() ==> (#[trigger] rows[j]).password != sha256_hex(password),
    ensures
        login_result(rows, password) == Err::<i32, LoginFailure>(LoginFailure::PasswordMismatch),
{
    lemma_matching_none(rows, sha256_hex(password));
}

// ---------------------------------------------------------------------
// Reading a profile
// ---------------------------------------------------------------------

/// The profile of `user`, whose role row is `role`: the names trimmed, the
/// gender from its flag, and for a student the classes read from the
/// trimmed list with the first character of the section; for a teacher the
/// trimmed subject and the classes read from the trimmed list with the
/// untrimmed subject as the teacher and `first last` as the subject. With
/// no role row there is no account.
pub open spec fn profile_of(user: UserRowView, role: Option<RoleRowView>) -> Result<
    UserView,
    LoginFailure,
> {
    let first = trim(user.first_name);
    let last = trim(user.last_name);
    match role {
        None => Err(LoginFailure::NoAccount),
        Some(RoleRowView::Student { classes, grade, section }) => Ok(
            UserView {
                first_name: first,
                last_name: last,
                gender: gender_of(user.gender),
                role: RoleView::Student(
                    StudentView {
                        classes: student_classes(grade, trim(classes)),
                        grade,
                        section: section[0],
                    },
                ),
            },
        ),
        Some(RoleRowView::Teacher { subject, classes, hod }) => Ok(
            UserView {
                first_name: first,
                last_name: last,
                gender: gender_of(user.gender),
                role: RoleView::Teacher(
                    TeacherView {
                        subject: trim(subject),
                        classes: teacher_classes(
                            subject,
                            first + seq![' '] + last,
                            trim(classes),
                        ),
                        hod,
                    },
                ),
            },
        ),
    }
}

/// The role row that applies to a user: the students row when there is
/// one, else the teachers row, else none.
pub fn pick_role(student: Option<RoleRow>, teacher: Option<RoleRow>) -> (r: Option<RoleRow>)
    ensures
        r == (if student is Some {
            student
        } else {
            teacher
        }),
{
    match student {
        Some(row) => Some(row),
        None => teacher,
    }
}

/// A student's role row has a section of at least one character.
pub open spec fn role_row_ok(role: Option<RoleRowView>) -> bool {
    match role {
        Some(RoleRowView::Student { section, .. }) => section.len() > 0,
        _ => true,
    }
}

/// The profile of `user`, whose role row (if any) is `role`.
pub fn build_profile(user: &UserRow, role: Option<RoleRow>) -> (r: Result<IndusUser, LoginFailure>)
    requires
        role_row_ok(role_row_view(role)),
    ensures
        match r {
            Ok(u) => profile_of(user@, role_row_view(role)) == Ok::<UserView, LoginFailure>(u@),
            Err(e) => profile_of(user@, role_row_view(role)) == Err::<UserView, LoginFailure>(e),
        },
{
    let first = String::from_str(trim_str(user.first_name.as_str()));
    let last = String::from_str(trim_str(user.last_name.as_str()));
    let gender = Gender::from(user.gender);
    match role {
        None => Err(LoginFailure::NoAccount),
        Some(RoleRow::Student { classes, grade, section }) => {
            let cls = Classes::from_student(grade, trim_str(classes.as_str()));
            let sec = section.as_str().get_char(0);
            let st = IndusStudent { classes: cls, grade, section: sec };
            assert(st@ == StudentView { classes: student_classes(grade, trim(classes@)), grade, section: section@[0] });
            assert(gender == gender_of(user.gender));
            Ok(
                IndusUser {
                    first_name: first,
                    last_name: last,
                    gender,
                    role: StudentTeacher::Student(st),
                },
            )
        },
        Some(RoleRow::Teacher { subject, classes, hod }) => {
            proof {
                reveal_strlit(" ");
            }
            let mut name = String::new();
            name.append(first.as_str());
            name.append(" ");
            name.append(last.as_str());
            let cls = Classes::from_teacher(subject.as_str(), name.as_str(), trim_str(classes.as_str()));
            assert(name@ == first@ + seq![' '] + last@);
            let t = IndusTeacher {
                subject: String::from_str(trim_str(subject.as_str())),
                classes: cls,
                hod,
            };
            Ok(
                IndusUser {
                    first_name: first,
                    last_name: last,
                    gender,
                    role: StudentTeacher::Teacher(t),
                },
            )
        },
    }
}

// ---------------------------------------------------------------------
// Registering a user
// ---------------------------------------------------------------------

/// The text of `s` in lowercase, as `str::to_lowercase` gives it.
pub uninterp spec fn lowercase(s: Seq<char>) -> Seq<char>;

/// Calls `str::to_lowercase` (std). Trusted: the result is the named
/// lowercase text of `s`, a function of `s` alone (Rust's Unicode lowercase
/// mapping does not depend on a locale). What that mapping is, is not
/// stated.
#[verifier::external_body]
fn lowercase_text(s: &str) -> (r: String)
    ensures
        r@ == lowercase(s@),
{
    s.to_lowercase()
}

/// Calls `ToString::to_string` on a `char` (std). Trusted: the result is
/// the one-character text of `c`, as `char`'s `Display` writes it.
#[verifier::external_body]
fn char_text(c: char) -> (r: String)
    ensures
        r@ == seq![c],
{
    c.to_string()
}

/// `a.b`: two texts joined by a dot.
pub fn dotted(a: &str, b: &str) -> (r: String)
    ensures
        r@ == a@ + seq!['.'] + b@,
{
    proof {
        reveal_strlit(".");
    }
    let mut r = String::from_str(a);
    r.append(".");
    r.append(b);
    r
}

/// The user name of a user: first and last name in lowercase, joined by a
/// dot.
pub open spec fn username_text(first: Seq<char>, last: Seq<char>) -> Seq<char> {
    lowercase(first) + seq!['.'] + lowercase(last)
}

/// The user name of a user: `first.last` in lowercase.
pub fn username_of(first: &str, last: &str) -> (r: String)
    ensures
        r@ == username_text(first@, last@),
{
    let f = lowercase_text(first);
    let l = lowercase_text(last);
    dotted(f.as_str(), l.as_str())
}

/// The users row stored for a new user with the given id.
pub open spec fn registered_row(
    id: i32,
    first: Seq<char>,
    last: Seq<char>,
    gender: bool,
    password: Seq<char>,
) -> UserRowView {
    UserRowView {
        id,
        first_name: first,
        last_name: last,
        gender,
        username: username_text(first, last),
        password: sha256_hex(password),
    }
}

/// The users row for a new user, who gets the current user count as id and
/// whose password is stored in its hashed form.
pub fn new_user_row(counts: &Counts, first: &str, last: &str, gender: bool, password: &str) -> (r:
    UserRow)
    requires
        hashable(password@),
    ensures
        r@ == registered_row(counts@.users as i32, first@, last@, gender, password@),
{
    UserRow {
        id: counts.users(),
        first_name: String::from_str(first),
        last_name: String::from_str(last),
        gender,
        username: username_of(first, last),
        password: encrypt(password),
    }
}

/// The role row stored for a role: for a student the classes written with
/// `to_student`, the grade and the section as a one-character text; for a
/// teacher the subject, the classes written with `to_teacher` and whether
/// the teacher heads the department.
pub open spec fn stored_role(role: RoleView) -> RoleRowView {
    match role {
        RoleView::Student(s) => RoleRowView::Student {
            classes: student_text(s.classes),
            grade: s.grade,
            section: seq![s.section],
        },
        RoleView::Teacher(t) => RoleRowView::Teacher {
            subject: t.subject,
            classes: teacher_text(t.classes),
            hod: t.hod,
        },
    }
}

/// The role row to store for `role`.
pub fn role_row(role: StudentTeacher) -> (r: RoleRow)
    ensures
        r@ == stored_role(role@),
{
    match role {
        StudentTeacher::Student(st) => {
            let classes = Classes::to_student(st.classes);
            RoleRow::Student { classes, grade: st.grade, section: char_text(st.section) }
        },
        StudentTeacher::Teacher(t) => {
            let classes = Classes::to_teacher(t.classes);
            RoleRow::Teacher { subject: t.subject, classes, hod: t.hod }
        },
    }
}

// ---------------------------------------------------------------------
// What the store promises
// ---------------------------------------------------------------------

/// A user registered with a password, and alone under the user name, logs
/// in with that password and gets the id the user was registered with.
pub proof fn lemma_registered_user_logs_in(
    id: i32,
    first: Seq<char>,
    last: Seq<char>,
    gender: bool,
    password: Seq<char>,
)
    ensures
        login_result(seq![registered_row(id, first, last, gender, password)], password) == Ok::<
            i32,
            LoginFailure,
        >(id),
{
    let rows = seq![registered_row(id, first, last, gender, password)];
    lemma_login_selects_matching_row(rows, password, 0);
}

/// A student stored under a registered user is read back as the same
/// student, with the user's trimmed names and gender, when the classes are
/// storable (each in the student's grade, block and teacher without
/// surrounding whitespace and without `-` or `,`).
pub proof fn lemma_student_profile_roundtrip(
    id: i32,
    first: Seq<char>,
    last: Seq<char>,
    gender: Gender,
    password: Seq<char>,
    student: StudentView,
)
    requires
        storable_student_classes(student.grade, student.classes),
    ensures
        role_row_ok(Some(stored_role(RoleView::Student(student)))),
        profile_of(
            registered_row(id, first, last, gender_flag(gender), password),
            Some(stored_role(RoleView::Student(student))),
        ) == Ok::<UserView, LoginFailure>(
            UserView {
                first_name: trim(first),
                last_name: trim(last),
                gender,
                role: RoleView::Student(student),
            },
        ),
{
    let text = student_text(student.classes);
    lemma_student_classes_trim(student.grade, text);
    lemma_student_text_roundtrip(student.grade, student.classes);
    lemma_gender_flag_roundtrip(gender, true);
    assert(seq![student.section][0] == student.section);
}

/// What a profile read back keeps of the stored rows, whatever the role:
/// the trimmed names, the gender whose flag is stored, and for a student
/// the grade and the first character of the section, for a teacher the
/// trimmed subject and the head-of-department flag. Without a role row
/// there is no account.
pub proof fn lemma_profile_keeps_rows(user: UserRowView, role: Option<RoleRowView>)
    ensures
        role is None ==> profile_of(user, role) == Err::<UserView, LoginFailure>(
            LoginFailure::NoAccount,
        ),
        role is Some ==> profile_of(user, role) is Ok,
        profile_of(user, role) matches Ok(u) ==> {
            &&& gender_flag(u.gender) == user.gender
            &&& u.first_name == trim(user.first_name)
            &&& u.last_name == trim(user.last_name)
        },
        role matches Some(RoleRowView::Student { classes, grade, section }) ==> {
            &&& profile_of(user, role) matches Ok(u)
            &&& u.role matches RoleView::Student(st)
            &&& st.grade == grade
            &&& st.section == section[0]
        },
        role matches Some(RoleRowView::Teacher { subject, classes, hod }) ==> {
            &&& profile_of(user, role) matches Ok(u)
            &&& u.role matches RoleView::Teacher(t)
            &&& t.subject == trim(subject)
            &&& t.hod == hod
        },
{
}

/// A teacher stored under a registered user is read back with the user's
/// trimmed names and gender, the trimmed subject and the same
/// head-of-department flag.
pub proof fn lemma_teacher_profile_roundtrip(
    id: i32,
    first: Seq<char>,
    last: Seq<char>,
    gender: Gender,
    password: Seq<char>,
    teacher: TeacherView,
)
    ensures
        profile_of(
            registered_row(id, first, last, gender_flag(gender), password),
            Some(stored_role(RoleView::Teacher(teacher))),
        ) is Ok,
        profile_of(
            registered_row(id, first, last, gender_flag(gender), password),
            Some(stored_role(RoleView::Teacher(teacher))),
        ) matches Ok(u) ==> {
            &&& u.gender == gender
            &&& u.first_name == trim(first)
            &&& u.last_name == trim(last)
            &&& u.role is Teacher
            &&& u.role matches RoleView::Teacher(t) ==> t.subject == trim(teacher.subject) && t.hod
                == teacher.hod
        },
{
    lemma_gender_flag_roundtrip(gender, true);
}

/// The users row of a new user keeps the id, the names and the gender flag
/// as given, has the user name `first.last` in lowercase, and holds the
/// stored form of the password rather than the password.
pub proof fn lemma_registered_row_fields(
    id: i32,
    first: Seq<char>,
    last: Seq<char>,
    gender: bool,
    password: Seq<char>,
)
    ensures
        registered_row(id, first, last, gender, password).id == id,
        registered_row(id, first, last, gender, password).first_name == first,
        registered_row(id, first, last, gender, password).last_name == last,
        registered_row(id, first, last, gender, password).gender == gender,
        registered_row(id, first, last, gender, password).username == lowercase(first) + seq!['.']
            + lowercase(last),
        registered_row(id, first, last, gender, password).password == sha256_hex(password),
{
}

} // verus!
