use indus::crypt::encrypt;
use indus::data::{
    Class, Counts, Gender, IndusStudent, IndusTeacher, IndusUser, StudentTeacher, Subject,
};
use indus::db::{
    build_profile, dotted, find_account, login_outcome, new_user_row, pick_role, role_row,
    username_of, LoginFailure, RoleRow, UserRow,
};

/// The users table, kept in memory: the rows whose user name is `username`.
fn rows_for(table: &[UserRow], username: &str) -> Vec<UserRow> {
    table
        .iter()
        .filter(|r| r.username == username)
        .map(|r| UserRow {
            id: r.id,
            first_name: r.first_name.clone(),
            last_name: r.last_name.clone(),
            gender: r.gender,
            username: r.username.clone(),
            password: r.password.clone(),
        })
        .collect()
}

fn login(table: &[UserRow], username: &str, password: &str) -> Result<i32, LoginFailure> {
    login_outcome(&rows_for(table, username), password)
}

/// The users and role rows, kept in memory.
struct Store {
    users: Vec<UserRow>,
    roles: Vec<(i32, RoleRow)>,
    cnts: Counts,
}

impl Store {
    fn new() -> Store {
        Store { users: Vec::new(), roles: Vec::new(), cnts: Counts::new() }
    }

    fn insert_student(&mut self, first: &str, last: &str, g: Gender, classes: &str, grade: i16, section: &str, password: &str) {
        let row = new_user_row(&self.cnts, first, last, g.into(), password);
        self.roles.push((
            row.id,
            RoleRow::Student { classes: classes.to_string(), grade, section: section.to_string() },
        ));
        self.users.push(row);
        assert_eq!(self.cnts.record_student::<()>(Ok(1)), Ok(2));
    }

    fn insert_teacher(&mut self, first: &str, last: &str, g: Gender, subject: &str, classes: &str, hod: bool, password: &str) {
        let row = new_user_row(&self.cnts, first, last, g.into(), password);
        self.roles.push((
            row.id,
            RoleRow::Teacher { subject: subject.to_string(), classes: classes.to_string(), hod },
        ));
        self.users.push(row);
        assert_eq!(self.cnts.record_teacher::<()>(Ok(1)), Ok(2));
    }

    fn insert(&mut self, user: IndusUser, password: &str) {
        let row = new_user_row(&self.cnts, &user.first_name, &user.last_name, user.gender.into(), password);
        let id = row.id;
        let role = role_row(user.role);
        let is_student = matches!(role, RoleRow::Student { .. });
        self.roles.push((id, role));
        self.users.push(row);
        if is_student {
            self.cnts.record_student::<()>(Ok(1)).unwrap();
        } else {
            self.cnts.record_teacher::<()>(Ok(1)).unwrap();
        }
    }

    fn login(&self, username: &str, password: &str) -> Result<i32, LoginFailure> {
        login(&self.users, username, password)
    }
}

#[test]
fn it_works() {
    let mut database = Store::new();

    assert_eq!(database.login("anshuman.medhi", "2cool4uuu"), Err(LoginFailure::NoAccount));
    assert_eq!(database.login("hari.prasad", "killthelion"), Err(LoginFailure::NoAccount));

    database.insert_student(
        "Anshuman",
        "Medhi",
        Gender::Male,
        "C1 English SL, C2 Spanish SL, C3 Math HL, C4 Economics SL, C5 Chemistry HL, C6 Physics HL",
        11,
        "B",
        "2cool4uuu",
    );
    database.insert_teacher(
        "Hari",
        "Prasad",
        Gender::Male,
        "Economics",
        "Wiggle Wiggle Wiggle Wiggle Wiggle YEAH",
        false,
        "killthelion",
    );

    database.login("anshuman.medhi", "2cool4uuu").unwrap();
    database.login("hari.prasad", "killthelion").unwrap();

    assert_eq!(database.login("anshuman.medhi", "coolpoopbags"), Err(LoginFailure::PasswordMismatch));
    assert_eq!(database.login("hari.prasad", "aosdjbd"), Err(LoginFailure::PasswordMismatch));

    database.insert(
        IndusUser {
            first_name: "Anshuman".into(),
            last_name: "Medhi".into(),
            gender: Gender::Male,
            role: StudentTeacher::Student(IndusStudent {
                classes: vec![class(Subject::English, "Smith", "C1", 11)],
                grade: 11,
                section: 'B',
            }),
        },
        "2cool4uuu",
    );
    database.insert(
        IndusUser {
            first_name: "Hari".into(),
            last_name: "Prasad".into(),
            gender: Gender::Male,
            role: StudentTeacher::Teacher(IndusTeacher {
                subject: "Economics".into(),
                classes: vec![class(Subject::Economics, "Hari Prasad", "C1", 11)],
                hod: false,
            }),
        },
        "killthelion",
    );

    assert_eq!(database.login("anshuman.medhi", "2cool4uuu"), Err(LoginFailure::DuplicateAccounts));
    assert_eq!(database.login("hari.prasad", "killthelion"), Err(LoginFailure::DuplicateAccounts));
    assert_eq!(database.cnts, Counts::from(4, 2, 2));
    assert_eq!(database.roles.len(), 4);
    match &database.roles[2].1 {
        RoleRow::Student { classes, grade, section } => {
            assert_eq!(classes, "C1 - English - Smith");
            assert_eq!(*grade, 11);
            assert_eq!(section, "B");
        }
        _ => panic!("expected a student row"),
    }
}

#[test]
fn login_picks_the_row_holding_the_password() {
    let mut database = Store::new();
    database.insert_student("Anshuman", "Medhi", Gender::Male, "", 11, "B", "first");
    database.insert_student("Anshuman", "Medhi", Gender::Male, "", 11, "C", "second");
    assert_eq!(database.login("anshuman.medhi", "first"), Ok(0));
    assert_eq!(database.login("anshuman.medhi", "second"), Ok(1));
    assert_eq!(database.login("anshuman.medhi", "third"), Err(LoginFailure::PasswordMismatch));
    let rows = rows_for(&database.users, "anshuman.medhi");
    assert_eq!(find_account(&rows, "second"), Ok(1));
    assert_eq!(find_account(&rows, "third"), Err(LoginFailure::PasswordMismatch));
    assert_eq!(find_account(&Vec::new(), "first"), Err(LoginFailure::NoAccount));
    database.insert_student("Anshuman", "Medhi", Gender::Male, "", 11, "D", "second");
    assert_eq!(database.login("anshuman.medhi", "first"), Ok(0));
    assert_eq!(database.login("anshuman.medhi", "second"), Err(LoginFailure::DuplicateAccounts));
}

#[test]
fn pick_role_prefers_the_students_row() {
    let student = || Some(RoleRow::Student { classes: String::new(), grade: 9, section: "A".to_string() });
    let teacher = || Some(RoleRow::Teacher { subject: "Art".to_string(), classes: String::new(), hod: true });
    assert!(matches!(pick_role(student(), teacher()), Some(RoleRow::Student { grade: 9, .. })));
    assert!(matches!(pick_role(None, teacher()), Some(RoleRow::Teacher { hod: true, .. })));
    assert!(pick_role(None, None).is_none());
}

#[test]
fn registered_user_logs_in_with_own_id() {
    let cnts = Counts::from(7, 3, 4);
    let row = new_user_row(&cnts, "Anshuman", "Medhi", true, "2cool4uuu");
    assert_eq!(row.id, 7);
    assert_eq!(row.username, "anshuman.medhi");
    assert_eq!(row.password, encrypt("2cool4uuu"));
    assert_eq!(row.first_name, "Anshuman");
    assert!(row.gender);
    assert_eq!(login_outcome(&vec![row], "2cool4uuu"), Ok(7));
}

#[test]
fn usernames_are_lowercase() {
    assert_eq!(username_of("Anshuman", "Medhi"), "anshuman.medhi");
    assert_eq!(username_of("ÉLISE", "DuPont"), "élise.dupont");
    assert_eq!(dotted("a", "b"), "a.b");
    assert_eq!(dotted("", ""), ".");
}

fn user_row(first: &str, last: &str, gender: bool) -> UserRow {
    UserRow {
        id: 1,
        first_name: first.to_string(),
        last_name: last.to_string(),
        gender,
        username: String::new(),
        password: String::new(),
    }
}

fn class(subject: Subject, teacher: &str, block: &str, grade: i16) -> Class {
    Class { subject, teacher: teacher.to_string(), block: block.to_string(), grade }
}

#[test]
fn profile_of_a_student() {
    let role = RoleRow::Student {
        classes: "  C1 - English - Smith, C2 - Physics - Jones \n".to_string(),
        grade: 11,
        section: "B".to_string(),
    };
    let user = build_profile(&user_row(" Anshuman ", "Medhi  ", true), Some(role)).unwrap();
    assert_eq!(
        user,
        IndusUser {
            first_name: "Anshuman".to_string(),
            last_name: "Medhi".to_string(),
            gender: Gender::Male,
            role: StudentTeacher::Student(IndusStudent {
                classes: vec![
                    class(Subject::English, "Smith", "C1", 11),
                    class(Subject::Physics, "Jones", "C2", 11),
                ],
                grade: 11,
                section: 'B',
            }),
        }
    );
}

#[test]
fn profile_of_a_teacher() {
    let role = RoleRow::Teacher {
        subject: " Economics ".to_string(),
        classes: "C1 - 11".to_string(),
        hod: true,
    };
    let user = build_profile(&user_row("Hari", "Prasad", false), Some(role)).unwrap();
    assert_eq!(
        user,
        IndusUser {
            first_name: "Hari".to_string(),
            last_name: "Prasad".to_string(),
            gender: Gender::Female,
            role: StudentTeacher::Teacher(IndusTeacher {
                subject: "Economics".to_string(),
                classes: vec![],
                hod: true,
            }),
        }
    );
}

#[test]
fn profile_without_role_is_no_account() {
    assert_eq!(build_profile(&user_row("A", "B", true), None), Err(LoginFailure::NoAccount));
}

#[test]
fn stored_student_reads_back() {
    let student = IndusStudent {
        classes: vec![
            class(Subject::Chemistry, "Dr Who", "C5", 11),
            class(Subject::Economics, "Ms Ray", "C4", 11),
        ],
        grade: 11,
        section: 'B',
    };
    let role = role_row(StudentTeacher::Student(student.clone()));
    match &role {
        RoleRow::Student { classes, grade, section } => {
            assert_eq!(classes, "C5 - Chemistry - Dr Who, C4 - Economics - Ms Ray");
            assert_eq!(*grade, 11);
            assert_eq!(section, "B");
        }
        _ => panic!("expected a student row"),
    }
    let user = build_profile(&user_row("A", "B", true), Some(role)).unwrap();
    assert_eq!(user.role, StudentTeacher::Student(student));
}

#[test]
fn stored_teacher_row() {
    let teacher = IndusTeacher {
        subject: "Economics".to_string(),
        classes: vec![class(Subject::Economics, "Hari Prasad", "C1", 11)],
        hod: false,
    };
    match role_row(StudentTeacher::Teacher(teacher)) {
        RoleRow::Teacher { subject, classes, hod } => {
            assert_eq!(subject, "Economics");
            assert_eq!(classes, "C1 11");
            assert!(!hod);
        }
        _ => panic!("expected a teacher row"),
    }
}
