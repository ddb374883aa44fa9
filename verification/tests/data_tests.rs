use indus::data::{Class, Classes, Counts, Gender, InvalidClass, InvalidSubject, Subject};

fn class(subject: Subject, teacher: &str, block: &str, grade: i16) -> Class {
    Class { subject, teacher: teacher.to_string(), block: block.to_string(), grade }
}

#[test]
fn counts_start_at_zero() {
    assert_eq!(Counts::new(), Counts::from(0, 0, 0));
    assert_eq!(Counts::new().users(), 0);
}

#[test]
fn counts_count_students_and_teachers() {
    let mut c = Counts::new();
    c.incr_students();
    c.incr_students();
    c.incr_teachers();
    assert_eq!(c, Counts::from(3, 2, 1));
    assert_eq!(c.usrcnt, 3);
    assert_eq!(c.users(), 3);
    let mut d = Counts::from(10, 4, 6);
    d.incr_teachers();
    assert_eq!(d, Counts::from(11, 4, 7));
}

#[test]
fn counts_record_stored_registrations() {
    let mut c = Counts::from(3, 2, 1);
    assert_eq!(c.record_student::<&str>(Ok(1)), Ok(2));
    assert_eq!(c, Counts::from(4, 3, 1));
    assert_eq!(c.record_teacher::<&str>(Ok(1)), Ok(2));
    assert_eq!(c, Counts::from(5, 3, 2));
    assert_eq!(c.record_student(Err("users insert failed")), Err("users insert failed"));
    assert_eq!(c.record_teacher(Err("teachers insert failed")), Err("teachers insert failed"));
    assert_eq!(c, Counts::from(5, 3, 2));
}

#[test]
fn gender_from_and_into_bool() {
    assert_eq!(Gender::from(true), Gender::Male);
    assert_eq!(Gender::from(false), Gender::Female);
    let m: bool = Gender::Male.into();
    let f: bool = Gender::Female.into();
    assert!(m);
    assert!(!f);
    for b in [true, false].iter() {
        let back: bool = Gender::from(*b).into();
        assert_eq!(back, *b);
    }
}

const ALL: [Subject; 17] = [
    Subject::Economics,
    Subject::Business,
    Subject::Physics,
    Subject::Chemistry,
    Subject::Biology,
    Subject::CompSci,
    Subject::ICT,
    Subject::ITGS,
    Subject::Psychology,
    Subject::English,
    Subject::ESL,
    Subject::Spanish,
    Subject::French,
    Subject::German,
    Subject::Hindi,
    Subject::Art,
    Subject::Music,
];

#[test]
fn subject_names_read_back() {
    for s in ALL.iter() {
        let name = s.tostr();
        assert_eq!(name, format!("{:?}", s));
        assert_eq!(Subject::from_str(&name), Ok(*s));
        let parsed: Result<Subject, InvalidSubject> = name.parse();
        assert_eq!(parsed, Ok(*s));
        let into: String = (*s).into();
        assert_eq!(into, name);
        assert_eq!(String::from(*s), name);
    }
}

#[test]
fn subject_from_str_rejects_other_text() {
    assert_eq!(Subject::from_str("economics"), Err(InvalidSubject));
    assert_eq!(Subject::from_str(" Economics"), Err(InvalidSubject));
    assert_eq!(Subject::from_str("Math"), Err(InvalidSubject));
    assert_eq!(Subject::from_str(""), Err(InvalidSubject));
    assert_eq!(Subject::from_str("Arts"), Err(InvalidSubject));
}

#[test]
fn from_student_reads_classes() {
    let got = Classes::from_student(11, "C1 - English - Smith, C2 - Physics - Jones");
    assert_eq!(
        got,
        vec![
            class(Subject::English, "Smith", "C1", 11),
            class(Subject::Physics, "Jones", "C2", 11),
        ]
    );
}

#[test]
fn from_student_skips_what_is_no_class() {
    // A list without `-` parts holds no class.
    let src = "C1 English SL, C2 Spanish SL, C3 Math HL, C4 Economics SL, C5 Chemistry HL, C6 Physics HL";
    assert_eq!(Classes::from_student(11, src), vec![]);
    let got = Classes::from_student(9, "A - Math - X, B - Art, C - Music - Y - extra,, D-ICT-Z");
    assert_eq!(
        got,
        vec![class(Subject::Music, "Y", "C", 9), class(Subject::ICT, "Z", "D", 9)]
    );
    assert_eq!(Classes::from_student(9, ""), vec![]);
}

#[test]
fn to_student_writes_classes() {
    let cs = vec![
        class(Subject::English, "Smith", "C1", 11),
        class(Subject::Physics, "Jones", "C2", 11),
    ];
    assert_eq!(Classes::to_student(cs), "C1 - English - Smith, C2 - Physics - Jones");
    assert_eq!(Classes::to_student(vec![]), "");
}

#[test]
fn student_classes_read_back() {
    let cs = vec![
        class(Subject::CompSci, "Ms Lee", "B3", 12),
        class(Subject::Art, "", "", 12),
        class(Subject::Hindi, "Mr Rao", "A 1", 12),
    ];
    let text = Classes::to_student(cs.clone());
    assert_eq!(Classes::from_student(12, &text), cs);
    assert_eq!(Classes::from_student(12, text.trim()), cs);
}

#[test]
fn from_teacher_reads_classes() {
    let got = Classes::from_teacher("Hari Prasad", "Economics", "C1 - 11, C2 - 12, C3, C4 - x");
    assert_eq!(
        got,
        vec![
            class(Subject::Economics, "Hari Prasad", "C1", 11),
            class(Subject::Economics, "Hari Prasad", "C2", 12),
        ]
    );
    assert_eq!(Classes::from_teacher("T", "Maths", "C1 - 11"), vec![]);
    // A negative grade cannot be written: its sign splits the text.
    assert_eq!(Classes::from_teacher("T", "ICT", "C1 - -3"), vec![]);
    assert_eq!(
        Classes::from_teacher("T", "ICT", "C1 - +3"),
        vec![class(Subject::ICT, "T", "C1", 3)]
    );
}

#[test]
fn to_teacher_writes_classes() {
    let cs = vec![
        class(Subject::Economics, "Hari Prasad", "C1", 11),
        class(Subject::Economics, "Hari Prasad", "C2", -12),
    ];
    assert_eq!(Classes::to_teacher(cs), "C1 11, C2 -12");
    assert_eq!(Classes::to_teacher(vec![]), "");
}

#[test]
fn teacher_classes_do_not_read_back() {
    let cs = vec![class(Subject::Economics, "Hari Prasad", "C1", 11)];
    let text = Classes::to_teacher(cs);
    assert_eq!(Classes::from_teacher("Hari Prasad", "Economics", &text), vec![]);
}

#[test]
fn class_from_str_reads_four_parts() {
    assert_eq!(
        Class::from_str("Physics - Jones - C2 - 11"),
        Ok(class(Subject::Physics, "Jones", "C2", 11))
    );
    let parsed: Result<Class, InvalidClass> = " Art-X-Y-+7-more".parse();
    assert_eq!(parsed, Ok(class(Subject::Art, "X", "Y", 7)));
    assert_eq!(Class::from_str("Physics - Jones - C2"), Err(InvalidClass));
    assert_eq!(Class::from_str("Maths - Jones - C2 - 11"), Err(InvalidClass));
    assert_eq!(Class::from_str("Physics - Jones - C2 - eleven"), Err(InvalidClass));
    assert_eq!(Class::from_str("Physics - Jones - C2 - 40000"), Err(InvalidClass));
    assert_eq!(Class::from_str(""), Err(InvalidClass));
}
