//! The school's data: user counters, genders, subjects and classes, and the
//! text forms in which classes are stored.
use vstd::prelude::*;

use crate::text::{
    all_ws, chars_of, i16_text, is_ws, join, lemma_concat_lacks, lemma_i16_text_parse,
    lemma_split_concat,
    lemma_split_no_sep, lemma_split_prefix, lemma_split_suffix,
    lemma_trim_split, lemma_trim_ws_prefix, lemma_trim_ws_suffix, lemma_ws_lacks, parse_i16,
    parse_i16_range, push_i16_text, range_eq, split, split_ranges, trim, trim_end, trim_range,
    trim_start,
};

verus! {

// ---------------------------------------------------------------------
// Counts
// ---------------------------------------------------------------------

/// How many users, students and teachers have been registered.
#[derive(Clone, PartialEq, Eq, Debug, Structural)]
pub struct Counts {
    pub usrcnt: i32,
    stdcnt: i32,
    tchcnt: i32,
}

/// The numbers held by a `Counts`.
pub struct CountsView {
    pub users: int,
    pub students: int,
    pub teachers: int,
}

impl CountsView {
    /// The counts after one more student was registered.
    pub open spec fn with_student(self) -> CountsView {
        CountsView { users: self.users + 1, students: self.students + 1, teachers: self.teachers }
    }

    /// The counts after one more teacher was registered.
    pub open spec fn with_teacher(self) -> CountsView {
        CountsView { users: self.users + 1, students: self.students, teachers: self.teachers + 1 }
    }

    /// Every user is a student or a teacher.
    pub open spec fn balanced(self) -> bool {
        self.users == self.students + self.teachers
    }
}

impl View for Counts {
    type V = CountsView;

    closed spec fn view(&self) -> CountsView {
        CountsView { users: self.usrcnt as int, students: self.stdcnt as int, teachers: self.tchcnt as int }
    }
}

impl Counts {
    /// No users yet.
    pub fn new() -> (c: Counts)
        ensures
            c@ == (CountsView { users: 0, students: 0, teachers: 0 }),
    {
        Counts { usrcnt: 0, stdcnt: 0, tchcnt: 0 }
    }

    /// The given numbers of users, students and teachers.
    pub fn from(u: i32, s: i32, t: i32) -> (c: Counts)
        ensures
            c@ == (CountsView { users: u as int, students: s as int, teachers: t as int }),
    {
        Counts { usrcnt: u, stdcnt: s, tchcnt: t }
    }

    /// The number of users (the `usrcnt` field).
    pub fn users(&self) -> (n: i32)
        ensures
            n as int == self@.users,
    {
        self.usrcnt
    }

    /// The number of students.
    pub fn students(&self) -> (n: i32)
        ensures
            n as int == self@.students,
    {
        self.stdcnt
    }

    /// The number of teachers.
    pub fn teachers(&self) -> (n: i32)
        ensures
            n as int == self@.teachers,
    {
        self.tchcnt
    }

    /// Whether one more user and one more student can be counted without
    /// overflowing an `i32`.
    pub open spec fn can_add_student(&self) -> bool {
        self@.users < i32::MAX && self@.students < i32::MAX
    }

    /// Whether one more user and one more teacher can be counted without
    /// overflowing an `i32`.
    pub open spec fn can_add_teacher(&self) -> bool {
        self@.users < i32::MAX && self@.teachers < i32::MAX
    }

    /// Finishes registering a student, given how storing the student's
    /// rows went: when they were stored, the student is counted and the
    /// result is the number of rows stored (two); when storing failed,
    /// nothing is counted and the failure is handed back.
    pub fn record_student<E>(&mut self, stored: Result<u64, E>) -> (r: Result<u64, E>)
        requires
            stored is Ok ==> old(self).can_add_student(),
        ensures
            match stored {
                Ok(_) => final(self)@ == old(self)@.with_student() && r == Ok::<u64, E>(2),
                Err(e) => final(self)@ == old(self)@ && r == Err::<u64, E>(e),
            },
    {
        match stored {
            Ok(_) => {
                self.incr_students();
                Ok(2)
            },
            Err(e) => Err(e),
        }
    }

    /// Finishes registering a teacher, given how storing the teacher's
    /// rows went: when they were stored, the teacher is counted and the
    /// result is the number of rows stored (two); when storing failed,
    /// nothing is counted and the failure is handed back.
    pub fn record_teacher<E>(&mut self, stored: Result<u64, E>) -> (r: Result<u64, E>)
        requires
            stored is Ok ==> old(self).can_add_teacher(),
        ensures
            match stored {
                Ok(_) => final(self)@ == old(self)@.with_teacher() && r == Ok::<u64, E>(2),
                Err(e) => final(self)@ == old(self)@ && r == Err::<u64, E>(e),
            },
    {
        match stored {
            Ok(_) => {
                self.incr_teachers();
                Ok(2)
            },
            Err(e) => Err(e),
        }
    }

    /// Counts one more student (who is also one more user).
    pub fn incr_students(&mut self)
        requires
            old(self).can_add_student(),
        ensures
            final(self)@ == old(self)@.with_student(),
    {
        self.usrcnt += 1;
        self.stdcnt += 1;
    }

    /// Counts one more teacher (who is also one more user).
    pub fn incr_teachers(&mut self)
        requires
            old(self).can_add_teacher(),
        ensures
            final(self)@ == old(self)@.with_teacher(),
    {
        self.usrcnt += 1;
        self.tchcnt += 1;
    }
}

/// Counting a student adds one user and one student; counting a teacher
/// adds one user and one teacher; nothing else changes.
pub proof fn lemma_counting_adds_one(c: CountsView)
    ensures
        c.with_student().users == c.users + 1,
        c.with_student().students == c.students + 1,
        c.with_student().teachers == c.teachers,
        c.with_teacher().users == c.users + 1,
        c.with_teacher().students == c.students,
        c.with_teacher().teachers == c.teachers + 1,
{
}

/// Counting a student or a teacher keeps every user counted as exactly one
/// of the two, and the empty count starts out that way.
pub proof fn lemma_counts_stay_balanced(c: CountsView)
    requires
        c.balanced(),
    ensures
        c.with_student().balanced(),
        c.with_teacher().balanced(),
        (CountsView { users: 0, students: 0, teachers: 0 }).balanced(),
{
}

// ---------------------------------------------------------------------
// Gender
// ---------------------------------------------------------------------

#[derive(Debug, Clone, Copy, PartialEq, Eq, Structural)]
pub enum Gender {
    Male,
    Female,
}

/// The gender stored as `b` (`true` is male).
pub open spec fn gender_of(b: bool) -> Gender {
    if b {
        Gender::Male
    } else {
        Gender::Female
    }
}

/// The stored form of a gender (`true` is male).
pub open spec fn gender_flag(g: Gender) -> bool {
    match g {
        Gender::Male => true,
        Gender::Female => false,
    }
}

impl From<bool> for Gender {
    fn from(b: bool) -> (g: Gender) {
        if b {
            Gender::Male
        } else {
            Gender::Female
        }
    }
}

impl vstd::std_specs::convert::FromSpecImpl<bool> for Gender {
    open spec fn obeys_from_spec() -> bool {
        true
    }

    open spec fn from_spec(b: bool) -> Gender {
        gender_of(b)
    }
}

impl From<Gender> for bool {
    fn from(g: Gender) -> (b: bool) {
        match g {
            Gender::Male => true,
            Gender::Female => false,
        }
    }
}

impl vstd::std_specs::convert::FromSpecImpl<Gender> for bool {
    open spec fn obeys_from_spec() -> bool {
        true
    }

    open spec fn from_spec(g: Gender) -> bool {
        gender_flag(g)
    }
}

/// Storing a gender as a flag and reading it back gives the same gender, and
/// the other way round.
pub proof fn lemma_gender_flag_roundtrip(g: Gender, b: bool)
    ensures
        gender_of(gender_flag(g)) == g,
        gender_flag(gender_of(b)) == b,
{
}

// ---------------------------------------------------------------------
// Subject
// ---------------------------------------------------------------------

#[derive(Debug, Clone, Copy, PartialEq, Eq, Structural)]
pub enum Subject {
    Economics,
    Business,
    Physics,
    Chemistry,
    Biology,
    CompSci,
    ICT,
    ITGS,
    Psychology,
    English,
    ESL,
    Spanish,
    French,
    German,
    Hindi,
    Art,
    Music,
}

/// A text that names no subject.
#[derive(Debug, PartialEq, Eq, Structural)]
pub struct InvalidSubject;

impl Subject {
    /// The name of the subject: the variant's own name.
    pub open spec fn name(self) -> Seq<char> {
        match self {
            Subject::Economics => "Economics"@,
            Subject::Business => "Business"@,
            Subject::Physics => "Physics"@,
            Subject::Chemistry => "Chemistry"@,
            Subject::Biology => "Biology"@,
            Subject::CompSci => "CompSci"@,
            Subject::ICT => "ICT"@,
            Subject::ITGS => "ITGS"@,
            Subject::Psychology => "Psychology"@,
            Subject::English => "English"@,
            Subject::ESL => "ESL"@,
            Subject::Spanish => "Spanish"@,
            Subject::French => "French"@,
            Subject::German => "German"@,
            Subject::Hindi => "Hindi"@,
            Subject::Art => "Art"@,
            Subject::Music => "Music"@,
        }
    }

    /// The name of the subject.
    pub fn name_str(self) -> (r: &'static str)
        ensures
            r@ == self.name(),
    {
        match self {
            Subject::Economics => "Economics",
            Subject::Business => "Business",
            Subject::Physics => "Physics",
            Subject::Chemistry => "Chemistry",
            Subject::Biology => "Biology",
            Subject::CompSci => "CompSci",
            Subject::ICT => "ICT",
            Subject::ITGS => "ITGS",
            Subject::Psychology => "Psychology",
            Subject::English => "English",
            Subject::ESL => "ESL",
            Subject::Spanish => "Spanish",
            Subject::French => "French",
            Subject::German => "German",
            Subject::Hindi => "Hindi",
            Subject::Art => "Art",
            Subject::Music => "Music",
        }
    }

    /// The name of the subject, as an owned string.
    pub fn tostr(self) -> (r: String)
        ensures
            r@ == self.name(),
    {
        String::from_str(self.name_str())
    }

    /// The subject named exactly `s`.
    pub fn from_str(s: &str) -> (r: Result<Subject, InvalidSubject>)
        ensures
            r == (match subject_named(s@) {
                Some(sub) => Ok(sub),
                None => Err(InvalidSubject),
            }),
    {
        let v = chars_of(s);
        assert(v@.subrange(0, v@.len() as int) =~= s@);
        match Subject::from_range(&v, 0, v.len()) {
            Some(sub) => Ok(sub),
            None => Err(InvalidSubject),
        }
    }

    /// The subject named by `v[lo..hi]`.
    pub fn from_range(v: &Vec<char>, lo: usize, hi: usize) -> (r: Option<Subject>)
        requires
            lo <= hi <= v@.len(),
        ensures
            r == subject_named(v@.subrange(lo as int, hi as int)),
    {
        if range_eq(v, lo, hi, "Economics") {
            Some(Subject::Economics)
        } else if range_eq(v, lo, hi, "Business") {
            Some(Subject::Business)
        } else if range_eq(v, lo, hi, "Physics") {
            Some(Subject::Physics)
        } else if range_eq(v, lo, hi, "Chemistry") {
            Some(Subject::Chemistry)
        } else if range_eq(v, lo, hi, "Biology") {
            Some(Subject::Biology)
        } else if range_eq(v, lo, hi, "CompSci") {
            Some(Subject::CompSci)
        } else if range_eq(v, lo, hi, "ICT") {
            Some(Subject::ICT)
        } else if range_eq(v, lo, hi, "ITGS") {
            Some(Subject::ITGS)
        } else if range_eq(v, lo, hi, "Psychology") {
            Some(Subject::Psychology)
        } else if range_eq(v, lo, hi, "English") {
            Some(Subject::English)
        } else if range_eq(v, lo, hi, "ESL") {
            Some(Subject::ESL)
        } else if range_eq(v, lo, hi, "Spanish") {
            Some(Subject::Spanish)
        } else if range_eq(v, lo, hi, "French") {
            Some(Subject::French)
        } else if range_eq(v, lo, hi, "German") {
            Some(Subject::German)
        } else if range_eq(v, lo, hi, "Hindi") {
            Some(Subject::Hindi)
        } else if range_eq(v, lo, hi, "Art") {
            Some(Subject::Art)
        } else if range_eq(v, lo, hi, "Music") {
            Some(Subject::Music)
        } else {
            None
        }
    }
}

/// The subject whose name is exactly `s`, if any.
pub open spec fn subject_named(s: Seq<char>) -> Option<Subject> {
    if s == "Economics"@ {
        Some(Subject::Economics)
    } else if s == "Business"@ {
        Some(Subject::Business)
    } else if s == "Physics"@ {
        Some(Subject::Physics)
    } else if s == "Chemistry"@ {
        Some(Subject::Chemistry)
    } else if s == "Biology"@ {
        Some(Subject::Biology)
    } else if s == "CompSci"@ {
        Some(Subject::CompSci)
    } else if s == "ICT"@ {
        Some(Subject::ICT)
    } else if s == "ITGS"@ {
        Some(Subject::ITGS)
    } else if s == "Psychology"@ {
        Some(Subject::Psychology)
    } else if s == "English"@ {
        Some(Subject::English)
    } else if s == "ESL"@ {
        Some(Subject::ESL)
    } else if s == "Spanish"@ {
        Some(Subject::Spanish)
    } else if s == "French"@ {
        Some(Subject::French)
    } else if s == "German"@ {
        Some(Subject::German)
    } else if s == "Hindi"@ {
        Some(Subject::Hindi)
    } else if s == "Art"@ {
        Some(Subject::Art)
    } else if s == "Music"@ {
        Some(Subject::Music)
    } else {
        None
    }
}

impl std::str::FromStr for Subject {
    type Err = InvalidSubject;

    fn from_str(s: &str) -> (r: Result<Subject, InvalidSubject>)
        ensures
            r == (match subject_named(s@) {
                Some(sub) => Ok(sub),
                None => Err(InvalidSubject),
            }),
    {
        Subject::from_str(s)
    }
}

impl From<Subject> for String {
    fn from(sub: Subject) -> (r: String)
        ensures
            r@ == sub.name(),
    {
        sub.tostr()
    }
}

impl vstd::std_specs::convert::FromSpecImpl<Subject> for String {
    open spec fn obeys_from_spec() -> bool {
        false
    }

    open spec fn from_spec(sub: Subject) -> String {
        arbitrary()
    }
}

/// Every subject is found again by its name, and its name has no
/// surrounding whitespace and holds no `-` and no `,`.
pub proof fn lemma_subject_name(sub: Subject)
    ensures
        subject_named(sub.name()) == Some(sub),
        trim(sub.name()) == sub.name(),
        !sub.name().contains('-'),
        !sub.name().contains(','),
{
    reveal_strlit("Economics");
    reveal_strlit("Business");
    reveal_strlit("Physics");
    reveal_strlit("Chemistry");
    reveal_strlit("Biology");
    reveal_strlit("CompSci");
    reveal_strlit("ICT");
    reveal_strlit("ITGS");
    reveal_strlit("Psychology");
    reveal_strlit("English");
    reveal_strlit("ESL");
    reveal_strlit("Spanish");
    reveal_strlit("French");
    reveal_strlit("German");
    reveal_strlit("Hindi");
    reveal_strlit("Art");
    reveal_strlit("Music");
    let s = sub.name();
    assert(s.len() > 0 && !is_ws(s[0]) && !is_ws(s.last()));
    assert(trim_start(s) == s);
    assert(trim_end(s) == s);
}

/// A name that is found names that subject.
pub proof fn lemma_subject_named(s: Seq<char>)
    ensures
        subject_named(s) matches Some(sub) ==> sub.name() == s,
{
}

// ---------------------------------------------------------------------
// Classes
// ---------------------------------------------------------------------

/// One class: a subject taught by a teacher in a block to a grade.
#[derive(Debug, Clone, PartialEq)]
pub struct Class {
    pub subject: Subject,
    pub teacher: String,
    pub block: String,
    pub grade: i16,
}

/// What a `Class` holds.
pub struct ClassView {
    pub subject: Subject,
    pub teacher: Seq<char>,
    pub block: Seq<char>,
    pub grade: i16,
}

impl View for Class {
    type V = ClassView;

    open spec fn view(&self) -> ClassView {
        ClassView {
            subject: self.subject,
            teacher: self.teacher@,
            block: self.block@,
            grade: self.grade,
        }
    }
}

/// What each class of a list holds.
pub open spec fn class_views(cs: Seq<Class>) -> Seq<ClassView> {
    cs.map_values(|c: Class| c@)
}

/// A text that is not a class.
#[derive(Debug, PartialEq, Eq, Structural)]
pub struct InvalidClass;

/// Reading and writing lists of classes.
pub struct Classes;

/// The classes found, in order, skipping the texts that were no class.
pub open spec fn collect_classes(found: Seq<Option<ClassView>>) -> Seq<ClassView>
    decreases found.len(),
{
    if found.len() == 0 {
        Seq::<ClassView>::empty()
    } else {
        let prev = collect_classes(found.drop_last());
        match found.last() {
            Some(c) => prev.push(c),
            None => prev,
        }
    }
}

/// A student's class written `block - subject - teacher` (further `-`
/// parts are ignored), each part trimmed.
pub open spec fn student_class_of(grade: i16, piece: Seq<char>) -> Option<ClassView> {
    let vals = split(piece, '-');
    if vals.len() < 2 {
        None
    } else {
        match subject_named(trim(vals[1])) {
            None => None,
            Some(subject) => if vals.len() < 3 {
                None
            } else {
                Some(ClassView { subject, teacher: trim(vals[2]), block: trim(vals[0]), grade })
            },
        }
    }
}

/// The classes of a student's list: the `,`-separated texts that are
/// classes.
pub open spec fn student_classes(grade: i16, src: Seq<char>) -> Seq<ClassView> {
    collect_classes(split(src, ',').map_values(|p: Seq<char>| student_class_of(grade, p)))
}

/// A teacher's class written `block - grade` (further `-` parts are
/// ignored), each part trimmed, taught by `teacher` in the subject named
/// `subject`.
pub open spec fn teacher_class_of(teacher: Seq<char>, subject: Seq<char>, piece: Seq<char>) -> Option<
    ClassView,
> {
    let vals = split(piece, '-');
    match subject_named(subject) {
        None => None,
        Some(sub) => if vals.len() < 2 {
            None
        } else {
            match parse_i16(trim(vals[1])) {
                None => None,
                Some(grade) => Some(
                    ClassView { subject: sub, teacher, block: trim(vals[0]), grade },
                ),
            }
        },
    }
}

/// The classes of a teacher's list: the `,`-separated texts that are
/// classes.
pub open spec fn teacher_classes(teacher: Seq<char>, subject: Seq<char>, src: Seq<char>) -> Seq<
    ClassView,
> {
    collect_classes(
        split(src, ',').map_values(|p: Seq<char>| teacher_class_of(teacher, subject, p)),
    )
}

/// A class written `subject - teacher - block - grade` (further `-` parts
/// are ignored), each part trimmed.
pub open spec fn class_of_text(s: Seq<char>) -> Option<ClassView> {
    let vals = split(s, '-');
    match subject_named(trim(vals[0])) {
        None => None,
        Some(subject) => if vals.len() < 4 {
            None
        } else {
            match parse_i16(trim(vals[3])) {
                None => None,
                Some(grade) => Some(
                    ClassView { subject, teacher: trim(vals[1]), block: trim(vals[2]), grade },
                ),
            }
        },
    }
}

/// The separator between two parts of a student's class.
pub open spec fn part_sep() -> Seq<char> {
    seq![' ', '-', ' ']
}

/// The separator between two classes of a list.
pub open spec fn list_sep() -> Seq<char> {
    seq![',', ' ']
}

/// A student's class as `block - subject - teacher`.
pub open spec fn student_class_text(c: ClassView) -> Seq<char> {
    c.block + part_sep() + c.subject.name() + part_sep() + c.teacher
}

/// A student's classes, separated by `, `.
pub open spec fn student_text(cs: Seq<ClassView>) -> Seq<char> {
    join(cs.map_values(|c: ClassView| student_class_text(c)), list_sep())
}

/// A teacher's class as `block grade`.
pub open spec fn teacher_class_text(c: ClassView) -> Seq<char> {
    c.block + seq![' '] + i16_text(c.grade)
}

/// A teacher's classes, separated by `, `.
pub open spec fn teacher_text(cs: Seq<ClassView>) -> Seq<char> {
    join(cs.map_values(|c: ClassView| teacher_class_text(c)), list_sep())
}

/// The text of `v[lo..hi]` as an owned string, where `v` holds the
/// characters of `src`.
fn owned_range(src: &str, v: &Vec<char>, lo: usize, hi: usize) -> (r: String)
    requires
        v@ == src@,
        lo <= hi <= v@.len(),
    ensures
        r@ == v@.subrange(lo as int, hi as int),
{
    String::from_str(src.substring_char(lo, hi))
}

impl Classes {
    /// The student's class written in `v[lo..hi]`, if it is one.
    fn student_class_at(src: &str, v: &Vec<char>, lo: usize, hi: usize, grade: i16) -> (r: Option<
        Class,
    >)
        requires
            v@ == src@,
            lo <= hi <= v@.len(),
        ensures
            match r {
                Some(c) => student_class_of(grade, v@.subrange(lo as int, hi as int)) == Some(c@),
                None => student_class_of(grade, v@.subrange(lo as int, hi as int)) is None,
            },
    {
        let vals = split_ranges(v, lo, hi, '-');
        if vals.len() < 2 {
            return None;
        }
        let (s0, s1) = trim_range(v, vals[1].0, vals[1].1);
        let subject = match Subject::from_range(v, s0, s1) {
            Some(sub) => sub,
            None => return None,
        };
        if vals.len() < 3 {
            return None;
        }
        let (b0, b1) = trim_range(v, vals[0].0, vals[0].1);
        let (t0, t1) = trim_range(v, vals[2].0, vals[2].1);
        let block = owned_range(src, v, b0, b1);
        let teacher = owned_range(src, v, t0, t1);
        Some(Class { subject, teacher, block, grade })
    }

    /// The classes of a student in `grade`, read from a list such as
    /// `C1 - English - Smith, C2 - Physics - Jones`. Each `,`-separated
    /// text is `block - subject - teacher`; a text that is not (too few
    /// parts, or no subject name) is skipped.
    pub fn from_student(grade: i16, src: &str) -> (r: Vec<Class>)
        ensures
            class_views(r@) == student_classes(grade, src@),
    {
        let v = chars_of(src);
        assert(v@.subrange(0, v@.len() as int) =~= src@);
        let pieces = split_ranges(&v, 0, v.len(), ',');
        let ghost found = split(src@, ',').map_values(
            |p: Seq<char>| student_class_of(grade, p),
        );
        let mut out: Vec<Class> = Vec::new();
        let mut k: usize = 0;
        assert(found.take(0) =~= Seq::<Option<ClassView>>::empty());
        assert(class_views(out@) =~= Seq::<ClassView>::empty());
        while k < pieces.len()
            invariant
                v@ == src@,
                pieces@.len() == split(src@, ',').len() == found.len(),
                forall|j: int|
                    0 <= j < pieces@.len() ==> 0 <= (#[trigger] pieces@[j]).0 <= pieces@[j].1
                        <= v@.len() && v@.subrange(pieces@[j].0 as int, pieces@[j].1 as int)
                        == split(src@, ',')[j],
                found == split(src@, ',').map_values(|p: Seq<char>| student_class_of(grade, p)),
                k <= pieces@.len(),
                class_views(out@) == collect_classes(found.take(k as int)),
            decreases pieces@.len() - k,
        {
            let (a, b) = pieces[k];
            let item = Classes::student_class_at(src, &v, a, b, grade);
            let ghost before = out@;
            assert(found.take(k + 1).drop_last() =~= found.take(k as int));
            assert(found.take(k + 1).last() == found[k as int]);
            match item {
                Some(c) => {
                    out.push(c);
                    assert(class_views(out@) =~= class_views(before).push(c@));
                },
                None => {},
            }
            k = k + 1;
        }
        assert(found.take(pieces@.len() as int) =~= found);
        out
    }

    /// The teacher's class written in `v[lo..hi]`, if it is one.
    fn teacher_class_at(teacher: &str, subject: &str, src: &str, v: &Vec<char>, lo: usize, hi: usize) -> (r:
        Option<Class>)
        requires
            v@ == src@,
            lo <= hi <= v@.len(),
        ensures
            match r {
                Some(c) => teacher_class_of(teacher@, subject@, v@.subrange(lo as int, hi as int))
                    == Some(c@),
                None => teacher_class_of(teacher@, subject@, v@.subrange(lo as int, hi as int)) is None,
            },
    {
        let vals = split_ranges(v, lo, hi, '-');
        let sub = match Subject::from_str(subject) {
            Ok(sub) => sub,
            Err(_) => return None,
        };
        if vals.len() < 2 {
            return None;
        }
        let (g0, g1) = trim_range(v, vals[1].0, vals[1].1);
        let grade = match parse_i16_range(v, g0, g1) {
            Some(g) => g,
            None => return None,
        };
        let (b0, b1) = trim_range(v, vals[0].0, vals[0].1);
        let block = owned_range(src, v, b0, b1);
        Some(Class { subject: sub, teacher: String::from_str(teacher), block, grade })
    }

    /// The classes of `teacher`, who teaches the subject named `subject`,
    /// read from a list such as `C1 - 11, C2 - 12`. Each `,`-separated text
    /// is `block - grade`; a text that is not is skipped, and when `subject`
    /// names no subject there are none.
    pub fn from_teacher(teacher: &str, subject: &str, src: &str) -> (r: Vec<Class>)
        ensures
            class_views(r@) == teacher_classes(teacher@, subject@, src@),
    {
        let v = chars_of(src);
        assert(v@.subrange(0, v@.len() as int) =~= src@);
        let pieces = split_ranges(&v, 0, v.len(), ',');
        let ghost found = split(src@, ',').map_values(
            |p: Seq<char>| teacher_class_of(teacher@, subject@, p),
        );
        let mut out: Vec<Class> = Vec::new();
        let mut k: usize = 0;
        assert(found.take(0) =~= Seq::<Option<ClassView>>::empty());
        assert(class_views(out@) =~= Seq::<ClassView>::empty());
        while k < pieces.len()
            invariant
                v@ == src@,
                pieces@.len() == split(src@, ',').len() == found.len(),
                forall|j: int|
                    0 <= j < pieces@.len() ==> 0 <= (#[trigger] pieces@[j]).0 <= pieces@[j].1
                        <= v@.len() && v@.subrange(pieces@[j].0 as int, pieces@[j].1 as int)
                        == split(src@, ',')[j],
                found == split(src@, ',').map_values(
                    |p: Seq<char>| teacher_class_of(teacher@, subject@, p),
                ),
                k <= pieces@.len(),
                class_views(out@) == collect_classes(found.take(k as int)),
            decreases pieces@.len() - k,
        {
            let (a, b) = pieces[k];
            let item = Classes::teacher_class_at(teacher, subject, src, &v, a, b);
            let ghost before = out@;
            assert(found.take(k + 1).drop_last() =~= found.take(k as int));
            assert(found.take(k + 1).last() == found[k as int]);
            match item {
                Some(c) => {
                    out.push(c);
                    assert(class_views(out@) =~= class_views(before).push(c@));
                },
                None => {},
            }
            k = k + 1;
        }
        assert(found.take(pieces@.len() as int) =~= found);
        out
    }

    /// A student's classes written as `block - subject - teacher`,
    /// separated by `, `.
    pub fn to_student(from: Vec<Class>) -> (r: String)
        ensures
            r@ == student_text(class_views(from@)),
    {
        proof {
            reveal_strlit(" - ");
            reveal_strlit(", ");
        }
        let ghost texts = class_views(from@).map_values(|c: ClassView| student_class_text(c));
        let mut out = String::new();
        let mut k: usize = 0;
        assert(texts.take(0) =~= Seq::<Seq<char>>::empty());
        while k < from.len()
            invariant
                k <= from@.len(),
                texts == class_views(from@).map_values(|c: ClassView| student_class_text(c)),
                " - "@ == part_sep(),
                ", "@ == list_sep(),
                out@ == join(texts.take(k as int), list_sep()),
            decreases from@.len() - k,
        {
            let ghost before = out@;
            if k > 0 {
                out.append(", ");
            }
            let c = &from[k];
            out.append(c.block.as_str());
            out.append(" - ");
            out.append(c.subject.name_str());
            out.append(" - ");
            out.append(c.teacher.as_str());
            assert(texts[k as int] == student_class_text(from@[k as int]@));
            assert(texts.take(k + 1).drop_last() =~= texts.take(k as int));
            if k > 0 {
                assert(out@ =~= before + list_sep() + texts[k as int]);
            } else {
                assert(out@ =~= texts[k as int]);
            }
            k = k + 1;
        }
        assert(texts.take(from@.len() as int) =~= texts);
        out
    }

    /// A teacher's classes written as `block grade`, separated by `, `.
    pub fn to_teacher(from: Vec<Class>) -> (r: String)
        ensures
            r@ == teacher_text(class_views(from@)),
    {
        proof {
            reveal_strlit(" ");
            reveal_strlit(", ");
        }
        let ghost texts = class_views(from@).map_values(|c: ClassView| teacher_class_text(c));
        let mut out = String::new();
        let mut k: usize = 0;
        assert(texts.take(0) =~= Seq::<Seq<char>>::empty());
        while k < from.len()
            invariant
                k <= from@.len(),
                texts == class_views(from@).map_values(|c: ClassView| teacher_class_text(c)),
                " "@ == seq![' '],
                ", "@ == list_sep(),
                out@ == join(texts.take(k as int), list_sep()),
            decreases from@.len() - k,
        {
            let ghost before = out@;
            if k > 0 {
                out.append(", ");
            }
            let c = &from[k];
            out.append(c.block.as_str());
            out.append(" ");
            push_i16_text(&mut out, c.grade);
            assert(texts[k as int] == teacher_class_text(from@[k as int]@));
            assert(texts.take(k + 1).drop_last() =~= texts.take(k as int));
            if k > 0 {
                assert(out@ =~= before + list_sep() + texts[k as int]);
            } else {
                assert(out@ =~= texts[k as int]);
            }
            k = k + 1;
        }
        assert(texts.take(from@.len() as int) =~= texts);
        out
    }
}

impl Class {
    /// A class read from `subject - teacher - block - grade`.
    pub fn from_str(s: &str) -> (r: Result<Class, InvalidClass>)
        ensures
            match r {
                Ok(c) => class_of_text(s@) == Some(c@),
                Err(e) => class_of_text(s@) is None && e == InvalidClass,
            },
    {
        let v = chars_of(s);
        assert(v@.subrange(0, v@.len() as int) =~= s@);
        let vals = split_ranges(&v, 0, v.len(), '-');
        if vals.len() < 4 {
            return Err(InvalidClass);
        }
        let (s0, s1) = trim_range(&v, vals[0].0, vals[0].1);
        let subject = match Subject::from_range(&v, s0, s1) {
            Some(sub) => sub,
            None => return Err(InvalidClass),
        };
        let (g0, g1) = trim_range(&v, vals[3].0, vals[3].1);
        let grade = match parse_i16_range(&v, g0, g1) {
            Some(g) => g,
            None => return Err(InvalidClass),
        };
        let (t0, t1) = trim_range(&v, vals[1].0, vals[1].1);
        let (b0, b1) = trim_range(&v, vals[2].0, vals[2].1);
        let teacher = owned_range(s, &v, t0, t1);
        let block = owned_range(s, &v, b0, b1);
        Ok(Class { subject, teacher, block, grade })
    }
}

impl std::str::FromStr for Class {
    type Err = InvalidClass;

    fn from_str(s: &str) -> (r: Result<Class, InvalidClass>)
        ensures
            match r {
                Ok(c) => class_of_text(s@) == Some(c@),
                Err(e) => class_of_text(s@) is None && e == InvalidClass,
            },
    {
        Class::from_str(s)
    }
}

// ---------------------------------------------------------------------
// Facts about the text forms of classes
// ---------------------------------------------------------------------

/// Whitespace before a student's class text does not change the class.
pub proof fn lemma_student_class_ws_prefix(grade: i16, w: Seq<char>, p: Seq<char>)
    requires
        all_ws(w),
    ensures
        student_class_of(grade, w + p) == student_class_of(grade, p),
{
    lemma_ws_lacks(w, '-');
    lemma_split_prefix(w, p, '-');
    let vals = split(p, '-');
    lemma_trim_ws_prefix(w, vals[0]);
}

/// Whitespace after a student's class text does not change the class.
pub proof fn lemma_student_class_ws_suffix(grade: i16, p: Seq<char>, w: Seq<char>)
    requires
        all_ws(w),
    ensures
        student_class_of(grade, p + w) == student_class_of(grade, p),
{
    lemma_ws_lacks(w, '-');
    lemma_split_suffix(p, w, '-');
    let vals = split(p, '-');
    lemma_trim_ws_suffix(vals.last(), w);
}

/// Whitespace before a student's list does not change its classes.
pub proof fn lemma_student_classes_ws_prefix(grade: i16, w: Seq<char>, x: Seq<char>)
    requires
        all_ws(w),
    ensures
        student_classes(grade, w + x) == student_classes(grade, x),
{
    lemma_ws_lacks(w, ',');
    lemma_split_prefix(w, x, ',');
    let p = split(x, ',');
    lemma_student_class_ws_prefix(grade, w, p[0]);
    let f = |q: Seq<char>| student_class_of(grade, q);
    assert(split(w + x, ',').map_values(f) =~= p.map_values(f));
}

/// Whitespace after a student's list does not change its classes.
pub proof fn lemma_student_classes_ws_suffix(grade: i16, x: Seq<char>, w: Seq<char>)
    requires
        all_ws(w),
    ensures
        student_classes(grade, x + w) == student_classes(grade, x),
{
    lemma_ws_lacks(w, ',');
    lemma_split_suffix(x, w, ',');
    let p = split(x, ',');
    lemma_student_class_ws_suffix(grade, p.last(), w);
    let f = |q: Seq<char>| student_class_of(grade, q);
    assert(split(x + w, ',').map_values(f) =~= p.map_values(f));
}

/// A student's list reads the same with or without surrounding whitespace.
pub proof fn lemma_student_classes_trim(grade: i16, x: Seq<char>)
    ensures
        student_classes(grade, trim(x)) == student_classes(grade, x),
{
    let (pre, suf) = lemma_trim_split(x);
    lemma_student_classes_ws_suffix(grade, trim(x), suf);
    lemma_student_classes_ws_prefix(grade, pre, trim(x) + suf);
    assert(pre + (trim(x) + suf) =~= x);
}

/// A part of a stored class that reads back unchanged: no surrounding
/// whitespace, and neither of the separators `-` and `,`.
pub open spec fn clean_part(s: Seq<char>) -> bool {
    trim(s) == s && !s.contains('-') && !s.contains(',')
}

/// Classes of a student in `grade` that `to_student` writes in a form that
/// `from_student` reads back: each is in `grade`, and its block and teacher
/// are clean parts.
pub open spec fn storable_student_classes(grade: i16, cs: Seq<ClassView>) -> bool {
    forall|k: int|
        0 <= k < cs.len() ==> (#[trigger] cs[k]).grade == grade && clean_part(cs[k].block)
            && clean_part(cs[k].teacher)
}

/// The pieces that splitting a `, `-joined list on `,` gives: the first
/// text, then each other text after a space.
pub open spec fn list_pieces(ts: Seq<Seq<char>>) -> Seq<Seq<char>> {
    Seq::new(ts.len(), |k: int| if k == 0 { ts[0] } else { seq![' '] + ts[k] })
}

proof fn lemma_single_space_ws()
    ensures
        all_ws(seq![' ']),
{
    assert forall|i: int| 0 <= i < 1 implies #[trigger] is_ws(seq![' '][i]) by {
        assert(seq![' '][i] == ' ');
    }
}

proof fn lemma_single_space_lacks(c: char)
    requires
        c != ' ',
    ensures
        !seq![' '].contains(c),
{
    if seq![' '].contains(c) {
        let i = choose|i: int| 0 <= i < 1 && seq![' '][i] == c;
        assert(seq![' '][i] == ' ');
    }
}

/// A student's class written by `to_student` reads back as itself.
proof fn lemma_student_class_text(grade: i16, c: ClassView)
    requires
        c.grade == grade,
        clean_part(c.block),
        clean_part(c.teacher),
    ensures
        student_class_of(grade, student_class_text(c)) == Some(c),
        !student_class_text(c).contains(','),
{
    lemma_subject_name(c.subject);
    lemma_single_space_ws();
    lemma_single_space_lacks('-');
    lemma_single_space_lacks(',');
    let n = c.subject.name();
    let sp = seq![' '];
    let a = c.block + sp;
    let b = sp + (n + sp);
    let t = sp + c.teacher;
    lemma_concat_lacks(c.block, sp, '-');
    lemma_concat_lacks(n, sp, '-');
    lemma_concat_lacks(sp, n + sp, '-');
    lemma_concat_lacks(sp, c.teacher, '-');
    lemma_split_no_sep(a, '-');
    lemma_split_no_sep(b, '-');
    lemma_split_no_sep(t, '-');
    assert(student_class_text(c) =~= (a + seq!['-'] + b) + seq!['-'] + t);
    lemma_split_concat(a + seq!['-'] + b, t, '-');
    lemma_split_concat(a, b, '-');
    let vals = split(student_class_text(c), '-');
    assert(vals =~= seq![a, b, t]);
    lemma_trim_ws_suffix(c.block, sp);
    lemma_trim_ws_prefix(sp, n + sp);
    lemma_trim_ws_suffix(n, sp);
    lemma_trim_ws_prefix(sp, c.teacher);
    assert(!part_sep().contains(',')) by {
        if part_sep().contains(',') {
            let i = choose|i: int| 0 <= i < 3 && part_sep()[i] == ',';
            assert(part_sep()[i] != ',');
        }
    }
    lemma_concat_lacks(c.block, part_sep(), ',');
    lemma_concat_lacks(c.block + part_sep(), n, ',');
    lemma_concat_lacks(c.block + part_sep() + n, part_sep(), ',');
    lemma_concat_lacks(c.block + part_sep() + n + part_sep(), c.teacher, ',');
}

/// Splitting a `, `-joined list of texts without `,` on `,` gives each text,
/// after a space for all but the first.
proof fn lemma_split_join(ts: Seq<Seq<char>>)
    requires
        ts.len() >= 1,
        forall|k: int| 0 <= k < ts.len() ==> !(#[trigger] ts[k]).contains(','),
    ensures
        split(join(ts, list_sep()), ',') == list_pieces(ts),
    decreases ts.len(),
{
    if ts.len() == 1 {
        lemma_split_no_sep(ts[0], ',');
        assert(list_pieces(ts) =~= seq![ts[0]]);
    } else {
        let d = ts.drop_last();
        assert forall|k: int| 0 <= k < d.len() implies !(#[trigger] d[k]).contains(',') by {
            assert(d[k] == ts[k]);
        }
        lemma_split_join(d);
        let last = ts.last();
        assert(!last.contains(','));
        lemma_single_space_lacks(',');
        lemma_concat_lacks(seq![' '], last, ',');
        lemma_split_no_sep(seq![' '] + last, ',');
        assert(join(ts, list_sep()) =~= join(d, list_sep()) + seq![','] + (seq![' '] + last));
        lemma_split_concat(join(d, list_sep()), seq![' '] + last, ',');
        assert(split(join(ts, list_sep()), ',') =~= list_pieces(ts));
    }
}

/// When every text is a class, the classes found are exactly those.
proof fn lemma_collect_all_some(found: Seq<Option<ClassView>>, cs: Seq<ClassView>)
    requires
        found.len() == cs.len(),
        forall|k: int| 0 <= k < found.len() ==> #[trigger] found[k] == Some(cs[k]),
    ensures
        collect_classes(found) == cs,
    decreases found.len(),
{
    if found.len() == 0 {
        assert(cs =~= Seq::<ClassView>::empty());
    } else {
        lemma_collect_all_some(found.drop_last(), cs.drop_last());
        assert(found.last() == Some(cs.last()));
        assert(cs.drop_last().push(cs.last()) =~= cs);
    }
}

/// What `to_student` writes, `from_student` reads back as the same classes
/// when they are storable.
pub proof fn lemma_student_text_roundtrip(grade: i16, cs: Seq<ClassView>)
    requires
        storable_student_classes(grade, cs),
    ensures
        student_classes(grade, student_text(cs)) == cs,
{
    let ts = cs.map_values(|c: ClassView| student_class_text(c));
    let f = |p: Seq<char>| student_class_of(grade, p);
    if cs.len() == 0 {
        assert(ts.len() == 0);
        let e = Seq::<char>::empty();
        assert(split(e, ',') =~= seq![e]);
        assert(split(e, '-') =~= seq![e]);
        assert(student_text(cs) =~= e);
        assert(student_class_of(grade, e) is None);
        let found = split(student_text(cs), ',').map_values(
            |p: Seq<char>| student_class_of(grade, p),
        );
        assert(found =~= seq![None::<ClassView>]);
        assert(found.drop_last() =~= Seq::<Option<ClassView>>::empty());
        assert(collect_classes(found.drop_last()) =~= Seq::<ClassView>::empty());
        assert(found.last() is None);
        assert(collect_classes(found) =~= Seq::<ClassView>::empty());
        assert(cs =~= Seq::<ClassView>::empty());
    } else {
        assert forall|k: int| 0 <= k < ts.len() implies !(#[trigger] ts[k]).contains(',') by {
            lemma_student_class_text(grade, cs[k]);
        }
        assert(cs.map_values(|c: ClassView| student_class_text(c)) =~= ts);
        assert(student_text(cs) == join(ts, list_sep()));
        lemma_split_join(ts);
        let found = list_pieces(ts).map_values(f);
        assert(split(student_text(cs), ',').map_values(
            |p: Seq<char>| student_class_of(grade, p),
        ) =~= found);
        assert forall|k: int| 0 <= k < found.len() implies #[trigger] found[k] == Some(cs[k]) by {
            lemma_student_class_text(grade, cs[k]);
            if k > 0 {
                lemma_single_space_ws();
                lemma_student_class_ws_prefix(grade, seq![' '], ts[k]);
            }
        }
        lemma_collect_all_some(found, cs);
        assert(student_classes(grade, student_text(cs)) == collect_classes(found));
    }
}

// ---------------------------------------------------------------------
// Users
// ---------------------------------------------------------------------

/// A user of the school: a student or a teacher.
#[derive(Debug, Clone, PartialEq)]
pub struct IndusUser {
    pub first_name: String,
    pub last_name: String,
    pub gender: Gender,
    pub role: StudentTeacher,
}

#[derive(Debug, Clone, PartialEq)]
pub enum StudentTeacher {
    Student(IndusStudent),
    Teacher(IndusTeacher),
}

#[derive(Debug, Clone, PartialEq)]
pub struct IndusStudent {
    pub classes: Vec<Class>,
    pub grade: i16,
    pub section: char,
}

#[derive(Debug, Clone, PartialEq)]
pub struct IndusTeacher {
    pub subject: String,
    pub classes: Vec<Class>,
    pub hod: bool,
}

/// What an `IndusStudent` holds.
pub struct StudentView {
    pub classes: Seq<ClassView>,
    pub grade: i16,
    pub section: char,
}

/// What an `IndusTeacher` holds.
pub struct TeacherView {
    pub subject: Seq<char>,
    pub classes: Seq<ClassView>,
    pub hod: bool,
}

/// What a `StudentTeacher` holds.
pub enum RoleView {
    Student(StudentView),
    Teacher(TeacherView),
}

/// What an `IndusUser` holds.
pub struct UserView {
    pub first_name: Seq<char>,
    pub last_name: Seq<char>,
    pub gender: Gender,
    pub role: RoleView,
}

impl View for IndusStudent {
    type V = StudentView;

    open spec fn view(&self) -> StudentView {
        StudentView { classes: class_views(self.classes@), grade: self.grade, section: self.section }
    }
}

impl View for IndusTeacher {
    type V = TeacherView;

    open spec fn view(&self) -> TeacherView {
        TeacherView { subject: self.subject@, classes: class_views(self.classes@), hod: self.hod }
    }
}

impl View for StudentTeacher {
    type V = RoleView;

    open spec fn view(&self) -> RoleView {
        match self {
            StudentTeacher::Student(s) => RoleView::Student(s@),
            StudentTeacher::Teacher(t) => RoleView::Teacher(t@),
        }
    }
}

impl View for IndusUser {
    type V = UserView;

    open spec fn view(&self) -> UserView {
        UserView {
            first_name: self.first_name@,
            last_name: self.last_name@,
            gender: self.gender,
            role: self.role@,
        }
    }
}

/// The classes found in two runs of texts, one after the other, are those
/// of the first run followed by those of the second.
pub proof fn lemma_collect_concat(x: Seq<Option<ClassView>>, y: Seq<Option<ClassView>>)
    ensures
        collect_classes(x + y) == collect_classes(x) + collect_classes(y),
    decreases y.len(),
{
    if y.len() == 0 {
        assert(x + y =~= x);
        assert(collect_classes(x) + collect_classes(y) =~= collect_classes(x));
    } else {
        lemma_collect_concat(x, y.drop_last());
        assert((x + y).drop_last() =~= x + y.drop_last());
        assert((x + y).last() == y.last());
        match y.last() {
            Some(c) => {
                assert(collect_classes(x + y) =~= collect_classes(x) + collect_classes(y));
            },
            None => {},
        }
    }
}

/// The entries of a teacher's list are read each on its own: the classes of
/// `a`, a `,`, then `b` are the classes of `a` followed by those of `b`. An
/// entry that is no class adds nothing and hides none after it.
pub proof fn lemma_teacher_classes_concat(
    teacher: Seq<char>,
    subject: Seq<char>,
    a: Seq<char>,
    b: Seq<char>,
)
    ensures
        teacher_classes(teacher, subject, a + seq![','] + b) == teacher_classes(teacher, subject, a)
            + teacher_classes(teacher, subject, b),
{
    let f = |p: Seq<char>| teacher_class_of(teacher, subject, p);
    lemma_split_concat(a, b, ',');
    assert(split(a + seq![','] + b, ',').map_values(f) =~= split(a, ',').map_values(f) + split(
        b,
        ',',
    ).map_values(f));
    lemma_collect_concat(split(a, ',').map_values(f), split(b, ',').map_values(f));
}

/// The entries of a student's list are read each on its own: the classes of
/// `a`, a `,`, then `b` are the classes of `a` followed by those of `b`.
pub proof fn lemma_student_classes_concat(grade: i16, a: Seq<char>, b: Seq<char>)
    ensures
        student_classes(grade, a + seq![','] + b) == student_classes(grade, a) + student_classes(
            grade,
            b,
        ),
{
    let f = |p: Seq<char>| student_class_of(grade, p);
    lemma_split_concat(a, b, ',');
    assert(split(a + seq![','] + b, ',').map_values(f) =~= split(a, ',').map_values(f) + split(
        b,
        ',',
    ).map_values(f));
    lemma_collect_concat(split(a, ',').map_values(f), split(b, ',').map_values(f));
}

/// A teacher's list holds one `block grade` entry per class, in order,
/// separated by `, `.
pub proof fn lemma_teacher_text_entries(cs: Seq<ClassView>, c: ClassView)
    ensures
        teacher_text(Seq::<ClassView>::empty()) == Seq::<char>::empty(),
        teacher_text(seq![c]) == c.block + seq![' '] + i16_text(c.grade),
        cs.len() >= 1 ==> teacher_text(cs.push(c)) == teacher_text(cs) + seq![',', ' '] + c.block
            + seq![' '] + i16_text(c.grade),
{
    let f = |x: ClassView| teacher_class_text(x);
    assert(Seq::<ClassView>::empty().map_values(f) =~= Seq::<Seq<char>>::empty());
    assert(seq![c].map_values(f) =~= seq![teacher_class_text(c)]);
    let m = cs.push(c).map_values(f);
    assert(m.drop_last() =~= cs.map_values(f));
    assert(m.last() == teacher_class_text(c));
    assert(teacher_text(cs.push(c)) == join(m, list_sep()));
    if cs.len() >= 1 {
        assert(teacher_text(cs.push(c)) =~= teacher_text(cs) + seq![',', ' '] + c.block + seq![' ']
            + i16_text(c.grade));
    }
}

/// A student's list holds one `block - subject - teacher` entry per class,
/// in order, separated by `, `.
pub proof fn lemma_student_text_entries(cs: Seq<ClassView>, c: ClassView)
    ensures
        student_text(Seq::<ClassView>::empty()) == Seq::<char>::empty(),
        student_text(seq![c]) == c.block + seq![' ', '-', ' '] + c.subject.name() + seq![
            ' ',
            '-',
            ' ',
        ] + c.teacher,
        cs.len() >= 1 ==> student_text(cs.push(c)) == student_text(cs) + seq![',', ' '] + c.block
            + seq![' ', '-', ' '] + c.subject.name() + seq![' ', '-', ' '] + c.teacher,
{
    let f = |x: ClassView| student_class_text(x);
    assert(Seq::<ClassView>::empty().map_values(f) =~= Seq::<Seq<char>>::empty());
    assert(seq![c].map_values(f) =~= seq![student_class_text(c)]);
    let m = cs.push(c).map_values(f);
    assert(m.drop_last() =~= cs.map_values(f));
    assert(m.last() == student_class_text(c));
    assert(student_text(cs.push(c)) == join(m, list_sep()));
    if cs.len() >= 1 {
        assert(student_text(cs.push(c)) =~= student_text(cs) + seq![',', ' '] + c.block + seq![
            ' ',
            '-',
            ' ',
        ] + c.subject.name() + seq![' ', '-', ' '] + c.teacher);
    }
}

/// A teacher's entry `block - grade`, for a subject name, a clean block and
/// a grade that is not negative, reads as that one class of that teacher.
pub proof fn lemma_teacher_entry_reads(
    teacher: Seq<char>,
    sub: Subject,
    block: Seq<char>,
    grade: i16,
)
    requires
        clean_part(block),
        grade >= 0,
    ensures
        teacher_classes(teacher, sub.name(), block + seq![' ', '-', ' '] + i16_text(grade)) == seq![
            ClassView { subject: sub, teacher, block, grade },
        ],
{
    lemma_subject_name(sub);
    lemma_i16_text_parse(grade);
    lemma_single_space_ws();
    lemma_single_space_lacks('-');
    lemma_single_space_lacks(',');
    let g = i16_text(grade);
    let sp = seq![' '];
    let a = block + sp;
    let b = sp + g;
    let text = block + seq![' ', '-', ' '] + g;
    assert(text =~= a + seq!['-'] + b);
    lemma_concat_lacks(block, sp, '-');
    lemma_concat_lacks(sp, g, '-');
    lemma_concat_lacks(block, sp, ',');
    lemma_concat_lacks(sp, g, ',');
    lemma_split_no_sep(a, '-');
    lemma_split_no_sep(b, '-');
    lemma_split_concat(a, b, '-');
    assert(split(text, '-') =~= seq![a, b]);
    assert(!seq!['-'].contains(',')) by {
        if seq!['-'].contains(',') {
            let i = choose|i: int| 0 <= i < 1 && seq!['-'][i] == ',';
            assert(seq!['-'][i] == '-');
        }
    }
    lemma_concat_lacks(a, seq!['-'], ',');
    lemma_concat_lacks(a + seq!['-'], b, ',');
    lemma_split_no_sep(text, ',');
    lemma_trim_ws_suffix(block, sp);
    lemma_trim_ws_prefix(sp, g);
    let c = ClassView { subject: sub, teacher, block, grade };
    let f = |p: Seq<char>| teacher_class_of(teacher, sub.name(), p);
    assert(teacher_class_of(teacher, sub.name(), text) == Some(c));
    assert(split(text, ',').map_values(f) =~= seq![Some(c)]);
    lemma_collect_all_some(seq![Some(c)], seq![c]);
}

/// A part of a class text that `Class::from_str` reads back unchanged: no
/// surrounding whitespace and no `-`.
pub open spec fn plain_part(s: Seq<char>) -> bool {
    trim(s) == s && !s.contains('-')
}

/// A class written `subject - teacher - block - grade`, with plain teacher
/// and block and a grade that is not negative, reads back as that class.
pub proof fn lemma_class_text_roundtrip(
    sub: Subject,
    teacher: Seq<char>,
    block: Seq<char>,
    grade: i16,
)
    requires
        plain_part(teacher),
        plain_part(block),
        grade >= 0,
    ensures
        class_of_text(
            sub.name() + seq![' ', '-', ' '] + teacher + seq![' ', '-', ' '] + block + seq![
                ' ',
                '-',
                ' ',
            ] + i16_text(grade),
        ) == Some(ClassView { subject: sub, teacher, block, grade }),
{
    lemma_subject_name(sub);
    lemma_i16_text_parse(grade);
    lemma_single_space_ws();
    lemma_single_space_lacks('-');
    let n = sub.name();
    let g = i16_text(grade);
    let sp = seq![' '];
    let p0 = n + sp;
    let p1 = sp + (teacher + sp);
    let p2 = sp + (block + sp);
    let p3 = sp + g;
    let text = n + seq![' ', '-', ' '] + teacher + seq![' ', '-', ' '] + block + seq![' ', '-', ' ']
        + g;
    assert(text =~= ((p0 + seq!['-'] + p1) + seq!['-'] + p2) + seq!['-'] + p3);
    lemma_concat_lacks(n, sp, '-');
    lemma_concat_lacks(teacher, sp, '-');
    lemma_concat_lacks(sp, teacher + sp, '-');
    lemma_concat_lacks(block, sp, '-');
    lemma_concat_lacks(sp, block + sp, '-');
    lemma_concat_lacks(sp, g, '-');
    lemma_split_no_sep(p0, '-');
    lemma_split_no_sep(p1, '-');
    lemma_split_no_sep(p2, '-');
    lemma_split_no_sep(p3, '-');
    lemma_split_concat(p0, p1, '-');
    lemma_split_concat(p0 + seq!['-'] + p1, p2, '-');
    lemma_split_concat((p0 + seq!['-'] + p1) + seq!['-'] + p2, p3, '-');
    assert(split(text, '-') =~= seq![p0, p1, p2, p3]);
    lemma_trim_ws_suffix(n, sp);
    lemma_trim_ws_prefix(sp, teacher + sp);
    lemma_trim_ws_suffix(teacher, sp);
    lemma_trim_ws_prefix(sp, block + sp);
    lemma_trim_ws_suffix(block, sp);
    lemma_trim_ws_prefix(sp, g);
}

} // verus!
