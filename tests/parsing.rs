use talloc_solver::classes::{extract_and_check_meetings, extract_meeting, Class, Mode};
use talloc_solver::errors::Error;
use talloc_solver::instructor::{ClassTypeRequirement, Instructor, InstructorId, TutorSeniority};
use talloc_solver::tsv::Tsv;
use talloc_solver::utils::{indent_lines, match_ignore_case, parse_bool_input, Day, TimeOfDay, TwoCombIter};

#[test]
fn days_parse_in_any_case() {
    assert_eq!(Day::parse("mon"), Some(Day::Mon));
    assert_eq!(Day::parse("TUESDAY"), Some(Day::Tue));
    assert_eq!(Day::parse("Wed"), Some(Day::Wed));
    assert_eq!(Day::parse("thursday"), Some(Day::Thu));
    assert_eq!(Day::parse("fRi"), Some(Day::Fri));
    assert_eq!(Day::parse("sat"), None);
    assert_eq!("friday".parse::<Day>(), Ok(Day::Fri));
    assert_eq!(Day::Thu.short_lowercase(), "thu");
}

#[test]
fn times_parse_below_24() {
    assert_eq!(TimeOfDay::parse("9"), Some(TimeOfDay(9)));
    assert_eq!(TimeOfDay::parse("14:00"), Some(TimeOfDay(14)));
    assert_eq!(TimeOfDay::parse("+7"), Some(TimeOfDay(7)));
    assert_eq!(TimeOfDay::parse("24"), None);
    assert_eq!(TimeOfDay::parse("14:30"), None);
    assert_eq!(TimeOfDay::parse(""), None);
    assert_eq!(TimeOfDay(10).add_hr(3), TimeOfDay(13));
    assert_eq!(TimeOfDay(10).as_24_hours(), 10);
}

#[test]
fn booleans_parse() {
    for yes in ["y", "YES", "true", "1"] {
        assert_eq!(parse_bool_input(yes), Ok(true));
    }
    for no in ["N", "no", "False", "0"] {
        assert_eq!(parse_bool_input(no), Ok(false));
    }
    assert_eq!(parse_bool_input("maybe"), Err(Error::BadBoolean { value: "maybe".to_string() }));
}

#[test]
fn match_ignore_case_takes_first_case() {
    let cases: [(&[&str], u8); 3] = [(&["a", "alpha"], 1), (&["b"], 2), (&["ALPHA"], 3)];
    assert_eq!(match_ignore_case("Alpha", &cases), Some(1));
    assert_eq!(match_ignore_case("B", &cases), Some(2));
    assert_eq!(match_ignore_case("c", &cases), None);
}

#[test]
fn two_combination_walk_visits_each_pair_once() {
    let items = [10, 20, 30, 40];
    let mut walk = TwoCombIter::new(&items);
    let mut pairs = Vec::new();
    while let Some(p) = walk.next_pair() {
        pairs.push(p);
    }
    assert_eq!(pairs, vec![(10, 20), (10, 30), (20, 30), (10, 40), (20, 40), (30, 40)]);
    let single = [1];
    assert_eq!(TwoCombIter::new(&single).next_pair(), None);
}

#[test]
fn indent_lines_prefixes_each_line() {
    assert_eq!(indent_lines("a\nb\r\n\nc", 2), "  a\n  b\n  \n  c\n");
    assert_eq!(indent_lines("", 4), "");
    assert_eq!(indent_lines("x\n", 1), " x\n");
}

#[test]
fn tsv_reads_header_and_rows() {
    let t = Tsv::try_from_str("t.tsv", "a\tb\tb\n1\t2\t3\n4\t5\t6\n").unwrap();
    assert_eq!(t.num_rows(), 2);
    assert_eq!(t.row(0).get("a").unwrap(), "1");
    assert_eq!(t.row(1).get("b").unwrap(), "6");
    assert!(matches!(t.row(0).get("c"), Err(Error::MissingTsvField { .. })));
    let mut it = t.iter();
    assert!(it.next_row().is_some());
    assert!(it.next_row().is_some());
    assert!(it.next_row().is_none());
}

#[test]
fn tsv_rejects_ragged_rows() {
    let r = Tsv::try_from_str("t.tsv", "a\tb\n1\n");
    assert_eq!(
        r.err(),
        Some(Error::TsvNumFieldsMismatch { path: "t.tsv".to_string(), header_len: 2, row_len: 1, row: "1".to_string() })
    );
    let empty = Tsv::try_from_str("e.tsv", "").unwrap();
    assert_eq!(empty.num_rows(), 0);
}

#[test]
fn meetings_parse() {
    assert_eq!(
        extract_meeting("Mon 09 (w1-10, Quad 1001)"),
        Some((Day::Mon, TimeOfDay(9), TimeOfDay(10), Mode::F2F))
    );
    assert_eq!(
        extract_meeting("Tue 10-12 (w1-10, Online)"),
        Some((Day::Tue, TimeOfDay(10), TimeOfDay(12), Mode::Online))
    );
    assert_eq!(extract_meeting("Tue 23 (w1, Online)"), None);
    assert_eq!(extract_meeting("Tue 10-12 w1, Online"), None);
}

#[test]
fn class_times_must_be_tut_then_lab() {
    assert_eq!(
        extract_and_check_meetings("Wed 14 (w1-10, Online); Wed 15-17 (w1-10, Online)").unwrap(),
        (Day::Wed, TimeOfDay(14), Mode::Online)
    );
    for bad in [
        "Wed 14 (w1, X)",
        "Wed 14 (w1, X); Thu 15-17 (w1, X)",
        "Wed 14-16 (w1, X); Wed 16-18 (w1, X)",
        "Wed 14 (w1, X); Wed 16-18 (w1, X)",
        "Wed 14 (w1, X); Wed 15-16 (w1, X)",
        "Wed 14 (w1, X); Wed 15-17 (w1, Online)",
        "Wed 14 (w1, X); Wed 15-17 (w1, X); Wed 18 (w1, X)",
    ] {
        assert!(matches!(extract_and_check_meetings(bad), Err(Error::BadClass { .. })), "{bad}");
    }
}

#[test]
fn late_class_is_rejected() {
    assert!(extract_and_check_meetings("Fri 21 (w1, X); Fri 22-24 (w1, X)").is_err());
    assert!(extract_and_check_meetings("Fri 20 (w1, X); Fri 21-23 (w1, X)").is_ok());
}

const CLASSES: &str = "section\ttype\tstatus\ttimes\tignore lab\n\
H09A\tTLB\tOpen\tMon 09 (w1, Quad); Mon 10-12 (w1, Quad)\t\n\
T14B\tTLB\tFull\t Thu 14 (w1, Online); Thu 15-17 (w1, Online) \tyes\n";

#[test]
fn classes_read_from_table() {
    let t = Tsv::try_from_str("classes.tsv", CLASSES).unwrap();
    let classes = Class::vec_from_tsv(&t).unwrap();
    assert_eq!(classes.len(), 2);
    assert_eq!(classes[0].name, "H09A");
    assert_eq!(classes[0].day, Day::Mon);
    assert!(!classes[0].ignore_lab);
    assert_eq!(classes[1].mode, Mode::Online);
    assert!(classes[1].ignore_lab);
    assert!(!classes[1].ignore_tut);
}

#[test]
fn class_with_wrong_type_or_status_is_rejected() {
    let t = Tsv::try_from_str("c", "section\ttype\tstatus\ttimes\nA\tLEC\tOpen\tMon 09 (w1, Q); Mon 10-12 (w1, Q)\n").unwrap();
    assert!(matches!(Class::vec_from_tsv(&t), Err(Error::BadClass { .. })));
    let t = Tsv::try_from_str("c", "section\ttype\tstatus\ttimes\nA\tTLB\tCancelled\tMon 09 (w1, Q); Mon 10-12 (w1, Q)\n").unwrap();
    assert!(matches!(Class::vec_from_tsv(&t), Err(Error::BadClass { .. })));
}

const INSTRUCTORS: &str = "name\tzid\tminT\tmaxT\tminA\tmaxA\tmaxC\tignore\n\
Ann\tz1\t1\t2\t0\t3\t-\t\n\
Bob\tz2\t0\t1\t1\t1\t2\tyes\n\
Cat\tz3\t2\t2\t1\t1\t3\tno\n";

#[test]
fn instructors_read_from_table() {
    let t = Tsv::try_from_str("instructors.tsv", INSTRUCTORS).unwrap();
    let ins = Instructor::vec_from_tsv(&t).unwrap();
    assert_eq!(ins.len(), 2);
    assert_eq!(ins[0].zid, "z1");
    assert_eq!(ins[1].zid, "z3");
    assert_eq!(ins[1].instructor_id, InstructorId(1));
    assert_eq!(
        ins[0].class_type_requirement,
        ClassTypeRequirement { min_tutes: 1, max_tutes: 2, min_lab_assists: 0, max_lab_assists: 3, min_total_classes: 1, max_total_classes: 5 }
    );
    assert_eq!(ins[1].class_type_requirement.max_total_classes, 3);
    assert_eq!(ins[1].seniority, None);
}

#[test]
fn instructor_bounds_must_be_numbers() {
    let t = Tsv::try_from_str("i", "name\tzid\tminT\tmaxT\tminA\tmaxA\nAnn\tz1\tone\t2\t0\t3\n").unwrap();
    assert!(matches!(Instructor::vec_from_tsv(&t), Err(Error::BadClassTypeRequirement { .. })));
}

#[test]
fn seniority_needs_both_columns() {
    let t = Tsv::try_from_str("i", "name\tzid\tminT\tmaxT\tminA\tmaxA\tsenior tutor\tnew tutor\nAnn\tz1\t1\t1\t0\t0\ty\tn\n").unwrap();
    let ins = Instructor::vec_from_tsv(&t).unwrap();
    assert_eq!(ins[0].seniority, Some(TutorSeniority { is_senior_tutor: true, is_new_tutor: false }));
    let t = Tsv::try_from_str("i", "name\tzid\tminT\tmaxT\tminA\tmaxA\tsenior tutor\nAnn\tz1\t1\t1\t0\t0\ty\n").unwrap();
    assert!(matches!(Instructor::vec_from_tsv(&t), Err(Error::MissingTsvField { .. })));
}
