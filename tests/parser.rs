use zkp_auth::parser::{
    parse_check_no_dependencies, parse_dependencies, parse_duration, parse_job, parse_name,
};
use zkp_auth::task::Task;

#[test]
fn test_parse_name() {
    assert_eq!(parse_name(r#"B(1) "#).unwrap(), ("1) ", "B"));
}

#[test]
fn test_parse_duration() {
    assert_eq!(parse_duration(r#"1) after"#).unwrap(), (" after", 1));
}

#[test]
fn test_parse_check_no_dependencies() {
    assert_eq!(parse_check_no_dependencies(r#"
C(1)"#).unwrap(), ("C(1)", vec![]));
    assert!(parse_check_no_dependencies(r#" after [D]"#).is_err());
}

#[test]
fn test_parse_dependencies_and_parse_dependencies_array() {
    assert_eq!(parse_dependencies(r#" after [D
        ,
        E  ,   F   ] "#).unwrap(), (" ", vec!["D".to_string(), "E".to_string(), "F".to_string()]));
    assert!(parse_dependencies(r#" after [D
        ,
        E     F   ] "#).is_err());
    assert!(parse_dependencies(r#" after [D
        ,
        E   ,  F    "#).is_err());
}

#[test]
fn test_parse_job_with_one_task() {
    assert_eq!(parse_job(r#"A(1)
"#).unwrap(), vec![Task::new("A", 1, vec![])]);
}

#[test]
fn test_parse_job_with_two_tasks_without_dependencies() {
    assert_eq!(parse_job(r#"A(1)
B(1)
"#).unwrap(), vec![Task::new("A", 1, vec![]),
               Task::new("B", 1, vec![])]);
}

#[test]
fn test_parse_job() {
    assert_eq!(parse_job(r#"A(1)
B(1) after [A]
C(1)
  after [A]
D(1) after [B]
F(1) after
  [B,
   C]
G(1) after [C]
H(1) after [D, F]
I(1) after
  [F, G]"#).unwrap(), vec![Task::new("A", 1, vec![]),
                       Task::new("B", 1, vec!["A".to_string()]),
                       Task::new("C", 1, vec!["A".to_string()]),
                       Task::new("D", 1, vec!["B".to_string()]),
                       Task::new("F", 1, vec!["B".to_string(), "C".to_string()]),
                       Task::new("G", 1, vec!["C".to_string()]),
                       Task::new("H", 1, vec!["D".to_string(), "F".to_string()]),
                       Task::new("I", 1, vec!["F".to_string(), "G".to_string()])]);
}

#[test]
fn test_parse_job_failure() {
    const MISSING_TASK_NAME: &str = r#"(1)"#;
    const MISSING_DURATION_OPENING_BRACKET: &str = r#"A1)"#;
    const MISSING_DURATION_CLOSING_BRACKET: &str = r#"A(1"#;
    const WRONG_SPELLING_AFTER_TAG: &str = r#"B(1) afer [A]"#;
    const MISSING_OPENING_SQUARE_BRACKET: &str = r#"C(1) after A, B]"#;
    const MISSING_CLOSING_SQUARE_BRACKET: &str = r#"C(1) after [A, B"#;
    const MISSING_COMMA_IN_DEPENDENCY_ARRAY: &str = r#"C(1) after [A B]"#;
    const MISSING_TASK_IN_DEPENDENCY_ARRAY: &str = r#"D(1) after [A,, C]"#;
    const MISSING_CLOSING_SQUARE_BRACKET_WITH_FREE_LINING_1: &str = r#"A(1)
B(1) after [A]
C(1)
  after [A]
D(1) after [B]
F(1) after
  [B,
   C
G(1) after [C]
H(1) after [D, F]
I(1) after
  [F, G]"#;

    const MISSING_CLOSING_SQUARE_BRACKET_WITH_FREE_LINING_2: &str = r#"A(1)
B(1) after [A]
C(1)
  after [A]
D(1) after [B]
F(1) after
  [B,
   C]
G(1) after [C]
H(1) after [D, F
I(1) after
  [F, G]"#;
    const MISSING_COMMA_WITH_FREE_LINING: &str = r#"A(1)
B(1) after [A]
C(1)
  after [A]
D(1) after [B]
F(1) after
  [B,
   C]
G(1) after [C]
H(1) after [D, F]
I(1) after
  [F G]"#;
    const WRONG_SPELLING_AFTER_WITH_FREE_LINING: &str = r#"A(1)
B(1) after [A]
C(1)
  after [A]
D(1) after [B]
F(1) after
  [B,
   C]
G(1) after [C]
H(1) after [D, F]
I(1) aftr
  [F G]"#;

    let jobs_with_errors = [
        MISSING_TASK_NAME,
        MISSING_DURATION_OPENING_BRACKET,
        MISSING_DURATION_CLOSING_BRACKET,
        WRONG_SPELLING_AFTER_TAG,
        MISSING_OPENING_SQUARE_BRACKET,
        MISSING_CLOSING_SQUARE_BRACKET,
        MISSING_COMMA_IN_DEPENDENCY_ARRAY,
        MISSING_TASK_IN_DEPENDENCY_ARRAY,
        MISSING_CLOSING_SQUARE_BRACKET_WITH_FREE_LINING_1,
        MISSING_CLOSING_SQUARE_BRACKET_WITH_FREE_LINING_2,
        MISSING_COMMA_WITH_FREE_LINING,
        WRONG_SPELLING_AFTER_WITH_FREE_LINING
    ];

    for job in jobs_with_errors {
        assert!(parse_job(job).is_err());
    }
}

#[test]
fn parse_job_with_crlf_and_trailing_space() {
    assert_eq!(
        parse_job("A(2)\r\nB(3) after [A]  \n").unwrap(),
        vec![Task::new("A", 2, vec![]), Task::new("B", 3, vec!["A".to_string()])]
    );
}

#[test]
fn parse_job_refuses_non_ascii_and_overflow() {
    assert!(parse_job("Ä(1)").is_err());
    assert!(parse_job("A(99999999999999999999999)").is_err());
    assert!(parse_job("").is_err());
    assert!(parse_job("A(1)\n\nB(1)").is_err());
}

#[test]
fn parse_duration_multi_digit() {
    assert_eq!(parse_duration("120)").unwrap(), ("", 120));
    assert!(parse_duration(")").is_err());
}
