use cirno_rs::task::Task;
use cirno_rs::task::tasks_from_list;
use cirno_rs::text::parse_i32;
use cirno_rs::text::split_lines;
use cirno_rs::text::split_tokens;
use cirno_rs::text::trim_str;

#[test]
fn tokens_basic() {
    assert_eq!(split_tokens("sleep 30 jobA"), vec!["sleep", "30", "jobA"]);
}

#[test]
fn tokens_empty_and_blank() {
    assert_eq!(split_tokens(""), Vec::<String>::new());
    assert_eq!(split_tokens("   \t \n "), Vec::<String>::new());
}

#[test]
fn tokens_repeated_separators() {
    assert_eq!(split_tokens("  a\t\tbb   c "), vec!["a", "bb", "c"]);
}

#[test]
fn tokens_unicode_whitespace() {
    // No-break space, em space and ideographic space separate fields,
    // as the Unicode White_Space set says.
    assert_eq!(split_tokens("a\u{a0}b\u{2003}c\u{3000}d"), vec!["a", "b", "c", "d"]);
}

#[test]
fn trim_unicode_whitespace() {
    assert_eq!(trim_str("\u{2009}\u{a0}x y\u{205f}"), "x y");
}

#[test]
fn trim_both_sides() {
    assert_eq!(trim_str("  hello world \t\n"), "hello world");
    assert_eq!(trim_str("   "), "");
    assert_eq!(trim_str("x"), "x");
}

#[test]
fn lines_split() {
    assert_eq!(split_lines("a\nb"), vec!["a", "b"]);
    assert_eq!(split_lines("a\n"), vec!["a", ""]);
    assert_eq!(split_lines(""), vec![""]);
    assert_eq!(split_lines("a\n\nb"), vec!["a", "", "b"]);
}

#[test]
fn parse_i32_values() {
    assert_eq!(parse_i32("123"), Some(123));
    assert_eq!(parse_i32("-5"), Some(-5));
    assert_eq!(parse_i32("+7"), Some(7));
    assert_eq!(parse_i32("0"), Some(0));
    assert_eq!(parse_i32(""), None);
    assert_eq!(parse_i32("-"), None);
    assert_eq!(parse_i32("12a"), None);
    assert_eq!(parse_i32(" 12"), None);
}

#[test]
fn parse_i32_range_edges() {
    assert_eq!(parse_i32("2147483647"), Some(i32::MAX));
    assert_eq!(parse_i32("2147483648"), None);
    assert_eq!(parse_i32("-2147483648"), Some(i32::MIN));
    assert_eq!(parse_i32("-2147483649"), None);
    assert_eq!(parse_i32("99999999999999999999"), None);
}

#[test]
fn task_new_splits_command() {
    let t = Task::new("jobA", "sleep 30 jobA");
    assert_eq!(t.name, "jobA");
    assert_eq!(t.prog, "sleep");
    assert_eq!(t.args, vec!["30", "jobA"]);
}

#[test]
fn task_new_empty_command() {
    let t = Task::new("x", "   ");
    assert_eq!(t.name, "x");
    assert_eq!(t.prog, "");
    assert!(t.args.is_empty());
}

#[test]
fn task_equality_by_triple() {
    let a = Task::new("n", "prog a b");
    let b = Task::new("n", "prog a b");
    let c = Task::new("n", "prog a c");
    assert!(a == b);
    assert!(a != c);
}

#[test]
fn task_describe_format() {
    let t = Task::new("jobA", "sleep 30");
    assert_eq!(t.describe(), "jobA sleep 30 ");
}

#[test]
fn task_describe_no_args() {
    let t = Task::new("n", "prog");
    assert_eq!(t.describe(), "n prog ");
}

#[test]
fn task_args_builder_replaces() {
    let mut t = Task::new("n", "prog a b");
    t.args(vec!["c".to_string()]);
    assert_eq!(t.prog, "prog");
    assert_eq!(t.args, vec!["c"]);
}

#[test]
fn job_list_two_lines() {
    let ts = tasks_from_list("sleep 30 jobA\nsleep 5 jobB").unwrap();
    assert_eq!(ts.len(), 2);
    assert_eq!(ts[0].name, "jobA");
    assert_eq!(ts[0].prog, "sleep");
    assert_eq!(ts[0].args, vec!["30"]);
    assert_eq!(ts[1].name, "jobB");
    assert_eq!(ts[1].prog, "sleep");
    assert_eq!(ts[1].args, vec!["5"]);
}

#[test]
fn job_list_blank_file() {
    assert_eq!(tasks_from_list("").unwrap().len(), 0);
    assert_eq!(tasks_from_list("  \n \t ").unwrap().len(), 0);
}

#[test]
fn job_list_blank_interior_line_refused() {
    assert!(tasks_from_list("prog a x\n\nprog b y").is_none());
}

#[test]
fn job_list_single_token_line() {
    let ts = tasks_from_list("solo").unwrap();
    assert_eq!(ts.len(), 1);
    assert_eq!(ts[0].name, "solo");
    assert_eq!(ts[0].prog, "solo");
    assert!(ts[0].args.is_empty());
}

#[test]
fn job_list_trims_surrounding_blank() {
    let ts = tasks_from_list("\n\nprog one x\n\n").unwrap();
    assert_eq!(ts.len(), 1);
    assert_eq!(ts[0].name, "x");
    assert_eq!(ts[0].prog, "prog");
    assert_eq!(ts[0].args, vec!["one"]);
}
