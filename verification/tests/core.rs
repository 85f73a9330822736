use line_set_ops::calc::CalcError;
use line_set_ops::calc::FileRead;
use line_set_ops::calc::MyApp;
use line_set_ops::lineset::LineSet;
use line_set_ops::lineset::Operation;

fn to_lines(raw: &[&str]) -> Vec<String> {
    let mut v: Vec<String> = Vec::new();
    for s in raw {
        v.push(s.to_string());
    }
    v
}

fn line_set(raw: &[&str]) -> LineSet {
    LineSet::from_lines(to_lines(raw))
}

fn sorted_lines(set: &LineSet) -> Vec<String> {
    let mut v = set.lines().clone();
    v.sort();
    v
}

#[test]
fn reader_collapses_duplicates() {
    let set = line_set(&["a", "a", "a", "a"]);
    assert_eq!(set.len(), 1);
    assert_eq!(set.lines(), &to_lines(&["a"]));
}

#[test]
fn reader_keeps_first_occurrence_order() {
    let set = line_set(&["b", "a", "a", "c"]);
    assert_eq!(set.lines(), &to_lines(&["b", "a", "c"]));
}

#[test]
fn reader_twice_yields_equal_sets() {
    let once = line_set(&["m", "n", "m", ""]);
    let twice = line_set(&["m", "n", "m", ""]);
    assert_eq!(once.lines(), twice.lines());
}

#[test]
fn reader_keeps_empty_lines() {
    let set = line_set(&["", "a", ""]);
    assert_eq!(set.lines(), &to_lines(&["", "a"]));
    assert!(set.contains(&String::new()));
}

#[test]
fn empty_source_formats_to_empty_string() {
    let set = line_set(&[]);
    assert_eq!(set.len(), 0);
    assert_eq!(set.format(), "");
}

#[test]
fn single_line_has_no_trailing_newline() {
    let set = line_set(&["only"]);
    assert_eq!(set.format(), "only");
}

#[test]
fn format_round_trip_dedups_and_joins() {
    let set = line_set(&["b", "a", "a", "c"]);
    assert_eq!(set.format(), "b\na\nc");
}

#[test]
fn intersection_scenario() {
    let a = line_set(&["x", "y", "z"]);
    let b = line_set(&["y", "z", "w"]);
    let r = LineSet::apply(Operation::Intersection, &a, &b);
    assert_eq!(r.lines(), &to_lines(&["y", "z"]));
}

#[test]
fn union_scenario() {
    let a = line_set(&["x", "y", "z"]);
    let b = line_set(&["y", "z", "w"]);
    let r = LineSet::apply(Operation::Union, &a, &b);
    assert_eq!(sorted_lines(&r), to_lines(&["w", "x", "y", "z"]));
}

#[test]
fn difference_scenario_first_minus_second() {
    let a = line_set(&["x", "y", "z"]);
    let b = line_set(&["y", "z", "w"]);
    let r = LineSet::apply(Operation::Difference, &a, &b);
    assert_eq!(r.lines(), &to_lines(&["x"]));
}

#[test]
fn difference_scenario_second_minus_first() {
    let a = line_set(&["x", "y", "z"]);
    let b = line_set(&["y", "z", "w"]);
    let r = LineSet::apply(Operation::Difference, &b, &a);
    assert_eq!(r.lines(), &to_lines(&["w"]));
}

#[test]
fn intersection_is_commutative() {
    let a = line_set(&["x", "y", "z"]);
    let b = line_set(&["y", "z", "w"]);
    let ab = a.intersection(&b);
    let ba = b.intersection(&a);
    assert_eq!(sorted_lines(&ab), sorted_lines(&ba));
}

#[test]
fn union_is_commutative_as_sets() {
    let a = line_set(&["x", "y", "z"]);
    let b = line_set(&["y", "z", "w"]);
    let ab = a.union(&b);
    let ba = b.union(&a);
    assert_eq!(sorted_lines(&ab), sorted_lines(&ba));
}

#[test]
fn union_size_is_bounded() {
    let a = line_set(&["x", "y", "z"]);
    let b = line_set(&["y", "z", "w"]);
    let u = a.union(&b);
    assert!(u.len() >= a.len());
    assert!(u.len() >= b.len());
    assert!(u.len() <= a.len() + b.len());
}

#[test]
fn difference_differs_unless_sets_equal() {
    let a = line_set(&["x", "y", "z"]);
    let b = line_set(&["y", "z", "w"]);
    assert_ne!(sorted_lines(&a.difference(&b)), sorted_lines(&b.difference(&a)));

    let c = line_set(&["p", "q"]);
    let d = line_set(&["q", "p", "q"]);
    assert_eq!(sorted_lines(&c.difference(&d)), sorted_lines(&d.difference(&c)));
    assert_eq!(c.difference(&d).len(), 0);
}

#[test]
fn new_request_has_nothing_selected() {
    let app = MyApp::new();
    assert_eq!(app.file1_path, "");
    assert_eq!(app.file2_path, "");
    assert!(app.operation.is_none());
    assert_eq!(app.result, "");
    assert!(!app.inputs_ready());
}

#[test]
fn missing_second_path_is_missing_input() {
    let mut app = MyApp::new();
    app.file1_path = "/tmp/first.txt".to_string();
    app.operation = Some(Operation::Union);
    assert!(!app.inputs_ready());
    let outcome = app.compute(
        FileRead::Lines(to_lines(&["a"])),
        FileRead::Lines(to_lines(&["b"])),
    );
    assert_eq!(outcome, Err(CalcError::MissingInput));
    app.calculate(FileRead::Unreadable, FileRead::Unreadable);
    assert_eq!(app.result, "Please select two files and an operation");
}

#[test]
fn missing_operation_is_missing_input() {
    let mut app = MyApp::new();
    app.file1_path = "/tmp/first.txt".to_string();
    app.file2_path = "/tmp/second.txt".to_string();
    let outcome = app.compute(
        FileRead::Lines(to_lines(&["a"])),
        FileRead::Lines(to_lines(&["b"])),
    );
    assert_eq!(outcome, Err(CalcError::MissingInput));
}

#[test]
fn unreadable_first_file_names_its_path() {
    let mut app = MyApp::new();
    app.file1_path = "/no/such/file".to_string();
    app.file2_path = "/tmp/second.txt".to_string();
    app.operation = Some(Operation::Intersection);
    let outcome = app.compute(FileRead::Unreadable, FileRead::Lines(to_lines(&["b"])));
    assert_eq!(
        outcome,
        Err(CalcError::FileAccess { path: "/no/such/file".to_string() })
    );
    app.calculate(FileRead::Unreadable, FileRead::Lines(to_lines(&["b"])));
    assert_eq!(app.result, "read file error: /no/such/file");
}

#[test]
fn unreadable_second_file_names_its_path() {
    let mut app = MyApp::new();
    app.file1_path = "/tmp/first.txt".to_string();
    app.file2_path = "/no/such/other".to_string();
    app.operation = Some(Operation::Intersection);
    let outcome = app.compute(FileRead::Lines(to_lines(&["a"])), FileRead::Unreadable);
    assert_eq!(
        outcome,
        Err(CalcError::FileAccess { path: "/no/such/other".to_string() })
    );
}

#[test]
fn calculate_formats_the_selected_operation() {
    let mut app = MyApp::new();
    app.file1_path = "/tmp/first.txt".to_string();
    app.file2_path = "/tmp/second.txt".to_string();
    app.operation = Some(Operation::Difference);
    app.calculate(
        FileRead::Lines(to_lines(&["x", "y", "z"])),
        FileRead::Lines(to_lines(&["y", "z", "w"])),
    );
    assert_eq!(app.result, "x");
    assert_eq!(app.file1_path, "/tmp/first.txt");
    assert_eq!(app.file2_path, "/tmp/second.txt");
    assert_eq!(app.operation, Some(Operation::Difference));
}

#[test]
fn calculate_dedups_before_operating() {
    let mut app = MyApp::new();
    app.file1_path = "/tmp/first.txt".to_string();
    app.file2_path = "/tmp/second.txt".to_string();
    app.operation = Some(Operation::Union);
    app.calculate(
        FileRead::Lines(to_lines(&["a", "a", "b"])),
        FileRead::Lines(to_lines(&["b", "c", "c"])),
    );
    assert_eq!(app.result, "a\nb\nc");
}
