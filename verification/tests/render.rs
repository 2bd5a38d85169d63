use nested_list::render::render_texts;
use nested_list::Test;
use std::fmt;

fn list_of(values: &[&str]) -> Test<String> {
    let mut list = Test::Empty;
    for value in values.iter().rev() {
        list = Test::TestNested(value.to_string(), Box::new(list));
    }
    list
}

fn texts(values: &[&str]) -> Vec<String> {
    values.iter().map(|value| value.to_string()).collect()
}

/// A value that shows as nothing when `quiet`, and as its name otherwise.
struct Label {
    name: &'static str,
    quiet: bool,
}

impl fmt::Display for Label {
    fn fmt(&self, f: &mut fmt::Formatter<'_>) -> fmt::Result {
        if self.quiet {
            Ok(())
        } else {
            f.write_str(self.name)
        }
    }
}

#[test]
fn render_two_values() {
    let list = Test::TestNested(
        "Hello".to_owned(),
        Box::new(Test::TestNested("World".to_owned(), Box::new(Test::Empty))),
    );
    assert_eq!(list.render(), "[Hello, World]");
}

#[test]
fn render_empty_list() {
    let list: Test<String> = Test::Empty;
    assert_eq!(list.render(), "[]");
}

#[test]
fn render_after_appending_through_iter_mut() {
    let mut list = list_of(&["Hello", "World"]);
    assert_eq!(list.render(), "[Hello, World]");
    for value in list.iter_mut() {
        value.push_str("2");
    }
    let values: Vec<&str> = list.iter().map(|s| s.as_str()).collect();
    assert_eq!(values, vec!["Hello2", "World2"]);
    assert_eq!(list.render(), "[Hello2, World2]");
}

#[test]
fn render_skips_empty_first_value() {
    assert_eq!(list_of(&["", "X"]).render(), "[X]");
}

#[test]
fn render_skips_empty_middle_value() {
    assert_eq!(list_of(&["A", "", "B"]).render(), "[A, B]");
}

#[test]
fn render_skips_empty_last_value() {
    assert_eq!(list_of(&["A", "B", ""]).render(), "[A, B]");
}

#[test]
fn render_of_only_empty_values_is_two_brackets() {
    assert_eq!(list_of(&[""]).render(), "[]");
    assert_eq!(list_of(&["", "", ""]).render(), "[]");
}

#[test]
fn render_skips_runs_of_empty_values() {
    assert_eq!(list_of(&["", "", "A", "", "", "B", "", "C", "", ""]).render(), "[A, B, C]");
}

#[test]
fn render_single_value() {
    assert_eq!(list_of(&["alone"]).render(), "[alone]");
}

#[test]
fn render_is_always_bracketed() {
    let lists = [
        list_of(&[]),
        list_of(&[""]),
        list_of(&["a"]),
        list_of(&["", "b"]),
        list_of(&["]", "["]),
        list_of(&["a", "b", "c", "d"]),
    ];
    for list in lists.iter() {
        let out = list.render();
        assert!(out.len() >= 2);
        assert!(out.starts_with('['));
        assert!(out.ends_with(']'));
    }
}

#[test]
fn render_leaves_the_list_as_it_was() {
    let list = list_of(&["a", "", "b"]);
    assert_eq!(list.render(), "[a, b]");
    assert_eq!(list.render(), "[a, b]");
    let values: Vec<&str> = list.iter().map(|s| s.as_str()).collect();
    assert_eq!(values, vec!["a", "", "b"]);
}

#[test]
fn render_keeps_texts_as_they_are() {
    assert_eq!(list_of(&[", ", "a,b", " "]).render(), "[, , a,b,  ]");
    assert_eq!(list_of(&["héllo", "wörld", "日本"]).render(), "[héllo, wörld, 日本]");
}

#[test]
fn render_numbers() {
    let list = Test::TestNested(
        1i32,
        Box::new(Test::TestNested(-2i32, Box::new(Test::TestNested(30i32, Box::new(Test::Empty))))),
    );
    assert_eq!(list.render(), "[1, -2, 30]");
}

#[test]
fn render_goes_by_the_text_of_a_value() {
    let list = Test::TestNested(
        Label { name: "hidden", quiet: true },
        Box::new(Test::TestNested(
            Label { name: "seen", quiet: false },
            Box::new(Test::TestNested(
                Label { name: "", quiet: false },
                Box::new(Test::TestNested(Label { name: "too", quiet: false }, Box::new(Test::Empty))),
            )),
        )),
    );
    assert_eq!(list.render(), "[seen, too]");
}

#[test]
fn render_texts_of_sample_lists() {
    assert_eq!(render_texts(&texts(&["Hello", "World"])), "[Hello, World]");
    assert_eq!(render_texts(&texts(&[])), "[]");
    assert_eq!(render_texts(&texts(&["Hello2", "World2"])), "[Hello2, World2]");
    assert_eq!(render_texts(&texts(&["", "X"])), "[X]");
    assert_eq!(render_texts(&texts(&["A", "", "B"])), "[A, B]");
}

#[test]
fn render_texts_writes_one_separator_between_shown_texts() {
    assert_eq!(render_texts(&texts(&["a"])), "[a]");
    assert_eq!(render_texts(&texts(&["a", "b"])), "[a, b]");
    assert_eq!(render_texts(&texts(&["a", "b", "c"])), "[a, b, c]");
    assert_eq!(render_texts(&texts(&["", "a", "", "", "b", ""])), "[a, b]");
}

#[test]
fn render_texts_of_nothing_shown() {
    assert_eq!(render_texts(&texts(&[""])), "[]");
    assert_eq!(render_texts(&texts(&["", ""])), "[]");
}

#[test]
fn render_texts_length_counts_brackets_texts_and_separators() {
    let shown = texts(&["ab", "", "cde", "f", ""]);
    let out = render_texts(&shown);
    assert_eq!(out, "[ab, cde, f]");
    assert_eq!(out.len(), 2 + (2 + 3 + 1) + 2 * 2);
}

#[test]
fn rendering_a_list_and_rendering_its_texts_agree() {
    let values = ["x", "", "y", "z", ""];
    assert_eq!(list_of(&values).render(), render_texts(&texts(&values)));
}

#[test]
fn empty_text_leaves_no_trace() {
    let with = texts(&["a", "", "b", "c"]);
    let without = texts(&["a", "b", "c"]);
    assert_eq!(render_texts(&with), render_texts(&without));
    assert_eq!(render_texts(&texts(&["", "a"])), render_texts(&texts(&["a"])));
    assert_eq!(render_texts(&texts(&["a", ""])), render_texts(&texts(&["a"])));
}

#[test]
fn rendering_of_two_lists_in_a_row() {
    let a = texts(&["p", "", "q"]);
    let b = texts(&["", "r"]);
    let mut both = a.clone();
    both.extend(b.iter().cloned());
    let out_a = render_texts(&a);
    let out_b = render_texts(&b);
    let expected = format!("{}, {}", &out_a[..out_a.len() - 1], &out_b[1..]);
    assert_eq!(render_texts(&both), expected);
    assert_eq!(render_texts(&both), "[p, q, r]");

    let nothing = texts(&["", ""]);
    let mut left = nothing.clone();
    left.extend(a.iter().cloned());
    assert_eq!(render_texts(&left), out_a);
    let mut right = a.clone();
    right.extend(nothing.iter().cloned());
    assert_eq!(render_texts(&right), out_a);
}

#[test]
fn no_leading_or_doubled_separator_for_plain_texts() {
    let samples: [&[&str]; 7] = [
        &[],
        &[""],
        &["", "X"],
        &["A", "", "B"],
        &["", "", "a", "", "b", "", ""],
        &["a,b", "c d", ",", " "],
        &["x", "y", "ends with, "],
    ];
    for sample in samples.iter() {
        let out = render_texts(&texts(sample));
        assert!(!out.starts_with("[, "), "{}", out);
        assert!(!out.contains(", , "), "{}", out);
    }
}

#[test]
fn separators_inside_texts_are_shown_as_they_are() {
    assert_eq!(render_texts(&texts(&[", "])), "[, ]");
    assert_eq!(render_texts(&texts(&["a", ", b"])), "[a, , b]");
    assert_eq!(render_texts(&texts(&["a, ", "b"])), "[a, , b]");
}
