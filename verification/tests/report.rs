use wordcount::report::{report, report_line, Report};

#[test]
fn line_for_two_words_on_one_line() {
    assert_eq!(report_line("a.txt", 1, 2), "a.txt\t1 lines\t2 words.");
}

#[test]
fn line_for_one_word_on_one_line() {
    assert_eq!(report_line("b.txt", 1, 1), "b.txt\t1 lines\t1 words.");
}

#[test]
fn line_for_an_empty_file() {
    assert_eq!(report_line("empty", 0, 0), "empty\t0 lines\t0 words.");
}

#[test]
fn counts_are_written_in_decimal() {
    assert_eq!(report_line("f", 10, 109), "f\t10 lines\t109 words.");
    assert_eq!(report_line("f", 1000, 90210), "f\t1000 lines\t90210 words.");
    assert_eq!(
        report_line("f", i32::MAX, i32::MAX),
        "f\t2147483647 lines\t2147483647 words."
    );
}

#[test]
fn decimal_agrees_with_the_formatter() {
    for n in [0, 1, 9, 10, 11, 99, 100, 101, 12345, 1_000_000, i32::MAX, -1, -10, i32::MIN] {
        assert_eq!(report_line("p", n, n), format!("p\t{} lines\t{} words.", n, n));
    }
}

#[test]
fn path_is_written_as_it_is() {
    assert_eq!(
        report_line("dir with space/\u{00E9}t\u{00E9}.txt", 3, 4),
        "dir with space/\u{00E9}t\u{00E9}.txt\t3 lines\t4 words."
    );
    assert_eq!(report_line("", 0, 0), "\t0 lines\t0 words.");
}

#[test]
fn counts_are_reported_in_a_line() {
    match report("a.txt", &Ok((1, 2))) {
        Report::Line(text) => assert_eq!(text, "a.txt\t1 lines\t2 words."),
        Report::Abort(text) => panic!("gave up with {}", text),
    }
}

#[test]
fn failure_gives_up_with_path_and_cause() {
    let outcome = Err("No such file or directory (os error 2)".to_string());
    match report("missing.txt", &outcome) {
        Report::Abort(text) => {
            assert_eq!(text, "Error - missing.txt: No such file or directory (os error 2)")
        }
        Report::Line(text) => panic!("reported {}", text),
    }
}
