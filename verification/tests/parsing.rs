use mersge::parser::{line_in, marker};
use mersge::text::{chars_of, lines, starts_with, string_of};
use mersge::{parse_input_file, serialize, Change, Column, Context, Line};

fn fresh() -> Context {
    Context {
        file_name: String::from("merged.txt"),
        local_changes: vec![],
        incoming_changes: vec![],
        result: vec![],
        current_line: 0,
    }
}

fn column(lines: &Vec<Line>) -> Vec<(String, Change)> {
    lines.iter().map(|l| (l.value.clone(), l.change)).collect()
}

fn row(value: &str, change: Change) -> (String, Change) {
    (String::from(value), change)
}

fn std_lines(text: &str) -> Vec<String> {
    text.lines().map(String::from).collect()
}

#[test]
fn lines_of_empty_text() {
    assert_eq!(lines(""), Vec::<String>::new());
}

#[test]
fn lines_end_at_line_feeds() {
    assert_eq!(lines("a\nb\nc\n"), vec!["a", "b", "c"]);
    assert_eq!(lines("a\nb\nc"), vec!["a", "b", "c"]);
}

#[test]
fn lines_keep_empty_lines() {
    assert_eq!(lines("\n"), vec![""]);
    assert_eq!(lines("\n\n"), vec!["", ""]);
    assert_eq!(lines("a\n\nb"), vec!["a", "", "b"]);
}

#[test]
fn lines_drop_carriage_return_before_line_feed() {
    assert_eq!(lines("a\r\nb\r\n"), vec!["a", "b"]);
    assert_eq!(lines("a\r\r\nb"), vec!["a\r", "b"]);
    assert_eq!(lines("\r\n"), vec![""]);
}

#[test]
fn lines_keep_other_carriage_returns() {
    assert_eq!(lines("a\rb\n"), vec!["a\rb"]);
    assert_eq!(lines("a\r"), vec!["a\r"]);
    assert_eq!(lines("\r"), vec!["\r"]);
}

#[test]
fn lines_agree_with_std() {
    let texts = [
        "",
        "\n",
        "\r",
        "\r\n",
        "\n\r",
        "a",
        "a\n",
        "a\r\n",
        "a\r",
        "a\r\r\n",
        "a\n\nb",
        "a\r\nb\rc\n\rd\r\n\r\n",
        "h\u{e9}llo\nw\u{f6}rld\n\u{4e16}\u{754c}",
        "<<<<<<< HEAD\nb\n=======\nc\n>>>>>>> branch\n",
        "no line feed at all",
        "\n\n\n",
    ];
    for text in texts {
        assert_eq!(lines(text), std_lines(text), "lines of {:?}", text);
    }
}

#[test]
fn chars_of_gives_every_character() {
    assert_eq!(chars_of(""), Vec::<char>::new());
    assert_eq!(chars_of("a\u{e9}\n"), vec!['a', '\u{e9}', '\n']);
}

#[test]
fn string_of_takes_a_range() {
    let chars = vec!['a', 'b', '\u{e9}', 'd'];
    assert_eq!(string_of(&chars, 1, 3), "b\u{e9}");
    assert_eq!(string_of(&chars, 2, 2), "");
    assert_eq!(string_of(&chars, 0, 4), "ab\u{e9}d");
}

#[test]
fn starts_with_compares_the_first_characters() {
    assert!(starts_with("<<<<<<< HEAD", "<<<<<<<"));
    assert!(starts_with("<<<<<<<", "<<<<<<<"));
    assert!(starts_with("anything", ""));
    assert!(starts_with("", ""));
    assert!(!starts_with("<<<<<<", "<<<<<<<"));
    assert!(!starts_with("", "<"));
    assert!(!starts_with(" <<<<<<<", "<<<<<<<"));
    assert!(!starts_with("<<<<<<=", "<<<<<<<"));
    assert!(starts_with("\u{e9}t\u{e9}", "\u{e9}t"));
}

#[test]
fn marker_goes_by_seven_characters() {
    assert_eq!(marker("<<<<<<< HEAD"), Some(Column::Left));
    assert_eq!(marker("<<<<<<<"), Some(Column::Left));
    assert_eq!(marker("<<<<<<<<<<"), Some(Column::Left));
    assert_eq!(marker("======="), Some(Column::Right));
    assert_eq!(marker("======= base"), Some(Column::Right));
    assert_eq!(marker(">>>>>>> branch"), Some(Column::Middle));
    assert_eq!(marker("<<<<<<"), None);
    assert_eq!(marker("======"), None);
    assert_eq!(marker(">>>>>>"), None);
    assert_eq!(marker(" <<<<<<<"), None);
    assert_eq!(marker(""), None);
    assert_eq!(marker("<<<=>>>"), None);
}

#[test]
fn line_in_each_region() {
    let cases = [
        (Column::Left, Column::Middle, "x", Change::Unchanged),
        (Column::Middle, Column::Middle, "x", Change::Unchanged),
        (Column::Right, Column::Middle, "x", Change::Unchanged),
        (Column::Left, Column::Left, "x", Change::Addition),
        (Column::Middle, Column::Left, "#", Change::Unchanged),
        (Column::Right, Column::Left, "-", Change::Deletion),
        (Column::Left, Column::Right, "-", Change::Deletion),
        (Column::Middle, Column::Right, "#", Change::Unchanged),
        (Column::Right, Column::Right, "x", Change::Addition),
    ];
    for (column, region, value, change) in cases {
        let made = line_in(column, region, "x");
        assert_eq!(made.value, value);
        assert_eq!(made.change, change);
    }
}

#[test]
fn parse_empty_text_gives_no_rows() {
    let mut ctx = fresh();
    parse_input_file(&mut ctx, "");
    assert!(ctx.local_changes.is_empty());
    assert!(ctx.result.is_empty());
    assert!(ctx.incoming_changes.is_empty());
    assert_eq!(ctx.current_line, 0);
    assert_eq!(ctx.file_name, "merged.txt");
}

#[test]
fn parse_gives_one_row_for_each_line_that_is_no_marker() {
    let texts = [
        "a\nb\n",
        "<<<<<<< HEAD\n=======\n>>>>>>> other\n",
        "a\n<<<<<<< HEAD\nb\nb2\n=======\nc\n>>>>>>> branch\nd\n",
        "<<<<<<< HEAD\nonly local\n",
        "=======\nonly incoming",
        ">>>>>>> stray\nafter\n",
    ];
    for text in texts {
        let mut ctx = fresh();
        parse_input_file(&mut ctx, text);
        let wanted = text
            .lines()
            .filter(|l| {
                !l.starts_with("<<<<<<<") && !l.starts_with("=======") && !l.starts_with(">>>>>>>")
            })
            .count();
        assert_eq!(ctx.local_changes.len(), wanted);
        assert_eq!(ctx.result.len(), wanted);
        assert_eq!(ctx.incoming_changes.len(), wanted);
    }
}

#[test]
fn parse_keeps_uneven_sides_aligned() {
    let mut ctx = fresh();
    parse_input_file(&mut ctx, "<<<<<<< HEAD\nl1\nl2\nl3\n=======\nr1\n>>>>>>> other\n");
    assert_eq!(
        column(&ctx.local_changes),
        vec![
            row("l1", Change::Addition),
            row("l2", Change::Addition),
            row("l3", Change::Addition),
            row("-", Change::Deletion),
        ]
    );
    assert_eq!(
        column(&ctx.result),
        vec![
            row("#", Change::Unchanged),
            row("#", Change::Unchanged),
            row("#", Change::Unchanged),
            row("#", Change::Unchanged),
        ]
    );
    assert_eq!(
        column(&ctx.incoming_changes),
        vec![
            row("-", Change::Deletion),
            row("-", Change::Deletion),
            row("-", Change::Deletion),
            row("r1", Change::Addition),
        ]
    );
}

#[test]
fn parse_goes_on_in_the_open_region() {
    let mut ctx = fresh();
    parse_input_file(&mut ctx, "a\n<<<<<<< HEAD\nb\nc\n");
    assert_eq!(
        column(&ctx.local_changes),
        vec![
            row("a", Change::Unchanged),
            row("b", Change::Addition),
            row("c", Change::Addition),
        ]
    );
    assert_eq!(
        column(&ctx.incoming_changes),
        vec![
            row("a", Change::Unchanged),
            row("-", Change::Deletion),
            row("-", Change::Deletion),
        ]
    );

    let mut ctx = fresh();
    parse_input_file(&mut ctx, "=======\nx\n<<<<<<< again\ny\n");
    assert_eq!(
        column(&ctx.local_changes),
        vec![row("-", Change::Deletion), row("y", Change::Addition)]
    );
    assert_eq!(
        column(&ctx.incoming_changes),
        vec![row("x", Change::Addition), row("-", Change::Deletion)]
    );
}

#[test]
fn parse_appends_to_the_rows_that_are_there() {
    let mut ctx = fresh();
    parse_input_file(&mut ctx, "a\n");
    ctx.current_line = 0;
    parse_input_file(&mut ctx, "<<<<<<< HEAD\nb\n");
    assert_eq!(
        column(&ctx.local_changes),
        vec![row("a", Change::Unchanged), row("b", Change::Addition)]
    );
    assert_eq!(
        column(&ctx.result),
        vec![row("a", Change::Unchanged), row("#", Change::Unchanged)]
    );
    assert_eq!(
        column(&ctx.incoming_changes),
        vec![row("a", Change::Unchanged), row("-", Change::Deletion)]
    );
}

#[test]
fn text_without_markers_comes_back() {
    let texts = ["", "a\n", "a\nb\nc\n", "\n\n", "  indented\n\ttab\n", "h\u{e9}\n"];
    for text in texts {
        let mut ctx = fresh();
        parse_input_file(&mut ctx, text);
        assert_eq!(serialize(&ctx), text);
    }
}

#[test]
fn text_without_markers_keeps_its_lines() {
    let texts = ["a", "a\nb", "a\r\nb\r\n", "one\r\ntwo"];
    for text in texts {
        let mut ctx = fresh();
        parse_input_file(&mut ctx, text);
        let written = serialize(&ctx);
        assert_eq!(lines(&written), lines(text));
        assert_eq!(std_lines(&written), std_lines(text));
    }
}

#[test]
fn a_line_that_keeps_a_carriage_return_loses_it_when_read_again() {
    let mut ctx = fresh();
    parse_input_file(&mut ctx, "a\r\r\n");
    assert_eq!(column(&ctx.result), vec![row("a\r", Change::Unchanged)]);
    let written = serialize(&ctx);
    assert_eq!(written, "a\r\n");
    assert_eq!(lines(&written), vec!["a"]);
}
