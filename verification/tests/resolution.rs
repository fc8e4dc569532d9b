use mersge::{Change, Column, Context, Line};

fn empty_line() -> Line {
    Line { value: String::new(), change: Change::Unchanged }
}

#[test]
fn parse_input_file() {
    let mut ctx = Context {
        file_name: String::new(),
        local_changes: vec![],
        incoming_changes: vec![],
        result: vec![],
        current_line: 0,
    };

    mersge::parse_input_file(&mut ctx, "a\n<<<<<<< HEAD\nb\n=======\nc\n>>>>>>> branch\nd\n");

    assert_eq!(ctx.local_changes.len(), 4);
    assert_eq!(ctx.result.len(), 4);
    assert_eq!(ctx.incoming_changes.len(), 4);
    assert_eq!(ctx.current_line, 0);

    let local: Vec<(&str, Change)> =
        ctx.local_changes.iter().map(|l| (l.value.as_str(), l.change)).collect();
    let result: Vec<(&str, Change)> =
        ctx.result.iter().map(|l| (l.value.as_str(), l.change)).collect();
    let incoming: Vec<(&str, Change)> =
        ctx.incoming_changes.iter().map(|l| (l.value.as_str(), l.change)).collect();

    assert_eq!(
        local,
        vec![
            ("a", Change::Unchanged),
            ("b", Change::Addition),
            ("-", Change::Deletion),
            ("d", Change::Unchanged),
        ]
    );
    assert_eq!(
        result,
        vec![
            ("a", Change::Unchanged),
            ("#", Change::Unchanged),
            ("#", Change::Unchanged),
            ("d", Change::Unchanged),
        ]
    );
    assert_eq!(
        incoming,
        vec![
            ("a", Change::Unchanged),
            ("-", Change::Deletion),
            ("c", Change::Addition),
            ("d", Change::Unchanged),
        ]
    );
}

#[test]
fn process_change() {
    let mut ctx = Context {
        file_name: String::new(),
        local_changes: vec![
            Line { value: String::from("L1"), change: Change::Addition },
            Line { value: String::from("L2"), change: Change::Addition },
        ],
        incoming_changes: vec![
            Line { value: String::from("R1"), change: Change::Deletion },
            Line { value: String::from("R2"), change: Change::Addition },
        ],
        result: vec![empty_line(), empty_line()],
        current_line: 0,
    };

    mersge::process_change(Column::Right, &mut ctx);
    assert_eq!(ctx.result[0].value, "");
    assert_eq!(ctx.result[0].change, Change::Deletion);

    ctx.current_line = 1;

    mersge::process_change(Column::Left, &mut ctx);
    assert_eq!(ctx.result[1].value, "L2");
    assert_eq!(ctx.result[1].change, Change::Addition);
}

#[test]
fn move_down() {
    let mut ctx = Context {
        file_name: String::new(),
        local_changes: vec![],
        incoming_changes: vec![],
        result: vec![empty_line(), empty_line()],
        current_line: 0,
    };

    mersge::move_down(&mut ctx);
    assert_eq!(ctx.current_line, 1);

    mersge::move_down(&mut ctx);
    assert_eq!(ctx.current_line, 1);
}

#[test]
fn move_up() {
    let mut ctx = Context {
        file_name: String::new(),
        local_changes: vec![],
        incoming_changes: vec![],
        result: vec![empty_line(), empty_line()],
        current_line: 1,
    };

    mersge::move_up(&mut ctx);
    assert_eq!(ctx.current_line, 0);

    mersge::move_up(&mut ctx);
    assert_eq!(ctx.current_line, 0);
}

#[test]
fn pad() {
    let mut s1 = String::from("ABC");

    s1 = mersge::pad(s1, 5);
    assert_eq!(s1.len(), 5);

    s1 = mersge::pad(s1, 3);
    assert_eq!(s1.len(), 5);
}
