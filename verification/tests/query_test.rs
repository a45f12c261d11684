use thwack::query::{get_cjk_width, Query};

#[test]
fn test_query() {
    let mut query = Query::new("👩‍🔬!");
    assert_eq!(query.value, vec!["👩‍🔬", "!"]);
    assert_eq!(query.idx, 2);
    assert_eq!(query.terminal_pos, 3);

    assert_eq!(query.push(String::from("💇‍♂️")), 2);
    assert_eq!(query.push(String::from("a")), 1);
    assert_eq!(query.push(String::from("b")), 1);
    assert_eq!(query.value, vec!["👩‍🔬", "!", "💇‍♂️", "a", "b"]);
    assert_eq!(query.idx, 5);
    assert_eq!(query.terminal_pos, 7);

    assert_eq!(query.pop(), 1);
    assert_eq!(query.value, vec!["👩‍🔬", "!", "💇‍♂️", "a"]);
    assert_eq!(query.idx, 4);
    assert_eq!(query.terminal_pos, 6);

    assert_eq!(query.move_left(), 1);
    assert_eq!(query.idx, 3);
    assert_eq!(query.terminal_pos, 5);

    assert_eq!(query.pop(), 2);
    assert_eq!(query.value, vec!["👩‍🔬", "!", "a"]);
    assert_eq!(query.idx, 2);
    assert_eq!(query.terminal_pos, 3);

    assert_eq!(query.move_left(), 1);
    assert_eq!(query.move_left(), 2);
    assert_eq!(query.move_right(), 2);
    assert_eq!(query.move_right(), 1);
    assert_eq!(query.move_right(), 1);
    assert_eq!(query.move_right(), 0);
    assert_eq!(query.move_right(), 0);
    assert_eq!(query.idx, 3);
    assert_eq!(query.terminal_pos, 4);

    assert_eq!(query.push(String::from("?")), 1);
    assert_eq!(query.value, vec!["👩‍🔬", "!", "a", "?"]);
    assert_eq!(query.idx, 4);
    assert_eq!(query.terminal_pos, 5);

    assert_eq!(query.move_left(), 1);
    assert_eq!(query.move_left(), 1);
    assert_eq!(query.move_left(), 1);
    assert_eq!(query.move_left(), 2);
    assert_eq!(query.move_left(), 0);
    assert_eq!(query.move_left(), 0);
    assert_eq!(query.idx, 0);
    assert_eq!(query.terminal_pos, 0);

    assert_eq!(query.pop(), 0);
    assert_eq!(query.value, vec!["👩‍🔬", "!", "a", "?"]);
    assert_eq!(query.idx, 0);
    assert_eq!(query.terminal_pos, 0);

    assert_eq!(query.push(String::from("😇")), 2);
    assert_eq!(query.value, vec!["😇", "👩‍🔬", "!", "a", "?"]);
    assert_eq!(query.idx, 1);
    assert_eq!(query.terminal_pos, 2);
}

#[test]
fn test_to_string() {
    let query = Query::new("Super cool query");
    assert_eq!(
        query.value,
        vec![
            "S", "u", "p", "e", "r", " ", "c", "o", "o", "l", " ", "q", "u", "e", "r", "y"
        ]
    );
    assert_eq!(query.idx, 16);
    assert_eq!(query.terminal_pos, 16);
    assert_eq!(query.to_string(), "Super cool query");
}

#[test]
fn pop_returns_to_empty_and_move_left_clamps() {
    let mut query = Query::new("ABC");
    assert_eq!(query.idx, 3);
    query.pop();
    query.pop();
    query.pop();
    assert_eq!(query.value, Vec::<String>::new());
    assert_eq!(query.idx, 0);
    assert_eq!(query.terminal_pos, 0);
    assert_eq!(query.move_left(), 0);
    assert_eq!(query.idx, 0);
    assert_eq!(query.pop(), 0);
}

#[test]
fn cell_widths() {
    assert_eq!(get_cjk_width("a"), 1);
    assert_eq!(get_cjk_width("☕"), 2);
    assert_eq!(get_cjk_width("🚞"), 2);
    assert_eq!(get_cjk_width("👩‍🔬"), 2);
}
