use bsv::edit::{EditField, EditState};

fn state(text: &str) -> EditState {
    EditState::new("bsv-1".to_string(), EditField::Description, text.to_string())
}

fn at(e: &EditState) -> (usize, usize, usize) {
    (e.cursor(), e.cursor_line(), e.cursor_col())
}

#[test]
fn a_new_buffer_has_the_cursor_at_the_end() {
    let e = state("ab\ncd");
    assert_eq!(e.buffer(), "ab\ncd");
    assert_eq!(e.original(), "ab\ncd");
    assert_eq!(at(&e), (5, 1, 2));
    assert_eq!(e.issue_id(), "bsv-1");
    assert_eq!(e.field(), EditField::Description);
    assert!(!e.is_modified());
    let empty = state("");
    assert_eq!(at(&empty), (0, 0, 0));
    let ends = state("a\n");
    assert_eq!(at(&ends), (2, 1, 0));
}

#[test]
fn inserting_moves_the_cursor_behind_what_was_put_in() {
    let mut e = state("ac");
    e.move_left();
    e.insert_char('b');
    assert_eq!(e.buffer(), "abc");
    assert_eq!(at(&e), (2, 0, 2));
    e.insert_str("é\nx");
    assert_eq!(e.buffer(), "abé\nxc");
    assert_eq!(at(&e), (5, 1, 1));
    e.insert_str("");
    assert_eq!(e.buffer(), "abé\nxc");
    assert!(e.is_modified());
}

#[test]
fn deleting_before_and_at_the_cursor() {
    let mut e = state("aéb");
    e.delete_char_at();
    assert_eq!(e.buffer(), "aéb");
    e.delete_char_before();
    assert_eq!(e.buffer(), "aé");
    assert_eq!(at(&e), (2, 0, 2));
    e.move_left();
    e.delete_char_at();
    assert_eq!(e.buffer(), "a");
    assert_eq!(at(&e), (1, 0, 1));
    e.delete_char_before();
    e.delete_char_before();
    assert_eq!(e.buffer(), "");
    assert_eq!(at(&e), (0, 0, 0));
}

#[test]
fn moving_left_and_right_stops_at_the_ends() {
    let mut e = state("ab");
    e.move_right();
    assert_eq!(e.cursor(), 2);
    e.move_left();
    e.move_left();
    e.move_left();
    assert_eq!(e.cursor(), 0);
    e.move_right();
    assert_eq!(e.cursor(), 1);
}

#[test]
fn moving_to_the_ends_of_a_line() {
    let mut e = state("one\ntwo\nthree");
    e.move_up();
    assert_eq!(at(&e), (7, 1, 3));
    e.move_to_line_start();
    assert_eq!(at(&e), (4, 1, 0));
    e.move_to_line_start();
    assert_eq!(at(&e), (4, 1, 0));
    e.move_right();
    e.move_to_line_end();
    assert_eq!(at(&e), (7, 1, 3));
    e.move_to_line_end();
    assert_eq!(at(&e), (7, 1, 3));
}

#[test]
fn moving_up_and_down_keeps_the_column_where_it_can() {
    let mut e = state("abcdef\nxy\n\nlonger line");
    e.move_to_line_start();
    for _ in 0..5 {
        e.move_right();
    }
    assert_eq!(at(&e), (16, 3, 5));
    e.move_up();
    assert_eq!(at(&e), (10, 2, 0));
    e.move_up();
    assert_eq!(at(&e), (7, 1, 0));
    e.move_right();
    e.move_right();
    e.move_up();
    assert_eq!(at(&e), (2, 0, 2));
    e.move_up();
    assert_eq!(at(&e), (2, 0, 2));
    e.move_to_line_end();
    e.move_down();
    assert_eq!(at(&e), (9, 1, 2));
    e.move_down();
    assert_eq!(at(&e), (10, 2, 0));
    e.move_down();
    assert_eq!(at(&e), (11, 3, 0));
    e.move_down();
    assert_eq!(at(&e), (11, 3, 0));
}

#[test]
fn revert_brings_the_text_back() {
    let mut e = state("keep");
    e.delete_char_before();
    e.insert_str("\nmore");
    assert!(e.is_modified());
    e.revert();
    assert_eq!(e.buffer(), "keep");
    assert_eq!(at(&e), (4, 0, 4));
    assert!(!e.is_modified());
    e.delete_char_before();
    e.insert_char('p');
    assert!(!e.is_modified());
}
