use ascii_vault::buffer::{
    backspace, cursor_down, cursor_left, cursor_right, cursor_up, delete_char, insert_char,
    line_end, line_start, pos_to_line_col,
};

#[test]
fn line_col_counts_lines_and_chars() {
    assert_eq!(pos_to_line_col("hello\nworld", 8), (1, 2));
    assert_eq!(pos_to_line_col("hello\nworld", 0), (0, 0));
    assert_eq!(pos_to_line_col("hello\nworld", 6), (1, 0));
    assert_eq!(pos_to_line_col("hello\nworld", 5), (0, 5));
    assert_eq!(pos_to_line_col("a\nb\n", 4), (2, 0));
}

#[test]
fn line_col_past_end_and_empty() {
    assert_eq!(pos_to_line_col("", 5), (0, 0));
    assert_eq!(pos_to_line_col("ab", 100), (0, 2));
    assert_eq!(pos_to_line_col("ab\ncd", usize::MAX), (1, 2));
}

#[test]
fn line_col_inside_a_character() {
    // 'é' takes bytes 1 and 2
    assert_eq!(pos_to_line_col("héllo", 2), (0, 1));
    assert_eq!(pos_to_line_col("héllo", 3), (0, 2));
    assert_eq!(pos_to_line_col("日本\n語", 7), (1, 0));
    assert_eq!(pos_to_line_col("日本\n語", 9), (1, 0));
    assert_eq!(pos_to_line_col("日本\n語", 10), (1, 1));
}

#[test]
fn left_steps_over_whole_characters() {
    assert_eq!(cursor_left("héllo", 3), 1);
    assert_eq!(cursor_left("héllo", 1), 0);
    assert_eq!(cursor_left("héllo", 0), 0);
    assert_eq!(cursor_left("héllo", 2), 1);
    assert_eq!(cursor_left("ab", 10), 2);
    assert_eq!(cursor_left("a😀", 5), 1);
}

#[test]
fn right_steps_over_whole_characters() {
    assert_eq!(cursor_right("héllo", 1), 3);
    assert_eq!(cursor_right("héllo", 2), 3);
    assert_eq!(cursor_right("héllo", 0), 1);
    assert_eq!(cursor_right("ab", 2), 2);
    assert_eq!(cursor_right("ab", 7), 2);
    assert_eq!(cursor_right("a😀b", 1), 5);
}

#[test]
fn left_and_right_undo_each_other() {
    let s = "aé😀\nb";
    let mut p = 0;
    while p < s.len() {
        let r = cursor_right(s, p);
        assert!(r > p);
        assert_eq!(cursor_left(s, r), p);
        assert_eq!(cursor_right(s, cursor_left(s, r)), r);
        p = r;
    }
}

#[test]
fn home_and_end_of_line() {
    assert_eq!(line_start("ab\ncd", 4), 3);
    assert_eq!(line_start("ab\ncd", 1), 0);
    assert_eq!(line_start("ab\ncd", 3), 3);
    assert_eq!(line_start("ab\n", 10), 3);
    assert_eq!(line_end("ab\ncd", 1), 2);
    assert_eq!(line_end("ab\ncd", 3), 5);
    assert_eq!(line_end("ab\ncd", 2), 2);
    assert_eq!(line_end("ab\ncd", 99), 5);
    assert_eq!(line_end("é\né", 0), 2);
}

#[test]
fn home_lands_in_column_zero() {
    let s = "one\ntwo two\nthree";
    for p in [0usize, 2, 4, 6, 11, 12, 16, 17] {
        if s.is_char_boundary(p) {
            let h = line_start(s, p);
            assert_eq!(pos_to_line_col(s, h), (pos_to_line_col(s, p).0, 0));
        }
    }
}

#[test]
fn up_keeps_column_or_clamps() {
    assert_eq!(cursor_up("abc\nde", 6), 2);
    assert_eq!(cursor_up("a\nxyz", 5), 1);
    assert_eq!(cursor_up("abc", 2), 0);
    assert_eq!(cursor_up("éé\nab", 6), 2);
    assert_eq!(cursor_up("ab\n\ncd", 5), 3);
}

#[test]
fn down_keeps_column_or_clamps() {
    assert_eq!(cursor_down("ab\ncdef", 1), 4);
    assert_eq!(cursor_down("abcd\nx", 3), 6);
    assert_eq!(cursor_down("abc", 1), 3);
    assert_eq!(cursor_down("a\nb\nc", 0), 2);
    assert_eq!(cursor_down("ab\n", 1), 3);
    assert_eq!(cursor_down("ab\néé", 1), 5);
}

#[test]
fn up_and_down_change_the_line_by_one() {
    let s = "first line\nx\nthird line here";
    let p = 8; // column 8 of line 0
    let d = cursor_down(s, p);
    assert_eq!(pos_to_line_col(s, d), (1, 1));
    let dd = cursor_down(s, d);
    assert_eq!(pos_to_line_col(s, dd), (2, 1));
    let u = cursor_up(s, dd);
    assert_eq!(pos_to_line_col(s, u), (1, 1));
    let far = cursor_down(s, 20);
    assert_eq!(far, s.len());
}

#[test]
fn insert_moves_cursor_past_the_char() {
    let mut buf = String::from("ac");
    let mut pos = 1;
    insert_char(&mut buf, &mut pos, 'b');
    assert_eq!(buf, "abc");
    assert_eq!(pos, 2);
    let mut buf = String::from("x");
    let mut pos = 0;
    insert_char(&mut buf, &mut pos, 'é');
    assert_eq!(buf, "éx");
    assert_eq!(pos, 2);
    let mut pos2 = buf.len();
    insert_char(&mut buf, &mut pos2, '😀');
    assert_eq!(buf, "éx😀");
    assert_eq!(pos2, 7);
    insert_char(&mut buf, &mut pos2, '\n');
    assert_eq!(buf, "éx😀\n");
    assert_eq!(pos2, 8);
}

#[test]
fn backspace_removes_the_char_before() {
    let mut buf = String::from("héllo");
    let mut pos = 3;
    backspace(&mut buf, &mut pos);
    assert_eq!(buf, "hllo");
    assert_eq!(pos, 1);
    let mut buf = String::from("héllo");
    let mut pos = 0;
    backspace(&mut buf, &mut pos);
    assert_eq!(buf, "héllo");
    assert_eq!(pos, 0);
    let mut buf = String::from("héllo");
    let mut pos = 2;
    backspace(&mut buf, &mut pos);
    assert_eq!(buf, "hllo");
    assert_eq!(pos, 1);
    let mut buf = String::from("ab\n");
    let mut pos = 3;
    backspace(&mut buf, &mut pos);
    assert_eq!(buf, "ab");
    assert_eq!(pos, 2);
}

#[test]
fn backspace_undoes_insert() {
    for c in ['a', 'é', '日', '😀', '\n'] {
        let mut buf = String::from("héllo\nwörld");
        let mut pos = 7;
        insert_char(&mut buf, &mut pos, c);
        backspace(&mut buf, &mut pos);
        assert_eq!(buf, "héllo\nwörld");
        assert_eq!(pos, 7);
    }
}

#[test]
fn delete_removes_the_char_at_cursor() {
    let mut buf = String::from("héllo");
    delete_char(&mut buf, 1);
    assert_eq!(buf, "hllo");
    let mut buf = String::from("héllo");
    delete_char(&mut buf, 2);
    assert_eq!(buf, "héllo");
    let mut buf = String::from("héllo");
    delete_char(&mut buf, 5);
    assert_eq!(buf, "héll");
    let mut buf = String::from("héllo");
    delete_char(&mut buf, 6);
    assert_eq!(buf, "héllo");
    let mut buf = String::from("héllo");
    delete_char(&mut buf, 60);
    assert_eq!(buf, "héllo");
}

#[test]
fn insert_undoes_delete() {
    let text = "a😀b\nc";
    let mut p = 0;
    while p < text.len() {
        let mut buf = String::from(text);
        let c = text[p..].chars().next().unwrap();
        delete_char(&mut buf, p);
        let mut pos = p;
        insert_char(&mut buf, &mut pos, c);
        assert_eq!(buf, text);
        p += c.len_utf8();
    }
}

#[test]
fn end_stops_at_newline_or_text_end() {
    let s = "ab\nçd\n\nef";
    let mut p = 0;
    while p <= s.len() {
        if s.is_char_boundary(p) {
            let e = line_end(s, p);
            assert!(e == s.len() || s.as_bytes()[e] == b'\n');
            assert_eq!(pos_to_line_col(s, e).0, pos_to_line_col(s, p).0);
        }
        p += 1;
    }
}
