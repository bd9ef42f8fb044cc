use persistent_overlay::bytes::{find_byte, parse_coordinate, same_bytes};
use persistent_overlay::popup::first_popup_row;
use persistent_overlay::{
    popup_frame_delta, popup_rows, update_persistent_overlay_cache, OverlayFrame,
};

const WIDTH: usize = 20;

/// One row as the popup renderer draws it.
fn row(y: usize, x: usize, content: &str) -> Vec<u8> {
    format!("\x1b7\x1b[0m\x1b[{};{}H{}\x1b[0m\x1b8", y, x, content).into_bytes()
}

fn char_width(c: char) -> usize {
    if ('\u{1100}'..='\u{ffdc}').contains(&c) {
        2
    } else {
        1
    }
}

/// The columns that a text takes, escape sequences left out.
fn text_width(text: &str) -> usize {
    let mut width = 0;
    let mut escape = false;
    for c in text.chars() {
        if c == '\x1b' {
            escape = true;
        } else if escape {
            escape = c != 'm';
        } else {
            width += char_width(c);
        }
    }
    width
}

/// A borderless popup at the third row and column, its rows padded to its width.
fn popup(rows: &[&str]) -> OverlayFrame {
    let mut frame = Vec::new();
    for (i, text) in rows.iter().enumerate() {
        let padding = " ".repeat(WIDTH - text_width(text));
        frame.extend(row(3 + i, 3, &format!("{}{}", text, padding)));
    }
    OverlayFrame::persistent(frame, 1, 1).with_row_diff()
}

/// What a terminal of 40 columns and 10 rows shows once it has read the frames.
fn screen(frames: &[&[u8]]) -> Vec<Vec<(char, String)>> {
    let mut cells = vec![vec![(' ', String::new()); 40]; 10];
    let (mut y, mut x) = (0, 0);
    let mut saved = (0, 0);
    let mut attributes = String::new();
    for frame in frames {
        let text = String::from_utf8(frame.to_vec()).unwrap();
        let mut input = text.chars();
        while let Some(c) = input.next() {
            if c != '\x1b' {
                cells[y][x] = (c, attributes.clone());
                x += 1;
                if char_width(c) == 2 {
                    cells[y][x] = ('\0', attributes.clone());
                    x += 1;
                }
                continue;
            }
            match input.next() {
                Some('7') => saved = (y, x),
                Some('8') => (y, x) = saved,
                Some('[') => {
                    let mut parameters = String::new();
                    loop {
                        match input.next() {
                            Some('m') => {
                                if parameters == "0" {
                                    attributes.clear();
                                } else {
                                    attributes.push_str(&parameters);
                                }
                                break;
                            }
                            Some('H') => {
                                let (row, column) = parameters.split_once(';').unwrap();
                                y = row.parse::<usize>().unwrap() - 1;
                                x = column.parse::<usize>().unwrap() - 1;
                                break;
                            }
                            Some(other) => parameters.push(other),
                            None => panic!("unfinished escape sequence"),
                        }
                    }
                }
                other => panic!("unknown escape sequence {:?}", other),
            }
        }
    }
    cells
}

#[test]
fn popup_delta_preserves_screen_and_erases_shortened_coloured_wide_rows() {
    let before = popup(&["unchanged", "\x1b[31m긴 문자열 abcdef", "last"]);
    let after = popup(&["unchanged", "\x1b[32m짧음", "last"]);
    let delta = popup_frame_delta(Some(&before.frame), true, &after).unwrap();
    assert!(delta.len() < after.frame.len() / 2);
    assert!(!String::from_utf8_lossy(&delta).contains("unchanged"));
    assert_eq!(screen(&[&before.frame, &delta]), screen(&[&after.frame]));
    let cleared = popup(&["unchanged", "", "last"]);
    let delta = popup_frame_delta(Some(&after.frame), true, &cleared).unwrap();
    assert_eq!(screen(&[&after.frame, &delta]), screen(&[&cleared.frame]));
}

#[test]
fn popup_delta_skips_identical_frames_but_caches_full_restorable_frame() {
    let before = popup(&["one", "two", "three"]);
    assert_eq!(
        popup_frame_delta(Some(&before.frame), true, &before),
        Some(vec![])
    );
    let after = popup(&["one", "changed", "three"]);
    let mut cache = Some(before.frame);
    let mut visible = true;
    let delta = popup_frame_delta(cache.as_deref(), visible, &after).unwrap();
    update_persistent_overlay_cache(&mut cache, &mut visible, &after);
    assert_ne!(cache.as_deref(), Some(delta.as_slice()));
    assert_eq!(cache, Some(after.frame));
}

#[test]
fn popup_delta_falls_back_for_restore_resize_move_and_overlapping_menu() {
    let before = popup(&["one", "two", "three"]);
    assert!(popup_frame_delta(None, true, &before).is_none());
    assert!(popup_frame_delta(Some(&before.frame), false, &before).is_none());
    let moved = OverlayFrame::persistent(
        String::from_utf8(before.frame.clone())
            .unwrap()
            .replace("[3;3H", "[2;3H")
            .into_bytes(),
        1,
        2,
    )
    .with_row_diff();
    assert!(popup_frame_delta(Some(&before.frame), true, &moved).is_none());
    let mut resized = popup(&["one", "two", "three"]);
    let last_row_len = popup_rows(&resized.frame).unwrap().last().unwrap().1.len();
    resized.frame.truncate(resized.frame.len() - last_row_len);
    assert!(popup_frame_delta(Some(&before.frame), true, &resized).is_none());
    let mut nested = popup(&["one", "two", "three"]);
    nested.frame.extend_from_slice(&before.frame);
    assert!(popup_frame_delta(Some(&nested.frame), true, &nested).is_none());
    let explicit_refresh = OverlayFrame::persistent(before.frame.clone(), 1, 2);
    assert!(popup_frame_delta(Some(&before.frame), true, &explicit_refresh).is_none());
}

#[test]
fn popup_delta_is_the_changed_row_in_full() {
    let before = popup(&["one", "two", "three"]);
    let after = popup(&["one", "2", "three"]);
    let delta = popup_frame_delta(Some(&before.frame), true, &after).unwrap();
    assert_eq!(delta, row(4, 3, &format!("2{}", " ".repeat(19))));
    assert_eq!(popup_rows(&delta).unwrap().len(), 1);
    assert!(delta.len() < after.frame.len());
}

#[test]
fn popup_delta_keeps_the_order_of_several_changed_rows() {
    let before = popup(&["a", "b", "c", "d"]);
    let after = popup(&["x", "b", "y", "d"]);
    let delta = popup_frame_delta(Some(&before.frame), true, &after).unwrap();
    let expected: Vec<u8> = [
        row(3, 3, &format!("x{}", " ".repeat(19))),
        row(5, 3, &format!("y{}", " ".repeat(19))),
    ]
    .concat();
    assert_eq!(delta, expected);
}

#[test]
fn chain_of_deltas_shows_the_last_frame() {
    let first = popup(&["one", "two", "three"]);
    let mut cache = None;
    let mut visible = false;
    update_persistent_overlay_cache(&mut cache, &mut visible, &first);
    let mut written = vec![first.frame];
    for texts in [
        ["one", "2", "three"],
        ["1", "2", "three"],
        ["1", "two again", "3"],
    ] {
        let next = popup(&texts);
        written.push(popup_frame_delta(cache.as_deref(), visible, &next).unwrap());
        update_persistent_overlay_cache(&mut cache, &mut visible, &next);
    }
    let frames: Vec<&[u8]> = written.iter().map(Vec::as_slice).collect();
    assert_eq!(screen(&frames), screen(&[&cache.unwrap()]));
}

#[test]
fn popup_delta_falls_back_for_transient_overlays_and_other_spellings_of_a_position() {
    let before = popup(&["one"]);
    let mut transient = popup(&["one"]);
    transient.persistent = false;
    assert!(popup_frame_delta(Some(&before.frame), true, &transient).is_none());
    let spelled = OverlayFrame::persistent(
        String::from_utf8(before.frame.clone())
            .unwrap()
            .replace("[3;3H", "[03;3H")
            .into_bytes(),
        1,
        2,
    )
    .with_row_diff();
    assert!(popup_rows(&spelled.frame).is_some());
    assert!(popup_frame_delta(Some(&before.frame), true, &spelled).is_none());
    let message = OverlayFrame::persistent(b"message".to_vec(), 1, 2).with_row_diff();
    assert!(popup_frame_delta(Some(&before.frame), true, &message).is_none());
    assert!(popup_frame_delta(Some(b"message"), true, &before).is_none());
}

#[test]
fn popup_rows_are_the_whole_frame() {
    let frame = popup(&["one", "two", "three"]).frame;
    let rows = popup_rows(&frame).unwrap();
    assert_eq!(rows.len(), 3);
    assert_eq!(rows[0].0, b"3;3H");
    assert_eq!(rows[1].0, b"4;3H");
    assert_eq!(rows[2].0, b"5;3H");
    let joined: Vec<u8> = rows.iter().flat_map(|row| row.1.iter().copied()).collect();
    assert_eq!(joined, frame);
    assert!(joined.starts_with(rows[0].1));
}

#[test]
fn popup_rows_accept_a_row_without_content() {
    let frame = row(1, 1, "");
    let rows = popup_rows(&frame).unwrap();
    assert_eq!(rows, vec![(&b"1;1H"[..], &frame[..])]);
}

#[test]
fn popup_rows_read_coordinates_as_numbers() {
    assert!(popup_rows(b"\x1b7\x1b[0m\x1b[+3;+3Hx\x1b[0m\x1b8").is_some());
    assert!(popup_rows(b"\x1b7\x1b[0m\x1b[0003;3Hx\x1b[0m\x1b8").is_some());
    assert!(popup_rows(b"\x1b7\x1b[0m\x1b[65535;0Hx\x1b[0m\x1b8").is_some());
    assert!(popup_rows(b"\x1b7\x1b[0m\x1b[65536;3Hx\x1b[0m\x1b8").is_none());
    assert!(popup_rows(b"\x1b7\x1b[0m\x1b[3;65536Hx\x1b[0m\x1b8").is_none());
    assert!(popup_rows(b"\x1b7\x1b[0m\x1b[-3;3Hx\x1b[0m\x1b8").is_none());
    assert!(popup_rows(b"\x1b7\x1b[0m\x1b[;3Hx\x1b[0m\x1b8").is_none());
    assert!(popup_rows(b"\x1b7\x1b[0m\x1b[3;Hx\x1b[0m\x1b8").is_none());
    assert!(popup_rows(b"\x1b7\x1b[0m\x1b[+;3Hx\x1b[0m\x1b8").is_none());
    assert!(popup_rows(b"\x1b7\x1b[0m\x1b[3;3;3Hx\x1b[0m\x1b8").is_none());
    assert!(popup_rows(b"\x1b7\x1b[0m\x1b[33Hx\x1b[0m\x1b8").is_none());
    assert!(popup_rows(b"\x1b7\x1b[0m\x1b[\xff3;3Hx\x1b[0m\x1b8").is_none());
}

#[test]
fn popup_rows_refuse_other_layouts() {
    assert!(popup_rows(b"").is_none());
    assert!(popup_rows(b"plain").is_none());
    // The first row of the screen is row 1.
    assert!(popup_rows(&row(0, 3, "x")).is_none());
    // Rows must go down, at one column.
    assert!(popup_rows(&[row(4, 3, "x"), row(4, 3, "y")].concat()).is_none());
    assert!(popup_rows(&[row(4, 3, "x"), row(3, 3, "y")].concat()).is_none());
    assert!(popup_rows(&[row(3, 3, "x"), row(4, 4, "y")].concat()).is_none());
    assert!(popup_rows(&[row(3, 3, "x"), row(7, 3, "y")].concat()).is_some());
    // A row resets the attributes and restores the cursor at its end.
    assert!(popup_rows(b"\x1b7\x1b[0m\x1b[3;3Hx\x1b8").is_none());
    assert!(popup_rows(b"\x1b7\x1b[0m\x1b[3;3Hx\x1b[0m").is_none());
    assert!(popup_rows(b"\x1b7\x1b[0m\x1b[3;3Hx\x1b8y\x1b[0m\x1b8").is_none());
    assert!(popup_rows(b"\x1b7\x1b[0m\x1b[3;3").is_none());
    // Nothing may stand behind the last row.
    assert!(popup_rows(&[row(3, 3, "x"), b"y".to_vec()].concat()).is_none());
}

#[test]
fn first_row_tells_where_it_is() {
    let text = [row(12, 7, "x"), b"rest".to_vec()].concat();
    let (y, x, position, bytes) = first_popup_row(&text).unwrap();
    assert_eq!((y, x), (12, 7));
    assert_eq!(position, b"12;7H");
    assert_eq!(bytes, row(12, 7, "x"));
    assert!(first_popup_row(b"rest").is_none());
}

#[test]
fn byte_strings_are_searched_and_read() {
    assert_eq!(parse_coordinate(b"65535"), Some(65535));
    assert_eq!(parse_coordinate(b"+07"), Some(7));
    assert_eq!(parse_coordinate(b"65536"), None);
    assert_eq!(parse_coordinate(b"99999999999999999999"), None);
    assert_eq!(parse_coordinate(b""), None);
    assert_eq!(parse_coordinate(b"++1"), None);
    assert_eq!(find_byte(b"abcb", b'b'), Some(1));
    assert_eq!(find_byte(b"abcb", b'x'), None);
    assert!(same_bytes(b"abc", b"abc"));
    assert!(!same_bytes(b"abc", b"abd"));
    assert!(!same_bytes(b"abc", b"ab"));
}

#[test]
fn rows_further_down_join_the_stack() {
    let upper = popup(&["one", "two"]).frame;
    let lower = [row(7, 3, "three"), row(8, 3, "four")].concat();
    let joined = [upper.clone(), lower.clone()].concat();
    let rows = popup_rows(&joined).unwrap();
    let mut expected = popup_rows(&upper).unwrap();
    expected.extend(popup_rows(&lower).unwrap());
    assert_eq!(rows, expected);
    assert!(popup_rows(&[lower, upper].concat()).is_none());
}
