//! Reducing a popup refresh to the rows that changed.
//!
//! A popup frame qualifies when it is nothing but self-contained rows: each saves the cursor,
//! resets the attributes, moves to an absolute position, draws, resets the attributes again and
//! restores the cursor. The rows stand at one column, each strictly below the one before.
use vstd::prelude::*;

use crate::bytes::{find_byte, parse_coordinate, same_bytes};
use crate::types::{OverlayFrame, OverlayView};

verus! {

/// One self-contained row of a popup frame.
#[verifier::ext_equal]
pub struct PopupRow {
    /// The screen row that it is drawn on, counted from 1.
    pub y: u16,
    /// The screen column that it starts at.
    pub x: u16,
    /// The coordinates as they are written: row, semicolon, column and the final `H`.
    pub position: Seq<u8>,
    /// All bytes of the row, from saving the cursor to restoring it.
    pub bytes: Seq<u8>,
}

/// Save the cursor, reset the attributes, and begin a cursor movement: `ESC 7 ESC [ 0 m ESC [`.
pub open spec fn row_start() -> Seq<u8> {
    seq![0x1bu8, 0x37, 0x1b, 0x5b, 0x30, 0x6d, 0x1b, 0x5b]
}

/// Reset the attributes and restore the cursor: `ESC [ 0 m ESC 8`.
pub open spec fn row_finish() -> Seq<u8> {
    seq![0x1bu8, 0x5b, 0x30, 0x6d, 0x1b, 0x38]
}

/// Whether the cursor is restored (`ESC 8`) at place `i` of `text`.
pub open spec fn restores_at(text: Seq<u8>, i: int) -> bool {
    0 <= i && i + 1 < text.len() && text[i] == 0x1b && text[i + 1] == 0x38
}

/// Whether `position` is a row, a semicolon at place `k`, a column and a final `H`.
pub open spec fn position_reads(position: Seq<u8>, k: int, y: u16, x: u16) -> bool {
    &&& 0 <= k < position.len() - 1
    &&& position[k] == 0x3b
    &&& position.last() == 0x48
    &&& crate::bytes::coordinate(position.take(k)) == Some(y)
    &&& crate::bytes::coordinate(position.subrange(k + 1, position.len() - 1)) == Some(x)
}

/// Whether `row` is a self-contained row: start, position, content and finish, with the cursor
/// restored at the very end and nowhere before.
pub open spec fn is_popup_row(row: PopupRow) -> bool {
    let n = row.bytes.len() as int;
    let p = row.position.len() as int;
    &&& exists|k: int| position_reads(row.position, k, row.y, row.x)
    &&& n >= 8 + p + 6
    &&& row.bytes.take(8) == row_start()
    &&& row.bytes.subrange(8, 8 + p) == row.position
    &&& row.bytes.skip(n - 6) == row_finish()
    &&& forall|i: int| 0 <= i < n - 2 ==> !#[trigger] restores_at(row.bytes, i)
}

/// The rows, one after the other.
pub open spec fn rows_bytes(rows: Seq<PopupRow>) -> Seq<u8>
    decreases rows.len(),
{
    if rows.len() == 0 {
        Seq::empty()
    } else {
        rows[0].bytes + rows_bytes(rows.drop_first())
    }
}

/// Whether `rows` are self-contained rows at one column, each strictly below the one before.
pub open spec fn are_stacked(rows: Seq<PopupRow>) -> bool {
    &&& forall|i: int| 0 <= i < rows.len() ==> is_popup_row(#[trigger] rows[i]) && rows[i].y > 0
    &&& forall|i: int, j: int|
        0 <= i < j < rows.len() ==> (#[trigger] rows[i]).y < (#[trigger] rows[j]).y && rows[i].x
            == rows[j].x
}

/// Whether `frame` is made of exactly these rows, and of at least one.
pub open spec fn is_layout(frame: Seq<u8>, rows: Seq<PopupRow>) -> bool {
    &&& rows.len() > 0
    &&& are_stacked(rows)
    &&& rows_bytes(rows) == frame
}

/// The rows of a popup frame; `None` where the frame does not qualify. No frame can be read as
/// rows in two ways (see [`crate::popup_laws::layout_is_unique`]).
pub open spec fn popup_layout(frame: Seq<u8>) -> Option<Seq<PopupRow>> {
    if exists|rows: Seq<PopupRow>| is_layout(frame, rows) {
        Some(choose|rows: Seq<PopupRow>| is_layout(frame, rows))
    } else {
        None
    }
}

/// Whether `text` begins with the row `row`.
pub open spec fn begins_with_row(text: Seq<u8>, row: PopupRow) -> bool {
    &&& is_popup_row(row)
    &&& row.bytes.len() <= text.len()
    &&& text.take(row.bytes.len() as int) == row.bytes
}

/// The bytes of a position in front of its final `H`: digits, plus signs, and one semicolon.
proof fn lemma_position_bytes(position: Seq<u8>, k: int, y: u16, x: u16)
    requires
        position_reads(position, k, y, x),
    ensures
        forall|i: int|
            0 <= i < position.len() - 1 && i != k ==> crate::bytes::is_digit(#[trigger] position[i])
                || position[i] == 0x2b,
{
    let row = position.take(k);
    let column = position.subrange(k + 1, position.len() - 1);
    crate::bytes::lemma_coordinate_bytes(row);
    crate::bytes::lemma_coordinate_bytes(column);
    assert forall|i: int| 0 <= i < position.len() - 1 && i != k implies crate::bytes::is_digit(
        #[trigger] position[i],
    ) || position[i] == 0x2b by {
        if i < k {
            assert(row[i] == position[i]);
        } else {
            assert(column[i - k - 1] == position[i]);
        }
    }
}

/// Where everything is in a text that begins with a row.
proof fn lemma_row_head(text: Seq<u8>, row: PopupRow) -> (k: int)
    requires
        begins_with_row(text, row),
    ensures
        position_reads(row.position, k, row.y, row.x),
        row.bytes.len() >= 14 + row.position.len(),
        text.take(8) == row_start(),
        text.subrange(8, 8 + row.position.len() as int) == row.position,
        forall|i: int|
            0 <= i < row.position.len() - 1 ==> #[trigger] row.position[i] != 0x48
                && row.position[i] != 0x1b && (row.position[i] == 0x3b <==> i == k),
        text.subrange(row.bytes.len() - 6, row.bytes.len() as int) == row_finish(),
        restores_at(text, row.bytes.len() - 2),
        forall|i: int| 0 <= i < row.bytes.len() - 2 ==> !#[trigger] restores_at(text, i),
{
    let n = row.bytes.len() as int;
    let p = row.position.len() as int;
    let k = choose|k: int| position_reads(row.position, k, row.y, row.x);
    lemma_position_bytes(row.position, k, row.y, row.x);
    assert forall|i: int| 0 <= i < n implies text[i] == #[trigger] row.bytes[i] by {
        assert(text.take(n)[i] == text[i]);
    }
    assert(text.take(8) =~= row.bytes.take(8));
    assert(text.subrange(8, 8 + p) =~= row.bytes.subrange(8, 8 + p));
    assert(text.subrange(n - 6, n) =~= row.bytes.skip(n - 6));
    assert(row.bytes.skip(n - 6)[4] == row.bytes[n - 2]);
    assert(row.bytes.skip(n - 6)[5] == row.bytes[n - 1]);
    assert forall|i: int| 0 <= i < n - 2 implies !#[trigger] restores_at(text, i) by {
        assert(!restores_at(row.bytes, i));
        assert(text[i] == row.bytes[i]);
        assert(text[i + 1] == row.bytes[i + 1]);
    }
    k
}

/// A text begins with at most one row.
pub proof fn lemma_first_row_unique(text: Seq<u8>, left: PopupRow, right: PopupRow)
    requires
        begins_with_row(text, left),
        begins_with_row(text, right),
    ensures
        left == right,
{
    let kl = lemma_row_head(text, left);
    let kr = lemma_row_head(text, right);
    assert(left.bytes.len() == right.bytes.len());
    assert(left.bytes == right.bytes);
    let pl = left.position.len() as int;
    let pr = right.position.len() as int;
    if pl < pr {
        assert(right.position[pl - 1] == text[8 + pl - 1]);
        assert(left.position[pl - 1] == text[8 + pl - 1]);
    }
    if pr < pl {
        assert(left.position[pr - 1] == text[8 + pr - 1]);
        assert(right.position[pr - 1] == text[8 + pr - 1]);
    }
    assert(left.position == right.position);
    assert(kl == kr) by {
        assert(left.position[kl] == 0x3b);
        assert(right.position[kr] == 0x3b);
    }
}

/// The first row of `text`, with its coordinates and its position; `None` where `text` begins
/// with no row.
pub fn first_popup_row<'a>(text: &'a [u8]) -> (first: Option<(u16, u16, &'a [u8], &'a [u8])>)
    ensures
        match first {
            Some((y, x, position, row)) => begins_with_row(
                text@,
                (PopupRow { y, x, position: position@, bytes: row@ }),
            ),
            None => forall|row: PopupRow| !#[trigger] begins_with_row(text@, row),
        },
{
    if text.len() < 8 || !same_bytes(
        vstd::slice::slice_subrange(text, 0, 8),
        &[0x1b, 0x37, 0x1b, 0x5b, 0x30, 0x6d, 0x1b, 0x5b],
    ) {
        proof {
            assert forall|row: PopupRow| !#[trigger] begins_with_row(text@, row) by {
                if begins_with_row(text@, row) {
                    lemma_row_head(text@, row);
                    assert(text@.subrange(0, 8) =~= text@.take(8));
                }
            }
        }
        return None;
    }
    assert(text@.take(8) =~= row_start());
    let rest = vstd::slice::slice_subrange(text, 8, text.len());
    let h = match find_byte(rest, 0x48) {
        Some(h) => h,
        None => {
            proof {
                assert forall|row: PopupRow| !#[trigger] begins_with_row(text@, row) by {
                    if begins_with_row(text@, row) {
                        lemma_row_head(text@, row);
                        let p = row.position.len() as int;
                        assert(rest@[p - 1] == text@.subrange(8, 8 + p)[p - 1]);
                    }
                }
            }
            return None;
        },
    };
    let position = vstd::slice::slice_subrange(rest, 0, h + 1);
    // Any row at the front has this very position.
    assert forall|row: PopupRow| #[trigger] begins_with_row(text@, row) implies row.position
        == position@ by {
        lemma_row_head(text@, row);
        let p = row.position.len() as int;
        assert(forall|i: int| 0 <= i < p ==> rest@[i] == text@.subrange(8, 8 + p)[i]);
        assert(rest@[p - 1] == 0x48);
        if h < p - 1 {
            assert(row.position[h as int] == 0x48);
        }
        assert(row.position =~= position@);
    }
    let coordinates = vstd::slice::slice_subrange(rest, 0, h);
    let semicolon = match find_byte(coordinates, 0x3b) {
        Some(semicolon) => semicolon,
        None => {
            proof {
                assert forall|row: PopupRow| !#[trigger] begins_with_row(text@, row) by {
                    if begins_with_row(text@, row) {
                        let k = lemma_row_head(text@, row);
                        assert(coordinates@[k] == position@[k]);
                    }
                }
            }
            return None;
        },
    };
    let y_text = vstd::slice::slice_subrange(coordinates, 0, semicolon);
    let x_text = vstd::slice::slice_subrange(coordinates, semicolon + 1, h);
    assert(y_text@ =~= position@.take(semicolon as int));
    assert(x_text@ =~= position@.subrange(semicolon + 1, position@.len() - 1));
    // Any row at the front has these very coordinates.
    assert forall|row: PopupRow| #[trigger] begins_with_row(text@, row) implies ({
        &&& crate::bytes::coordinate(y_text@) == Some(row.y)
        &&& crate::bytes::coordinate(x_text@) == Some(row.x)
    }) by {
        let k = lemma_row_head(text@, row);
        assert(coordinates@[semicolon as int] == position@[semicolon as int]);
        assert(k == semicolon);
    }
    let y = match parse_coordinate(y_text) {
        Some(y) => y,
        None => {
            return None;
        },
    };
    let x = match parse_coordinate(x_text) {
        Some(x) => x,
        None => {
            return None;
        },
    };
    assert(position_reads(position@, semicolon as int, y, x));
    proof {
        lemma_position_bytes(position@, semicolon as int, y, x);
    }
    let restore = match find_restore(text) {
        Some(restore) => restore,
        None => {
            proof {
                assert forall|row: PopupRow| !#[trigger] begins_with_row(text@, row) by {
                    if begins_with_row(text@, row) {
                        lemma_row_head(text@, row);
                        assert(restores_at(text@, row.bytes.len() - 2));
                    }
                }
            }
            return None;
        },
    };
    let row = vstd::slice::slice_subrange(text, 0, restore + 2);
    // The cursor is restored behind the position.
    assert(restore > 8 + h) by {
        if restore < 8 {
            assert(text@.take(8)[restore as int] == text@[restore as int]);
            if restore < 7 {
                assert(text@.take(8)[restore + 1] == text@[restore + 1]);
            }
        } else if restore <= 8 + h {
            assert(position@[restore - 8] == text@[restore as int]);
        }
    }
    if row.len() < 6 || !same_bytes(
        vstd::slice::slice_subrange(row, row.len() - 6, row.len()),
        &[0x1b, 0x5b, 0x30, 0x6d, 0x1b, 0x38],
    ) {
        proof {
            assert forall|other: PopupRow| !#[trigger] begins_with_row(text@, other) by {
                if begins_with_row(text@, other) {
                    lemma_row_head(text@, other);
                    let n = other.bytes.len() as int;
                    assert(restores_at(text@, n - 2));
                    assert(restores_at(text@, restore as int));
                    assert(n - 2 == restore);
                    assert(text@.subrange(n - 6, n) =~= row@.subrange(
                        row@.len() - 6,
                        row@.len() as int,
                    ));
                }
            }
        }
        return None;
    }
    proof {
        let found = PopupRow { y, x, position: position@, bytes: row@ };
        let n = row@.len() as int;
        let p = position@.len() as int;
        let finish = row@.subrange(n - 6, n);
        assert(finish =~= row_finish());
        assert(row@.skip(n - 6) =~= finish);
        // The final `H` of the position is none of the bytes of the finish.
        assert(n - 6 > 8 + h) by {
            if n - 6 <= 8 + h {
                assert(finish[8 + h - (n - 6)] == text@[8 + h]);
                assert(rest@[h as int] == text@[8 + h]);
            }
        }
        assert(row@.take(8) =~= text@.take(8));
        assert(row@.subrange(8, 8 + p) =~= position@);
        assert forall|i: int| 0 <= i < n - 2 implies !#[trigger] restores_at(row@, i) by {
            assert(!restores_at(text@, i));
        }
        assert(text@.take(n) =~= row@);
        assert(position_reads(found.position, semicolon as int, found.y, found.x));
        assert(is_popup_row(found));
    }
    Some((y, x, position, row))
}

/// The first place where the cursor is restored.
fn find_restore(text: &[u8]) -> (place: Option<usize>)
    ensures
        match place {
            Some(at) => restores_at(text@, at as int) && forall|i: int|
                0 <= i < at ==> !#[trigger] restores_at(text@, i),
            None => forall|i: int| !#[trigger] restores_at(text@, i),
        },
{
    let mut at: usize = 0;
    while at < text.len() && text.len() - at >= 2
        invariant
            at <= text.len(),
            forall|i: int| 0 <= i < at ==> !#[trigger] restores_at(text@, i),
        decreases text.len() - at,
    {
        if text[at] == 0x1b && text[at + 1] == 0x38 {
            return Some(at);
        }
        at += 1;
    }
    None
}

/// Rows laid out one after the other are the first of them, then the others.
pub proof fn lemma_rows_bytes_append(left: Seq<PopupRow>, right: Seq<PopupRow>)
    ensures
        rows_bytes(left + right) == rows_bytes(left) + rows_bytes(right),
    decreases left.len(),
{
    if left.len() == 0 {
        assert(left + right == right);
    } else {
        lemma_rows_bytes_append(left.drop_first(), right);
        assert((left + right).drop_first() == left.drop_first() + right);
    }
}

/// Laying out one row more adds its bytes at the end.
proof fn lemma_rows_bytes_push(rows: Seq<PopupRow>, row: PopupRow)
    ensures
        rows_bytes(rows.push(row)) == rows_bytes(rows) + row.bytes,
{
    reveal_with_fuel(rows_bytes, 2);
    lemma_rows_bytes_append(rows, seq![row]);
    assert(seq![row].drop_first() == Seq::<PopupRow>::empty());
    assert(rows.push(row) == rows + seq![row]);
}

/// If the bytes of `rows` begin with the bytes of `done`, then `rows` begins with `done`.
pub proof fn lemma_rows_prefix(rows: Seq<PopupRow>, done: Seq<PopupRow>, rest: Seq<u8>)
    requires
        forall|i: int| 0 <= i < rows.len() ==> is_popup_row(#[trigger] rows[i]),
        forall|i: int| 0 <= i < done.len() ==> is_popup_row(#[trigger] done[i]),
        rows_bytes(rows) == rows_bytes(done) + rest,
    ensures
        done.len() <= rows.len(),
        rows.take(done.len() as int) == done,
        rows_bytes(rows.skip(done.len() as int)) == rest,
        rest.len() == 0 ==> rows == done,
    decreases done.len(),
{
    if done.len() == 0 {
        assert(rows.skip(0) == rows);
        if rest.len() == 0 && rows.len() > 0 {
            assert(is_popup_row(rows[0]));
            assert(rows_bytes(rows).len() >= rows[0].bytes.len());
        }
    } else {
        assert(is_popup_row(done[0]));
        let text = rows_bytes(rows);
        let others = done.drop_first();
        if rows.len() == 0 {
            assert(text.len() >= done[0].bytes.len());
        }
        assert(is_popup_row(rows[0]));
        assert(text.take(rows[0].bytes.len() as int) == rows[0].bytes);
        assert(text.take(done[0].bytes.len() as int) == done[0].bytes);
        lemma_first_row_unique(text, rows[0], done[0]);
        let n = done[0].bytes.len() as int;
        assert(rows_bytes(rows.drop_first()) == text.skip(n));
        assert(rows_bytes(others) + rest == text.skip(n));
        assert forall|i: int| 0 <= i < rows.drop_first().len() implies is_popup_row(
            #[trigger] rows.drop_first()[i],
        ) by {
            assert(is_popup_row(rows[i + 1]));
        }
        assert forall|i: int| 0 <= i < others.len() implies is_popup_row(#[trigger] others[i]) by {
            assert(is_popup_row(done[i + 1]));
        }
        lemma_rows_prefix(rows.drop_first(), others, rest);
        let m = done.len() as int;
        assert(rows.drop_first().skip(m - 1) == rows.skip(m));
        assert forall|i: int| 0 <= i < m implies rows[i] == #[trigger] done[i] by {
            if i > 0 {
                assert(rows.drop_first().take(m - 1)[i - 1] == rows[i]);
                assert(others[i - 1] == done[i]);
            }
        }
        assert(rows.take(m) =~= done);
        if rest.len() == 0 {
            assert(rows.drop_first() == others);
            assert(rows =~= done);
        }
    }
}

/// A frame that is made of some rows has those rows as its layout.
pub proof fn lemma_layout_found(frame: Seq<u8>, rows: Seq<PopupRow>)
    requires
        is_layout(frame, rows),
    ensures
        popup_layout(frame) == Some(rows),
{
    let chosen = choose|rows: Seq<PopupRow>| is_layout(frame, rows);
    assert(rows_bytes(chosen) == rows_bytes(rows) + Seq::<u8>::empty());
    lemma_rows_prefix(chosen, rows, Seq::empty());
}

/// What follows the rows `done` in any layout of a frame that goes on with `rest`.
proof fn lemma_layout_continues(
    frame: Seq<u8>,
    rows: Seq<PopupRow>,
    done: Seq<PopupRow>,
    rest: Seq<u8>,
)
    requires
        is_layout(frame, rows),
        are_stacked(done),
        frame == rows_bytes(done) + rest,
        rest.len() > 0,
    ensures
        done.len() < rows.len(),
        begins_with_row(rest, rows[done.len() as int]),
        rows[done.len() as int].y > 0,
        done.len() > 0 ==> rows[done.len() as int].y > done.last().y
            && rows[done.len() as int].x == done.last().x,
{
    lemma_rows_prefix(rows, done, rest);
    let n = done.len() as int;
    let tail = rows.skip(n);
    assert(tail.len() > 0);
    let next = rows[n];
    assert(tail[0] == next);
    assert(is_popup_row(next));
    assert(rest.take(next.bytes.len() as int) =~= next.bytes);
    if n > 0 {
        assert(rows.take(n)[n - 1] == rows[n - 1]);
    }
}

/// Whether `slices` show the positions and the bytes of `rows`.
pub open spec fn show_rows(slices: Seq<(&[u8], &[u8])>, rows: Seq<PopupRow>) -> bool {
    &&& slices.len() == rows.len()
    &&& forall|i: int|
        0 <= i < rows.len() ==> (#[trigger] slices[i]).0@ == rows[i].position && slices[i].1@
            == rows[i].bytes
}

/// Splits a popup frame into its rows, each with its position and with all of its bytes; `None`
/// where the frame is anything but self-contained rows at one column, from top to bottom.
/// Borders, nested menus, transient messages and other layouts do not qualify.
pub fn popup_rows<'a>(frame: &'a [u8]) -> (rows: Option<Vec<(&'a [u8], &'a [u8])>>)
    ensures
        match rows {
            Some(rows) => popup_layout(frame@) is Some && show_rows(
                rows@,
                popup_layout(frame@)->0,
            ),
            None => popup_layout(frame@) is None,
        },
{
    let mut rest = frame;
    let mut rows: Vec<(&'a [u8], &'a [u8])> = Vec::new();
    let mut last_y: u16 = 0;
    let mut column: Option<u16> = None;
    let ghost mut done: Seq<PopupRow> = Seq::empty();
    assert(frame@ == rows_bytes(done) + rest@);
    while rest.len() > 0
        invariant
            frame@ == rows_bytes(done) + rest@,
            are_stacked(done),
            show_rows(rows@, done),
            done.len() == 0 ==> last_y == 0 && column is None,
            done.len() > 0 ==> last_y == done.last().y && column == Some(done.last().x),
        decreases rest.len(),
    {
        let (y, x, position, row) = match first_popup_row(rest) {
            Some(first) => first,
            None => {
                proof {
                    assert forall|other: Seq<PopupRow>| !is_layout(frame@, other) by {
                        if is_layout(frame@, other) {
                            lemma_layout_continues(frame@, other, done, rest@);
                        }
                    }
                }
                return None;
            },
        };
        let ghost found = PopupRow { y, x, position: position@, bytes: row@ };
        let other_column = match column {
            Some(column) => column != x,
            None => false,
        };
        if y <= last_y || other_column {
            proof {
                assert forall|other: Seq<PopupRow>| !is_layout(frame@, other) by {
                    if is_layout(frame@, other) {
                        lemma_layout_continues(frame@, other, done, rest@);
                        lemma_first_row_unique(rest@, other[done.len() as int], found);
                    }
                }
            }
            return None;
        }
        last_y = y;
        column = Some(x);
        rows.push((position, row));
        let tail = vstd::slice::slice_subrange(rest, row.len(), rest.len());
        proof {
            lemma_rows_bytes_push(done, found);
            assert(rest@ =~= row@ + tail@);
            assert(frame@ =~= rows_bytes(done.push(found)) + tail@);
            done = done.push(found);
        }
        rest = tail;
    }
    assert(rows_bytes(done) =~= frame@);
    if rows.len() == 0 {
        proof {
            assert forall|other: Seq<PopupRow>| !is_layout(frame@, other) by {
                if is_layout(frame@, other) {
                    assert(rows_bytes(other) == rows_bytes(done) + Seq::<u8>::empty());
                    lemma_rows_prefix(other, done, Seq::empty());
                }
            }
        }
        return None;
    }
    proof {
        lemma_layout_found(frame@, done);
    }
    Some(rows)
}

/// Whether two layouts put the same number of rows at the same positions.
pub open spec fn same_positions(before: Seq<PopupRow>, after: Seq<PopupRow>) -> bool {
    &&& before.len() == after.len()
    &&& forall|i: int|
        0 <= i < after.len() ==> (#[trigger] before[i]).position == (#[trigger] after[i]).position
}

/// The rows of `after` whose bytes differ from those of the row of `before` in the same place.
pub open spec fn changed_rows(before: Seq<PopupRow>, after: Seq<PopupRow>) -> Seq<PopupRow>
    decreases after.len(),
{
    if before.len() == 0 || after.len() == 0 {
        Seq::empty()
    } else if before[0].bytes == after[0].bytes {
        changed_rows(before.drop_first(), after.drop_first())
    } else {
        seq![after[0]] + changed_rows(before.drop_first(), after.drop_first())
    }
}

/// What an overlay has to draw on a screen that shows the popup frame `cache`: the changed rows
/// in full. `None` where the whole frame has to be drawn.
pub open spec fn frame_delta(cache: Option<Seq<u8>>, visible: bool, overlay: OverlayView) -> Option<
    Seq<u8>,
> {
    if !overlay.row_diff || !overlay.persistent || !visible || cache is None {
        None
    } else {
        match (popup_layout(cache->0), popup_layout(overlay.frame)) {
            (Some(before), Some(after)) => if same_positions(before, after) {
                Some(rows_bytes(changed_rows(before, after)))
            } else {
                None
            },
            _ => None,
        }
    }
}

/// Whether two lists of rows stand at the same positions.
fn same_row_positions(before: &Vec<(&[u8], &[u8])>, after: &Vec<(&[u8], &[u8])>) -> (same: bool)
    ensures
        same == (before@.len() == after@.len() && forall|i: int|
            0 <= i < after@.len() ==> (#[trigger] before@[i]).0@ == (#[trigger] after@[i]).0@),
{
    if before.len() != after.len() {
        return false;
    }
    let mut i: usize = 0;
    while i < after.len()
        invariant
            before@.len() == after@.len(),
            i <= after@.len(),
            forall|k: int| 0 <= k < i ==> (#[trigger] before@[k]).0@ == (#[trigger] after@[k]).0@,
        decreases after.len() - i,
    {
        if !same_bytes(before[i].0, after[i].0) {
            assert(before@[i as int].0@ != after@[i as int].0@);
            return false;
        }
        i += 1;
    }
    true
}

/// Reduces a popup refresh to the rows that differ from the frame on screen. `cache` is the last
/// frame that was actually drawn, in full: never a delta, so that the whole popup, unchanged rows
/// included, can be restored from it at any time.
///
/// `None` asks for the whole frame: nothing is on screen to compare with, the overlay does not
/// take part in row diffing, or one of the two frames is not a stack of rows, or the rows moved.
pub fn popup_frame_delta(cache: Option<&[u8]>, visible: bool, overlay: &OverlayFrame) -> (delta:
    Option<Vec<u8>>)
    ensures
        crate::types::buffer_bytes(delta) == frame_delta(
            crate::types::slice_bytes(cache),
            visible,
            overlay@,
        ),
{
    if !overlay.row_diff || !overlay.persistent || !visible {
        return None;
    }
    let cache = match cache {
        Some(cache) => cache,
        None => {
            return None;
        },
    };
    let before = match popup_rows(cache) {
        Some(before) => before,
        None => {
            return None;
        },
    };
    let after = match popup_rows(overlay.frame.as_slice()) {
        Some(after) => after,
        None => {
            return None;
        },
    };
    let ghost old_rows = popup_layout(cache@)->0;
    let ghost new_rows = popup_layout(overlay.frame@)->0;
    if !same_row_positions(&before, &after) {
        proof {
            if same_positions(old_rows, new_rows) {
                assert forall|i: int| 0 <= i < after@.len() implies (#[trigger] before@[i]).0@ == (
                #[trigger] after@[i]).0@ by {
                    assert(old_rows[i].position == new_rows[i].position);
                }
            }
        }
        return None;
    }
    assert(same_positions(old_rows, new_rows)) by {
        assert forall|i: int| 0 <= i < new_rows.len() implies (#[trigger] old_rows[i]).position == (
        #[trigger] new_rows[i]).position by {
            assert(before@[i].0@ == after@[i].0@);
        }
    }
    let mut delta: Vec<u8> = Vec::new();
    let mut i: usize = 0;
    assert(old_rows.skip(0) == old_rows);
    assert(new_rows.skip(0) == new_rows);
    while i < after.len()
        invariant
            i <= after@.len(),
            before@.len() == after@.len(),
            show_rows(before@, old_rows),
            show_rows(after@, new_rows),
            rows_bytes(changed_rows(old_rows, new_rows)) == delta@ + rows_bytes(
                changed_rows(old_rows.skip(i as int), new_rows.skip(i as int)),
            ),
        decreases after.len() - i,
    {
        let (_, old_row) = before[i];
        let (_, new_row) = after[i];
        let ghost old_tail = old_rows.skip(i as int);
        let ghost new_tail = new_rows.skip(i as int);
        proof {
            assert(old_tail[0].bytes == before@[i as int].1@);
            assert(new_tail[0].bytes == after@[i as int].1@);
            assert(old_tail.drop_first() == old_rows.skip(i + 1));
            assert(new_tail.drop_first() == new_rows.skip(i + 1));
            let others = changed_rows(old_tail.drop_first(), new_tail.drop_first());
            assert((seq![new_tail[0]] + others).drop_first() == others);
        }
        if !same_bytes(old_row, new_row) {
            delta.extend_from_slice(new_row);
        }
        i += 1;
    }
    assert(rows_bytes(changed_rows(old_rows.skip(i as int), new_rows.skip(i as int))) == Seq::<
        u8,
    >::empty());
    Some(delta)
}

} // verus!
