//! What holds of popup frames and their deltas as a whole.
use vstd::prelude::*;

use crate::popup::PopupRow;
use crate::types::OverlayView;

verus! {

/// No frame can be read as rows in two ways.
pub proof fn layout_is_unique(frame: Seq<u8>, left: Seq<PopupRow>, right: Seq<PopupRow>)
    requires
        crate::popup::is_layout(frame, left),
        crate::popup::is_layout(frame, right),
    ensures
        left == right,
{
    crate::popup::lemma_layout_found(frame, left);
    crate::popup::lemma_layout_found(frame, right);
}

/// Only a stack of self-contained rows at one column and from top to bottom qualifies, and the
/// rows found are the whole frame: nothing is skipped between them, before them or behind them.
pub proof fn rows_make_up_the_frame(frame: Seq<u8>)
    requires
        crate::popup::popup_layout(frame) is Some,
    ensures
        crate::popup::popup_layout(frame)->0.len() > 0,
        crate::popup::are_stacked(crate::popup::popup_layout(frame)->0),
        crate::popup::rows_bytes(crate::popup::popup_layout(frame)->0) == frame,
{
}

/// A frame is reduced only where a frame of the same make is on screen: both are stacks of rows,
/// and the rows stand at the same positions.
pub proof fn delta_needs_rows_in_place(cache: Option<Seq<u8>>, visible: bool, overlay: OverlayView)
    requires
        crate::popup::frame_delta(cache, visible, overlay) is Some,
    ensures
        visible,
        overlay.persistent,
        overlay.row_diff,
        cache is Some,
        crate::popup::popup_layout(cache->0) is Some,
        crate::popup::popup_layout(overlay.frame) is Some,
        crate::popup::same_positions(
            crate::popup::popup_layout(cache->0)->0,
            crate::popup::popup_layout(overlay.frame)->0,
        ),
{
}

/// A stack without its first row is a stack.
proof fn lemma_tail_stacked(rows: Seq<PopupRow>)
    requires
        crate::popup::are_stacked(rows),
        rows.len() > 0,
    ensures
        crate::popup::are_stacked(rows.drop_first()),
{
    let tail = rows.drop_first();
    assert forall|i: int| 0 <= i < tail.len() implies crate::popup::is_popup_row(
        #[trigger] tail[i],
    ) && tail[i].y > 0 by {
        assert(tail[i] == rows[i + 1]);
    }
    assert forall|i: int, j: int| 0 <= i < j < tail.len() implies (#[trigger] tail[i]).y < (
    #[trigger] tail[j]).y && tail[i].x == tail[j].x by {
        assert(tail[i] == rows[i + 1]);
        assert(tail[j] == rows[j + 1]);
    }
}

/// The changed rows of a stack are rows of that stack, in the same order.
proof fn lemma_changed_rows_stacked(before: Seq<PopupRow>, after: Seq<PopupRow>)
    requires
        crate::popup::are_stacked(after),
    ensures
        crate::popup::are_stacked(crate::popup::changed_rows(before, after)),
        forall|row: PopupRow|
            crate::popup::changed_rows(before, after).contains(row) ==> after.contains(row),
    decreases after.len(),
{
    if before.len() > 0 && after.len() > 0 {
        let others = crate::popup::changed_rows(before.drop_first(), after.drop_first());
        let tail = after.drop_first();
        lemma_tail_stacked(after);
        lemma_changed_rows_stacked(before.drop_first(), tail);
        assert forall|row: PopupRow| others.contains(row) implies after.contains(row) && row.y
            > after[0].y && row.x == after[0].x by {
            assert(tail.contains(row));
            let i = choose|i: int| 0 <= i < tail.len() && tail[i] == row;
            assert(after[i + 1] == row);
        }
        let changed = crate::popup::changed_rows(before, after);
        if before[0].bytes != after[0].bytes {
            assert(changed == seq![after[0]] + others);
            assert forall|i: int, j: int| 0 <= i < j < changed.len() implies (
            #[trigger] changed[i]).y < (#[trigger] changed[j]).y && changed[i].x
                == changed[j].x by {
                assert(changed[j] == others[j - 1]);
                assert(others.contains(others[j - 1]));
                if i > 0 {
                    assert(changed[i] == others[i - 1]);
                }
            }
            assert forall|i: int| 0 <= i < changed.len() implies crate::popup::is_popup_row(
                #[trigger] changed[i],
            ) && changed[i].y > 0 by {
                if i > 0 {
                    assert(changed[i] == others[i - 1]);
                }
            }
            assert forall|row: PopupRow| changed.contains(row) implies after.contains(row) by {
                let i = choose|i: int| 0 <= i < changed.len() && changed[i] == row;
                if i > 0 {
                    assert(changed[i] == others[i - 1]);
                    assert(others.contains(row));
                } else {
                    assert(after[0] == row);
                }
            }
        }
    }
}

/// Rows draw nothing only if there are none.
proof fn lemma_rows_bytes_empty(rows: Seq<PopupRow>)
    requires
        crate::popup::are_stacked(rows),
    ensures
        crate::popup::rows_bytes(rows).len() == 0 <==> rows.len() == 0,
{
    if rows.len() > 0 {
        assert(crate::popup::is_popup_row(rows[0]));
    }
}

/// A row that is in place in both frames is either the same in both or among the changed rows.
proof fn lemma_changed_rows_complete(before: Seq<PopupRow>, after: Seq<PopupRow>, i: int)
    requires
        0 <= i < after.len(),
        i < before.len(),
    ensures
        before[i].bytes == after[i].bytes || crate::popup::changed_rows(before, after).contains(
            after[i],
        ),
    decreases i,
{
    let others = crate::popup::changed_rows(before.drop_first(), after.drop_first());
    let changed = crate::popup::changed_rows(before, after);
    if i == 0 {
        if before[0].bytes != after[0].bytes {
            assert(changed[0] == after[0]);
        }
    } else {
        lemma_changed_rows_complete(before.drop_first(), after.drop_first(), i - 1);
        if others.contains(after[i]) {
            let k = choose|k: int| 0 <= k < others.len() && others[k] == after[i];
            if before[0].bytes != after[0].bytes {
                assert(changed[k + 1] == after[i]);
            } else {
                assert(changed[k] == after[i]);
            }
        }
    }
}

/// A delta is made of whole rows of the new frame, padding included: exactly those that differ
/// from what is on screen. If it draws anything, it is a popup frame in its own right.
pub proof fn delta_is_the_changed_rows_in_full(
    cache: Option<Seq<u8>>,
    visible: bool,
    overlay: OverlayView,
)
    requires
        crate::popup::frame_delta(cache, visible, overlay) is Some,
    ensures
        ({
            let delta = crate::popup::frame_delta(cache, visible, overlay)->0;
            let before = crate::popup::popup_layout(cache->0)->0;
            let after = crate::popup::popup_layout(overlay.frame)->0;
            let changed = crate::popup::changed_rows(before, after);
            &&& delta == crate::popup::rows_bytes(changed)
            &&& delta.len() > 0 ==> crate::popup::popup_layout(delta) == Some(changed)
            &&& delta.len() == 0 ==> cache == Some(overlay.frame)
            &&& forall|row: PopupRow| changed.contains(row) ==> after.contains(row)
            &&& forall|i: int|
                0 <= i < after.len() ==> before[i].bytes == (#[trigger] after[i]).bytes
                    || changed.contains(after[i])
        }),
{
    let delta = crate::popup::frame_delta(cache, visible, overlay)->0;
    let before = crate::popup::popup_layout(cache->0)->0;
    let after = crate::popup::popup_layout(overlay.frame)->0;
    let changed = crate::popup::changed_rows(before, after);
    lemma_changed_rows_stacked(before, after);
    lemma_rows_bytes_empty(changed);
    if delta.len() > 0 {
        crate::popup::lemma_layout_found(delta, changed);
    }
    assert forall|i: int| 0 <= i < after.len() implies before[i].bytes == (
    #[trigger] after[i]).bytes || changed.contains(after[i]) by {
        lemma_changed_rows_complete(before, after, i);
    }
    if delta.len() == 0 {
        lemma_same_rows_same_bytes(before, after);
    }
}

/// Stacks of the same length with the same bytes in each row have the same bytes.
proof fn lemma_same_rows_same_bytes(before: Seq<PopupRow>, after: Seq<PopupRow>)
    requires
        before.len() == after.len(),
        forall|i: int| 0 <= i < after.len() ==> before[i].bytes == (#[trigger] after[i]).bytes,
    ensures
        crate::popup::rows_bytes(before) == crate::popup::rows_bytes(after),
        crate::popup::changed_rows(before, after).len() == 0,
    decreases after.len(),
{
    if after.len() > 0 {
        assert(before[0].bytes == after[0].bytes);
        assert forall|i: int| 0 <= i < after.drop_first().len() implies before.drop_first()[i].bytes
            == (#[trigger] after.drop_first()[i]).bytes by {
            assert(before[i + 1].bytes == after[i + 1].bytes);
        }
        lemma_same_rows_same_bytes(before.drop_first(), after.drop_first());
    }
}

/// Refreshing a popup with the very frame that is on screen draws nothing.
pub proof fn identical_frame_draws_nothing(overlay: OverlayView)
    requires
        overlay.row_diff,
        overlay.persistent,
        crate::popup::popup_layout(overlay.frame) is Some,
    ensures
        crate::popup::frame_delta(Some(overlay.frame), true, overlay) == Some(Seq::<u8>::empty()),
{
    let rows = crate::popup::popup_layout(overlay.frame)->0;
    lemma_same_rows_same_bytes(rows, rows);
}

/// The bytes of the changed rows are no more than those of all rows, and fewer as soon as one row
/// is unchanged.
proof fn lemma_changed_rows_shorter(before: Seq<PopupRow>, after: Seq<PopupRow>)
    requires
        before.len() == after.len(),
        crate::popup::are_stacked(after),
    ensures
        crate::popup::rows_bytes(crate::popup::changed_rows(before, after)).len()
            <= crate::popup::rows_bytes(after).len(),
        (exists|i: int| 0 <= i < after.len() && before[i].bytes == (#[trigger] after[i]).bytes)
            ==> crate::popup::rows_bytes(crate::popup::changed_rows(before, after)).len()
            < crate::popup::rows_bytes(after).len(),
    decreases after.len(),
{
    if after.len() > 0 {
        let tail = after.drop_first();
        lemma_tail_stacked(after);
        lemma_changed_rows_shorter(before.drop_first(), tail);
        assert(crate::popup::is_popup_row(after[0]));
        let others = crate::popup::changed_rows(before.drop_first(), tail);
        assert((seq![after[0]] + others).drop_first() == others);
        if exists|i: int| 0 <= i < after.len() && before[i].bytes == (#[trigger] after[i]).bytes {
            let i = choose|i: int|
                0 <= i < after.len() && before[i].bytes == (#[trigger] after[i]).bytes;
            if i > 0 {
                assert(before.drop_first()[i - 1].bytes == tail[i - 1].bytes);
            }
        }
    }
}

/// A delta is never longer than the frame that it stands for, and is shorter as soon as one row
/// is unchanged.
pub proof fn delta_is_no_longer_than_the_frame(
    cache: Option<Seq<u8>>,
    visible: bool,
    overlay: OverlayView,
)
    requires
        crate::popup::frame_delta(cache, visible, overlay) is Some,
    ensures
        crate::popup::frame_delta(cache, visible, overlay)->0.len() <= overlay.frame.len(),
        ({
            let before = crate::popup::popup_layout(cache->0)->0;
            let after = crate::popup::popup_layout(overlay.frame)->0;
            exists|i: int| 0 <= i < after.len() && before[i].bytes == (#[trigger] after[i]).bytes
        }) ==> crate::popup::frame_delta(cache, visible, overlay)->0.len() < overlay.frame.len(),
{
    lemma_changed_rows_shorter(
        crate::popup::popup_layout(cache->0)->0,
        crate::popup::popup_layout(overlay.frame)->0,
    );
}

/// A refresh that a client asked for, an overlay that is not persistent, and a popup that is not
/// on screen are always drawn in full.
pub proof fn explicit_refresh_is_never_reduced(
    cache: Option<Seq<u8>>,
    visible: bool,
    overlay: OverlayView,
)
    requires
        !overlay.row_diff || !overlay.persistent || !visible || cache is None,
    ensures
        crate::popup::frame_delta(cache, visible, overlay) is None,
{
}

/// A popup that moved or changed its height is drawn in full.
pub proof fn moved_or_resized_popup_is_drawn_in_full(
    cache: Seq<u8>,
    visible: bool,
    overlay: OverlayView,
    before: Seq<PopupRow>,
    after: Seq<PopupRow>,
)
    requires
        crate::popup::is_layout(cache, before),
        crate::popup::is_layout(overlay.frame, after),
        before.len() != after.len() || exists|i: int|
            0 <= i < after.len() && before[i].position != (#[trigger] after[i]).position,
    ensures
        crate::popup::frame_delta(Some(cache), visible, overlay) is None,
{
    crate::popup::lemma_layout_found(cache, before);
    crate::popup::lemma_layout_found(overlay.frame, after);
    if before.len() == after.len() {
        let i = choose|i: int|
            0 <= i < after.len() && before[i].position != (#[trigger] after[i]).position;
        if crate::popup::same_positions(before, after) {
            assert(before[i].position == after[i].position);
        }
    }
}

/// A menu drawn over a popup, that is, rows that go back up, or rows at another column, keeps the
/// combined frame from being reduced.
pub proof fn overlapping_rows_do_not_qualify(
    lower: Seq<u8>,
    upper: Seq<u8>,
    lower_rows: Seq<PopupRow>,
    upper_rows: Seq<PopupRow>,
)
    requires
        crate::popup::is_layout(lower, lower_rows),
        crate::popup::is_layout(upper, upper_rows),
        upper_rows[0].y <= lower_rows.last().y || upper_rows[0].x != lower_rows.last().x,
    ensures
        crate::popup::popup_layout(lower + upper) is None,
{
    let joined = lower_rows + upper_rows;
    let m = lower_rows.len() as int;
    crate::popup::lemma_rows_bytes_append(lower_rows, upper_rows);
    if crate::popup::popup_layout(lower + upper) is Some {
        let rows = crate::popup::popup_layout(lower + upper)->0;
        assert forall|i: int| 0 <= i < joined.len() implies crate::popup::is_popup_row(
            #[trigger] joined[i],
        ) by {
            if i < m {
                assert(joined[i] == lower_rows[i]);
            } else {
                assert(joined[i] == upper_rows[i - m]);
            }
        }
        assert(crate::popup::rows_bytes(rows) == crate::popup::rows_bytes(joined) + Seq::<
            u8,
        >::empty());
        crate::popup::lemma_rows_prefix(rows, joined, Seq::empty());
        assert(rows[m - 1] == lower_rows.last());
        assert(rows[m] == upper_rows[0]);
    }
}

/// Rows below rows at the same column, on the other hand, make one taller popup.
pub proof fn rows_further_down_join_the_stack(
    upper: Seq<u8>,
    lower: Seq<u8>,
    upper_rows: Seq<PopupRow>,
    lower_rows: Seq<PopupRow>,
)
    requires
        crate::popup::is_layout(upper, upper_rows),
        crate::popup::is_layout(lower, lower_rows),
        upper_rows.last().y < lower_rows[0].y,
        upper_rows.last().x == lower_rows[0].x,
    ensures
        crate::popup::popup_layout(upper + lower) == Some(upper_rows + lower_rows),
{
    let joined = upper_rows + lower_rows;
    let m = upper_rows.len() as int;
    crate::popup::lemma_rows_bytes_append(upper_rows, lower_rows);
    assert forall|i: int| 0 <= i < joined.len() implies crate::popup::is_popup_row(
        #[trigger] joined[i],
    ) && joined[i].y > 0 by {
        if i < m {
            assert(joined[i] == upper_rows[i]);
        } else {
            assert(joined[i] == lower_rows[i - m]);
        }
    }
    assert forall|i: int, j: int| 0 <= i < j < joined.len() implies (#[trigger] joined[i]).y < (
    #[trigger] joined[j]).y && joined[i].x == joined[j].x by {
        if j < m {
            assert(joined[i] == upper_rows[i] && joined[j] == upper_rows[j]);
        } else if i >= m {
            assert(joined[i] == lower_rows[i - m] && joined[j] == lower_rows[j - m]);
        } else {
            assert(joined[i] == upper_rows[i] && joined[j] == lower_rows[j - m]);
            assert(i == m - 1 || upper_rows[i].y < upper_rows[m - 1].y && upper_rows[i].x
                == upper_rows[m - 1].x);
            assert(j == m || lower_rows[0].y < lower_rows[j - m].y && lower_rows[0].x
                == lower_rows[j - m].x);
        }
    }
    crate::popup::lemma_layout_found(upper + lower, joined);
}

/// Whether a terminal reads its input as one stream: drawing two strings in turn is drawing them
/// joined, and drawing nothing changes nothing.
pub open spec fn reads_a_stream<S>(terminal: spec_fn(S, Seq<u8>) -> S) -> bool {
    &&& forall|screen: S, first: Seq<u8>, second: Seq<u8>| #[trigger]
        terminal(screen, first + second) == terminal(terminal(screen, first), second)
    &&& forall|screen: S| #[trigger] terminal(screen, Seq::empty()) == screen
}

/// Whether it does not matter, on `screen`, which of two strings is drawn first.
pub open spec fn draws_apart<S>(
    terminal: spec_fn(S, Seq<u8>) -> S,
    screen: S,
    left: Seq<u8>,
    right: Seq<u8>,
) -> bool {
    terminal(terminal(screen, left), right) == terminal(terminal(screen, right), left)
}

/// Whether, on `screen`, drawing `new` leaves no trace of having drawn `old` just before.
pub open spec fn draws_over<S>(
    terminal: spec_fn(S, Seq<u8>) -> S,
    screen: S,
    old_bytes: Seq<u8>,
    new_bytes: Seq<u8>,
) -> bool {
    terminal(terminal(screen, old_bytes), new_bytes) == terminal(screen, new_bytes)
}

/// Whether rows in different places do not disturb each other on a terminal.
pub open spec fn rows_draw_apart<S>(
    terminal: spec_fn(S, Seq<u8>) -> S,
    before: Seq<PopupRow>,
    after: Seq<PopupRow>,
) -> bool {
    forall|screen: S, i: int, j: int|
        0 <= i < before.len() && 0 <= j < after.len() && i != j ==> #[trigger] draws_apart(
            terminal,
            screen,
            before[i].bytes,
            after[j].bytes,
        )
}

/// Whether each row covers, padding included, the row that was in its place.
pub open spec fn rows_draw_over<S>(
    terminal: spec_fn(S, Seq<u8>) -> S,
    before: Seq<PopupRow>,
    after: Seq<PopupRow>,
) -> bool {
    forall|screen: S, i: int|
        0 <= i < before.len() && i < after.len() ==> #[trigger] draws_over(
            terminal,
            screen,
            before[i].bytes,
            after[i].bytes,
        )
}

/// A row that goes apart from each of `rows` can be drawn before them just as well.
proof fn lemma_draw_before<S>(
    terminal: spec_fn(S, Seq<u8>) -> S,
    screen: S,
    rows: Seq<PopupRow>,
    row: Seq<u8>,
)
    requires
        reads_a_stream(terminal),
        forall|screen: S, i: int|
            0 <= i < rows.len() ==> #[trigger] draws_apart(terminal, screen, rows[i].bytes, row),
    ensures
        draws_apart(terminal, screen, crate::popup::rows_bytes(rows), row),
    decreases rows.len(),
{
    if rows.len() == 0 {
        assert(terminal(screen, Seq::empty()) == screen);
        assert(terminal(terminal(screen, row), Seq::empty()) == terminal(screen, row));
    } else {
        let tail = rows.drop_first();
        let first = rows[0].bytes;
        let others = crate::popup::rows_bytes(tail);
        assert forall|screen: S, i: int| 0 <= i < tail.len() implies #[trigger] draws_apart(
            terminal,
            screen,
            tail[i].bytes,
            row,
        ) by {
            assert(draws_apart(terminal, screen, rows[i + 1].bytes, row));
        }
        lemma_draw_before(terminal, terminal(screen, first), tail, row);
        assert(draws_apart(terminal, screen, first, row)) by {
            assert(draws_apart(terminal, screen, rows[0].bytes, row));
        }
        assert(terminal(screen, first + others) == terminal(terminal(screen, first), others));
        assert(terminal(terminal(screen, row), first + others) == terminal(
            terminal(terminal(screen, row), first),
            others,
        ));
    }
}

/// Drawing the changed rows on top of the old stack shows the new stack.
proof fn lemma_changed_rows_update<S>(
    terminal: spec_fn(S, Seq<u8>) -> S,
    screen: S,
    before: Seq<PopupRow>,
    after: Seq<PopupRow>,
)
    requires
        reads_a_stream(terminal),
        before.len() == after.len(),
        rows_draw_apart(terminal, before, after),
        rows_draw_over(terminal, before, after),
    ensures
        terminal(
            terminal(screen, crate::popup::rows_bytes(before)),
            crate::popup::rows_bytes(crate::popup::changed_rows(before, after)),
        ) == terminal(screen, crate::popup::rows_bytes(after)),
    decreases after.len(),
{
    if after.len() == 0 {
        assert(terminal(screen, Seq::empty()) == screen);
    } else {
        let old_tail = before.drop_first();
        let new_tail = after.drop_first();
        assert forall|screen: S, i: int, j: int|
            0 <= i < old_tail.len() && 0 <= j < new_tail.len() && i
                != j implies #[trigger] draws_apart(
            terminal,
            screen,
            old_tail[i].bytes,
            new_tail[j].bytes,
        ) by {
            assert(draws_apart(terminal, screen, before[i + 1].bytes, after[j + 1].bytes));
        }
        assert forall|screen: S, i: int|
            0 <= i < old_tail.len() && i < new_tail.len() implies #[trigger] draws_over(
            terminal,
            screen,
            old_tail[i].bytes,
            new_tail[i].bytes,
        ) by {
            assert(draws_over(terminal, screen, before[i + 1].bytes, after[i + 1].bytes));
        }
        let old_row = before[0].bytes;
        let new_row = after[0].bytes;
        let old_bytes = crate::popup::rows_bytes(old_tail);
        let new_bytes = crate::popup::rows_bytes(new_tail);
        let others = crate::popup::changed_rows(old_tail, new_tail);
        let drawn_old = terminal(screen, old_row);
        let drawn_new = terminal(screen, new_row);
        assert(terminal(screen, old_row + old_bytes) == terminal(drawn_old, old_bytes));
        assert(terminal(screen, new_row + new_bytes) == terminal(drawn_new, new_bytes));
        lemma_changed_rows_update(terminal, drawn_new, old_tail, new_tail);
        if old_row != new_row {
            assert((seq![after[0]] + others).drop_first() == others);
            let rest = crate::popup::rows_bytes(others);
            let shown = terminal(drawn_old, old_bytes);
            assert(terminal(shown, new_row + rest) == terminal(terminal(shown, new_row), rest));
            assert forall|screen: S, i: int|
                0 <= i < old_tail.len() implies #[trigger] draws_apart(
                terminal,
                screen,
                old_tail[i].bytes,
                new_row,
            ) by {
                assert(draws_apart(terminal, screen, before[i + 1].bytes, after[0].bytes));
            }
            lemma_draw_before(terminal, drawn_old, old_tail, new_row);
            assert(draws_over(terminal, screen, before[0].bytes, after[0].bytes));
        }
    }
}

/// On a terminal that shows the cached frame, a delta leaves exactly the screen that the whole new
/// frame would have drawn. This holds of every terminal on which rows in different places do not
/// disturb each other and a row covers what was in its place.
pub proof fn delta_shows_the_new_frame<S>(
    terminal: spec_fn(S, Seq<u8>) -> S,
    screen: S,
    cache: Seq<u8>,
    visible: bool,
    overlay: OverlayView,
)
    requires
        crate::popup::frame_delta(Some(cache), visible, overlay) is Some,
        reads_a_stream(terminal),
        rows_draw_apart(
            terminal,
            crate::popup::popup_layout(cache)->0,
            crate::popup::popup_layout(overlay.frame)->0,
        ),
        rows_draw_over(
            terminal,
            crate::popup::popup_layout(cache)->0,
            crate::popup::popup_layout(overlay.frame)->0,
        ),
    ensures
        terminal(
            terminal(screen, cache),
            crate::popup::frame_delta(Some(cache), visible, overlay)->0,
        ) == terminal(screen, overlay.frame),
{
    lemma_changed_rows_update(
        terminal,
        screen,
        crate::popup::popup_layout(cache)->0,
        crate::popup::popup_layout(overlay.frame)->0,
    );
}

/// Whatever is written as a row is one: save the cursor, reset the attributes, move to a row and a
/// column, draw anything that does not restore the cursor, reset the attributes again and restore
/// the cursor.
pub proof fn what_is_written_as_a_row_is_one(
    row: PopupRow,
    y_text: Seq<u8>,
    x_text: Seq<u8>,
    content: Seq<u8>,
)
    requires
        crate::bytes::coordinate(y_text) == Some(row.y),
        crate::bytes::coordinate(x_text) == Some(row.x),
        row.position == y_text + seq![0x3bu8] + x_text + seq![0x48u8],
        forall|i: int|
            0 <= i < content.len() - 1 && #[trigger] content[i] == 0x1b ==> content[i + 1] != 0x38,
        row.bytes == seq![0x1bu8, 0x37, 0x1b, 0x5b, 0x30, 0x6d, 0x1b, 0x5b] + row.position + content
            + seq![0x1bu8, 0x5b, 0x30, 0x6d, 0x1b, 0x38],
    ensures
        crate::popup::is_popup_row(row),
{
    let n = row.bytes.len() as int;
    let p = row.position.len() as int;
    let k = y_text.len() as int;
    assert(row.position.take(k) == y_text);
    assert(row.position.subrange(k + 1, p - 1) == x_text);
    assert(crate::popup::position_reads(row.position, k, row.y, row.x));
    crate::bytes::lemma_coordinate_bytes(y_text);
    crate::bytes::lemma_coordinate_bytes(x_text);
    assert(row.bytes.take(8) == crate::popup::row_start());
    assert(row.bytes.subrange(8, 8 + p) == row.position);
    assert(row.bytes.skip(n - 6) == crate::popup::row_finish());
    assert forall|i: int| 0 <= i < n - 2 implies !#[trigger] crate::popup::restores_at(
        row.bytes,
        i,
    ) by {
        if i < 8 {
        } else if i < 8 + p {
            let at = i - 8;
            assert(row.bytes[i] == row.position[at]);
            if at < k {
                assert(row.position[at] == y_text[at]);
            } else if k < at < p - 1 {
                assert(row.position[at] == x_text[at - k - 1]);
            }
        } else if i < n - 6 {
            let at = i - 8 - p;
            assert(row.bytes[i] == content[at]);
            if i + 1 < n - 6 {
                assert(row.bytes[i + 1] == content[at + 1]);
            } else {
                assert(row.bytes[i + 1] == 0x1b);
            }
        } else {
            assert(row.bytes[i] == crate::popup::row_finish()[i - (n - 6)]);
            assert(row.bytes[i + 1] == crate::popup::row_finish()[i + 1 - (n - 6)]);
        }
    }
}

/// Every row is written that way: with the coordinates and the content that are given back.
pub proof fn every_row_is_written_as_one(row: PopupRow) -> (parts: (Seq<u8>, Seq<u8>, Seq<u8>))
    requires
        crate::popup::is_popup_row(row),
    ensures
        crate::bytes::coordinate(parts.0) == Some(row.y),
        crate::bytes::coordinate(parts.1) == Some(row.x),
        row.position == parts.0 + seq![0x3bu8] + parts.1 + seq![0x48u8],
        forall|i: int|
            0 <= i < parts.2.len() - 1 && #[trigger] parts.2[i] == 0x1b ==> parts.2[i + 1] != 0x38,
        row.bytes == seq![0x1bu8, 0x37, 0x1b, 0x5b, 0x30, 0x6d, 0x1b, 0x5b] + row.position + parts.2
            + seq![0x1bu8, 0x5b, 0x30, 0x6d, 0x1b, 0x38],
{
    let n = row.bytes.len() as int;
    let p = row.position.len() as int;
    let k = choose|k: int| crate::popup::position_reads(row.position, k, row.y, row.x);
    let y_text = row.position.take(k);
    let x_text = row.position.subrange(k + 1, p - 1);
    let content = row.bytes.subrange(8 + p, n - 6);
    assert(row.position == y_text + seq![0x3bu8] + x_text + seq![0x48u8]);
    assert(row.bytes == row.bytes.take(8) + row.bytes.subrange(8, 8 + p) + content + row.bytes.skip(
        n - 6,
    ));
    assert(row.bytes == seq![0x1bu8, 0x37, 0x1b, 0x5b, 0x30, 0x6d, 0x1b, 0x5b] + row.position
        + content + seq![0x1bu8, 0x5b, 0x30, 0x6d, 0x1b, 0x38]);
    assert forall|i: int|
        0 <= i < content.len() - 1 && #[trigger] content[i] == 0x1b implies content[i + 1]
        != 0x38 by {
        assert(!crate::popup::restores_at(row.bytes, 8 + p + i));
        assert(content[i] == row.bytes[8 + p + i]);
        assert(content[i + 1] == row.bytes[8 + p + i + 1]);
    }
    (y_text, x_text, content)
}

/// A text begins with a row exactly if it is that row and anything behind it.
pub proof fn text_begins_with_a_row_it_goes_on_from(text: Seq<u8>, row: PopupRow, rest: Seq<u8>)
    requires
        crate::popup::is_popup_row(row),
    ensures
        text == row.bytes + rest ==> crate::popup::begins_with_row(text, row),
        crate::popup::begins_with_row(text, row) ==> text == row.bytes + text.skip(
            row.bytes.len() as int,
        ),
{
    if text == row.bytes + rest {
        assert(text.take(row.bytes.len() as int) == row.bytes);
    }
    if crate::popup::begins_with_row(text, row) {
        assert(text == text.take(row.bytes.len() as int) + text.skip(row.bytes.len() as int));
    }
}

/// Rows laid out one after the other are their bytes strung together.
proof fn lemma_rows_bytes_flatten(rows: Seq<PopupRow>)
    ensures
        crate::popup::rows_bytes(rows) == Seq::new(
            rows.len(),
            |i: int| rows[i].bytes,
        ).flatten(),
    decreases rows.len(),
{
    let parts = Seq::new(rows.len(), |i: int| rows[i].bytes);
    if rows.len() > 0 {
        let tail = rows.drop_first();
        lemma_rows_bytes_flatten(tail);
        assert(parts.drop_first() == Seq::new(tail.len(), |i: int| tail[i].bytes));
        assert(parts.first() == rows[0].bytes);
    }
}

/// Rows each above the next are each above all that follow.
proof fn lemma_next_to_all(rows: Seq<PopupRow>, i: int, j: int)
    requires
        0 <= i < j < rows.len(),
        forall|k: int|
            0 < k < rows.len() ==> rows[k - 1].y < (#[trigger] rows[k]).y && rows[k - 1].x
                == rows[k].x,
    ensures
        rows[i].y < rows[j].y,
        rows[i].x == rows[j].x,
    decreases j - i,
{
    assert(rows[j - 1].y < rows[j].y && rows[j - 1].x == rows[j].x);
    if i < j - 1 {
        lemma_next_to_all(rows, i, j - 1);
    }
}

/// Any string of rows at one column, none above screen row 1 and each below the one before,
/// qualifies, and is split into exactly those rows; whatever they draw and however far apart they
/// stand.
pub proof fn rows_from_top_to_bottom_qualify(frame: Seq<u8>, rows: Seq<PopupRow>)
    requires
        rows.len() > 0,
        frame == Seq::new(rows.len(), |i: int| rows[i].bytes).flatten(),
        forall|i: int| 0 <= i < rows.len() ==> crate::popup::is_popup_row(#[trigger] rows[i]),
        rows[0].y >= 1,
        forall|k: int|
            0 < k < rows.len() ==> rows[k - 1].y < (#[trigger] rows[k]).y && rows[k - 1].x
                == rows[k].x,
    ensures
        crate::popup::is_layout(frame, rows),
        crate::popup::popup_layout(frame) == Some(rows),
{
    lemma_rows_bytes_flatten(rows);
    assert forall|i: int, j: int| 0 <= i < j < rows.len() implies (#[trigger] rows[i]).y < (
    #[trigger] rows[j]).y && rows[i].x == rows[j].x by {
        lemma_next_to_all(rows, i, j);
    }
    assert forall|i: int| 0 <= i < rows.len() implies crate::popup::is_popup_row(
        #[trigger] rows[i],
    ) && rows[i].y > 0 by {
        if i > 0 {
            lemma_next_to_all(rows, 0, i);
        }
    }
    crate::popup::lemma_layout_found(frame, rows);
}

/// Nothing else qualifies: what a frame is split into are one or more rows that make it up without
/// a gap, at one column, none above screen row 1 and each below the one before.
pub proof fn only_rows_from_top_to_bottom_qualify(frame: Seq<u8>, rows: Seq<PopupRow>)
    requires
        crate::popup::popup_layout(frame) == Some(rows) || crate::popup::is_layout(frame, rows),
    ensures
        rows.len() > 0,
        frame == Seq::new(rows.len(), |i: int| rows[i].bytes).flatten(),
        forall|i: int| 0 <= i < rows.len() ==> crate::popup::is_popup_row(#[trigger] rows[i]),
        rows[0].y >= 1,
        forall|k: int|
            0 < k < rows.len() ==> rows[k - 1].y < (#[trigger] rows[k]).y && rows[k - 1].x
                == rows[k].x,
{
    assert(crate::popup::is_layout(frame, rows));
    lemma_rows_bytes_flatten(rows);
    assert(rows[0].y > 0);
}

/// What shows the rows of a frame is one pair of slices for each row: its position, as it is
/// written behind the eight bytes that start the row, and all of its bytes. Strung together, the
/// rows are the frame.
pub proof fn shown_rows_make_up_the_frame(
    frame: Seq<u8>,
    slices: Seq<(&[u8], &[u8])>,
    rows: Seq<PopupRow>,
)
    requires
        crate::popup::is_layout(frame, rows),
        crate::popup::show_rows(slices, rows),
    ensures
        slices.len() == rows.len(),
        Seq::new(slices.len(), |i: int| slices[i].1@).flatten() == frame,
        forall|i: int|
            0 <= i < slices.len() ==> (#[trigger] slices[i]).0@ == rows[i].position
                && slices[i].1@ == rows[i].bytes && slices[i].0@ == slices[i].1@.subrange(
                8,
                8 + slices[i].0@.len() as int,
            ),
{
    lemma_rows_bytes_flatten(rows);
    assert(Seq::new(slices.len(), |i: int| slices[i].1@) == Seq::new(
        rows.len(),
        |i: int| rows[i].bytes,
    ));
    assert forall|i: int| 0 <= i < slices.len() implies (#[trigger] slices[i]).0@
        == rows[i].position && slices[i].1@ == rows[i].bytes && slices[i].0@
        == slices[i].1@.subrange(8, 8 + slices[i].0@.len() as int) by {
        assert(crate::popup::is_popup_row(rows[i]));
    }
}

/// The changed rows strung together: each row in its place, or nothing where it is unchanged.
proof fn lemma_changed_rows_flatten(before: Seq<PopupRow>, after: Seq<PopupRow>)
    requires
        before.len() == after.len(),
    ensures
        crate::popup::rows_bytes(crate::popup::changed_rows(before, after)) == Seq::new(
            after.len(),
            |i: int|
                if before[i].bytes == after[i].bytes {
                    Seq::empty()
                } else {
                    after[i].bytes
                },
        ).flatten(),
    decreases after.len(),
{
    let parts = Seq::new(
        after.len(),
        |i: int|
            if before[i].bytes == after[i].bytes {
                Seq::<u8>::empty()
            } else {
                after[i].bytes
            },
    );
    if after.len() > 0 {
        let old_tail = before.drop_first();
        let new_tail = after.drop_first();
        lemma_changed_rows_flatten(old_tail, new_tail);
        assert(parts.drop_first() == Seq::new(
            new_tail.len(),
            |i: int|
                if old_tail[i].bytes == new_tail[i].bytes {
                    Seq::<u8>::empty()
                } else {
                    new_tail[i].bytes
                },
        ));
        let others = crate::popup::changed_rows(old_tail, new_tail);
        assert((seq![after[0]] + others).drop_first() == others);
        assert(parts.flatten() == parts.first() + parts.drop_first().flatten());
    }
}

/// A popup whose rows stay in place is always reduced, whether its frame became longer, shorter or
/// stayed as long, and however many of its rows changed: to its rows from top to bottom, each in
/// full, without those that are byte for byte as they were.
pub proof fn rows_in_place_are_always_reduced(
    cache: Seq<u8>,
    overlay: OverlayView,
    before: Seq<PopupRow>,
    after: Seq<PopupRow>,
)
    requires
        overlay.row_diff,
        overlay.persistent,
        crate::popup::is_layout(cache, before),
        crate::popup::is_layout(overlay.frame, after),
        before.len() == after.len(),
        forall|i: int|
            0 <= i < after.len() ==> before[i].position == (#[trigger] after[i]).position,
    ensures
        crate::popup::frame_delta(Some(cache), true, overlay) == Some(
            Seq::new(
                after.len(),
                |i: int|
                    if before[i].bytes == after[i].bytes {
                        Seq::empty()
                    } else {
                        after[i].bytes
                    },
            ).flatten(),
        ),
{
    crate::popup::lemma_layout_found(cache, before);
    crate::popup::lemma_layout_found(overlay.frame, after);
    lemma_changed_rows_flatten(before, after);
}

/// What a reduced popup draws depends on the two frames alone, not on the state or the generations
/// that it was rendered for.
pub proof fn reduction_goes_by_the_frames(
    cache: Option<Seq<u8>>,
    visible: bool,
    one: OverlayView,
    other: OverlayView,
)
    requires
        one.frame == other.frame,
        one.persistent == other.persistent,
        one.row_diff == other.row_diff,
    ensures
        crate::popup::frame_delta(cache, visible, one) == crate::popup::frame_delta(
            cache,
            visible,
            other,
        ),
{
}

} // verus!
