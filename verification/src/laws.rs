//! What holds of every extraction, proved of the definitions that the
//! contracts use.

use vstd::prelude::*;

use crate::caltrain_status::{
    classify, CaltrainStatus, Error, IncomingTrain, NumberField, StatusView, TrainType,
};
use crate::dom::{AttributeView, EventView};
use crate::extract::{html_outcome, outcome};
use crate::text::{
    all_digits, contains_text, ends_with_text, first_digit_run, has_digit, is_digit,
    leading_digits, occurs_at, parse_u16_spec,
};
use crate::walk::{
    arrival_marker, assemble, build_train, class_name, empty_status, extract, id_marker, initial,
    open_element, row_train, rows_of, run, step, subtable_marker, type_marker, Row, Walk,
    NO_COUNTDOWN,
};

verus! {

/// The leading digits of a text are its longest prefix of digits: they
/// start the text, are digits all, and end where the text ends or at a
/// character that is no digit.
pub proof fn lemma_leading_digits(s: Seq<char>)
    ensures
        leading_digits(s).is_prefix_of(s),
        all_digits(leading_digits(s)),
        leading_digits(s).len() == s.len() || !is_digit(s[leading_digits(s).len() as int]),
        s.len() > 0 && is_digit(s[0]) ==> leading_digits(s).len() > 0,
    decreases s.len(),
{
    if s.len() > 0 && is_digit(s[0]) {
        let rest = s.drop_first();
        lemma_leading_digits(rest);
        let run = leading_digits(s);
        assert(run =~= seq![s[0]] + leading_digits(rest));
        assert forall|i: int| 0 <= i < run.len() implies #[trigger] run[i] == s[i] by {
            if i > 0 {
                assert(leading_digits(rest)[i - 1] == rest.subrange(
                    0,
                    leading_digits(rest).len() as int,
                )[i - 1]);
            }
        }
        assert(run =~= s.subrange(0, run.len() as int));
        if run.len() < s.len() {
            assert(s[run.len() as int] == rest[leading_digits(rest).len() as int]);
        }
    }
}

/// A text without a digit has no digit run, and a text with one has one.
pub proof fn lemma_first_digit_run_none(s: Seq<char>)
    ensures
        first_digit_run(s) is None <==> !has_digit(s),
    decreases s.len(),
{
    if s.len() == 0 {
    } else if is_digit(s[0]) {
        assert(has_digit(s));
    } else {
        let rest = s.drop_first();
        lemma_first_digit_run_none(rest);
        if has_digit(rest) {
            let i = choose|i: int| 0 <= i < rest.len() && is_digit(#[trigger] rest[i]);
            assert(is_digit(s[i + 1]));
        }
        if has_digit(s) {
            let i = choose|i: int| 0 <= i < s.len() && is_digit(#[trigger] s[i]);
            assert(is_digit(rest[i - 1]));
        }
    }
}

/// Where a text holds a digit, its first digit run starts at the first
/// digit and ends before the first character after it that is no digit.
pub proof fn lemma_first_digit_run_some(s: Seq<char>) -> (bounds: (int, int))
    requires
        has_digit(s),
    ensures
        0 <= bounds.0 < bounds.1 <= s.len(),
        first_digit_run(s) == Some(s.subrange(bounds.0, bounds.1)),
        forall|i: int| 0 <= i < bounds.0 ==> !is_digit(#[trigger] s[i]),
        forall|i: int| bounds.0 <= i < bounds.1 ==> is_digit(#[trigger] s[i]),
        bounds.1 == s.len() || !is_digit(s[bounds.1]),
    decreases s.len(),
{
    if is_digit(s[0]) {
        lemma_leading_digits(s);
        let run = leading_digits(s);
        assert forall|i: int| 0 <= i < run.len() implies is_digit(#[trigger] s[i]) by {
            assert(run[i] == s[i]);
        }
        (0, run.len() as int)
    } else {
        let rest = s.drop_first();
        let i = choose|i: int| 0 <= i < s.len() && is_digit(#[trigger] s[i]);
        assert(is_digit(rest[i - 1]));
        let (start, end) = lemma_first_digit_run_some(rest);
        assert(rest.subrange(start, end) =~= s.subrange(start + 1, end + 1));
        assert forall|i: int| 0 <= i < start + 1 implies !is_digit(#[trigger] s[i]) by {
            if i > 0 {
                assert(s[i] == rest[i - 1]);
            }
        }
        assert forall|i: int| start + 1 <= i < end + 1 implies is_digit(#[trigger] s[i]) by {
            assert(s[i] == rest[i - 1]);
        }
        (start + 1, end + 1)
    }
}

/// A row whose time label holds no digit gives a train whose minutes
/// till departure are exactly 9001, and never fails on account of its
/// time.
pub proof fn lemma_no_digit_gives_sentinel(id: Seq<char>, ttype: Seq<char>, time: Seq<char>)
    requires
        !has_digit(time),
    ensures
        NO_COUNTDOWN == 9001,
        match build_train(id, ttype, time) {
            Ok(train) => train.min_till_departure == 9001,
            Err(e) => e != Error::InvalidIntError(NumberField::ArrivalTime),
        },
        build_train(id, ttype, time) is Ok <==> parse_u16_spec(id) is Some && classify(ttype) is Some,
{
    lemma_first_digit_run_none(time);
}

/// A train is built exactly of three texts of which the first is a
/// number, the second names a type and the third holds no digits or
/// digits that fit; its fields are what the texts say.
pub proof fn lemma_build_train_fields(id: Seq<char>, ttype: Seq<char>, time: Seq<char>)
    ensures
        match build_train(id, ttype, time) {
            Ok(train) => {
                &&& parse_u16_spec(id) == Some(train.id)
                &&& classify(ttype) == Some(train.ttype)
                &&& if has_digit(time) {
                    first_digit_run(time) is Some && parse_u16_spec(first_digit_run(time)->Some_0)
                        == Some(train.min_till_departure)
                } else {
                    train.min_till_departure == 9001
                }
            },
            Err(Error::InvalidIntError(NumberField::Identifier)) => parse_u16_spec(id) is None,
            Err(Error::UnknownTrainType) => parse_u16_spec(id) is Some && classify(ttype) is None,
            Err(Error::InvalidIntError(NumberField::ArrivalTime)) => {
                &&& parse_u16_spec(id) is Some
                &&& classify(ttype) is Some
                &&& has_digit(time)
                &&& first_digit_run(time) is Some
                &&& parse_u16_spec(first_digit_run(time)->Some_0) is None
            },
            Err(Error::HtmlError) => false,
        },
{
    lemma_first_digit_run_none(time);
}

/// The rows of one block.
pub open spec fn in_block(table: nat) -> spec_fn(Row) -> bool {
    |row: Row| row.table == table
}

/// The rows of `rows` that are of block `table`, in their order.
pub open spec fn block_rows(rows: Seq<Row>, table: nat) -> Seq<Row> {
    rows.filter(in_block(table))
}

/// The train of a row that describes one.
pub open spec fn train_of() -> spec_fn(Row) -> IncomingTrain {
    |row: Row| row_train(row)->Ok_0
}

/// The trains of rows, in the order of the rows.
pub open spec fn trains_of(rows: Seq<Row>) -> Seq<IncomingTrain> {
    rows.map_values(train_of())
}

/// Whether row `i` is the first row of `rows` that describes no train.
pub open spec fn first_failure(rows: Seq<Row>, i: int) -> bool {
    &&& 0 <= i < rows.len()
    &&& row_train(rows[i]) is Err
    &&& forall|j: int| 0 <= j < i ==> row_train(#[trigger] rows[j]) is Ok
}

/// Rows make a snapshot exactly where every row describes a train, of
/// whatever block it is. The snapshot then holds the trains of the rows
/// of the first block as southbound and those of the second block as
/// northbound, each in the order of the rows. Otherwise the error is
/// that of the first row that describes no train.
pub proof fn lemma_assemble_lists_blocks(rows: Seq<Row>)
    ensures
        match assemble(rows) {
            Ok(status) => {
                &&& forall|i: int| 0 <= i < rows.len() ==> row_train(#[trigger] rows[i]) is Ok
                &&& status.southbound == trains_of(block_rows(rows, 1))
                &&& status.northbound == trains_of(block_rows(rows, 2))
            },
            Err(e) => exists|i: int|
                first_failure(rows, i) && row_train(rows[i]) == Err::<IncomingTrain, Error>(e),
        },
    decreases rows.len(),
{
    if rows.len() == 0 {
        assert(block_rows(rows, 1) =~= Seq::empty()) by {
            rows.lemma_filter_len(in_block(1));
        }
        assert(block_rows(rows, 2) =~= Seq::empty()) by {
            rows.lemma_filter_len(in_block(2));
        }
        assert(trains_of(Seq::<Row>::empty()) =~= Seq::empty());
    } else {
        let front = rows.drop_last();
        let last = rows.last();
        lemma_assemble_lists_blocks(front);
        assert(rows =~= front.push(last));
        front.lemma_filter_push(last, in_block(1));
        front.lemma_filter_push(last, in_block(2));
        match assemble(front) {
            Ok(status) => {
                if row_train(last) is Err {
                    assert(first_failure(rows, rows.len() - 1));
                } else {
                    block_rows(front, 1).lemma_push_map_commute(train_of(), last);
                    block_rows(front, 2).lemma_push_map_commute(train_of(), last);
                }
            },
            Err(e) => {
                let i = choose|i: int|
                    first_failure(front, i) && row_train(front[i]) == Err::<IncomingTrain, Error>(e);
                assert(first_failure(rows, i));
            },
        }
    }
}

/// Rows that fail keep failing, with the same error, whatever rows follow.
pub proof fn lemma_assemble_error_stays(rows: Seq<Row>, n: int)
    requires
        0 <= n <= rows.len(),
        assemble(rows.take(n)) is Err,
    ensures
        assemble(rows) == assemble(rows.take(n)),
    decreases rows.len() - n,
{
    if n == rows.len() {
        assert(rows.take(n) =~= rows);
    } else {
        assert(rows.take(n + 1).drop_last() =~= rows.take(n));
        lemma_assemble_error_stays(rows, n + 1);
    }
}

/// Whether an attribute starts a block: its name is `class` and its value
/// ends with the block marker.
pub open spec fn is_block_marker(attr: AttributeView) -> bool {
    attr.name == class_name() && ends_with_text(
        attr.value,
        subtable_marker(),
    )
}

/// How many of `attrs` start a block.
pub open spec fn markers_of(attrs: Seq<AttributeView>) -> nat
    decreases attrs.len(),
{
    if attrs.len() == 0 {
        0
    } else {
        markers_of(attrs.drop_last()) + if is_block_marker(attrs.last()) {
            1nat
        } else {
            0nat
        }
    }
}

/// How many blocks an event starts.
pub open spec fn event_markers(event: EventView) -> nat {
    match event {
        EventView::Open(attrs) => markers_of(attrs),
        _ => 0,
    }
}

/// How many blocks `events` start.
pub open spec fn markers_in(events: Seq<EventView>) -> nat
    decreases events.len(),
{
    if events.len() == 0 {
        0
    } else {
        markers_in(events.drop_last()) + event_markers(events.last())
    }
}

/// An element that opens moves the block counter on by the markers among
/// its attributes, and stages and completes nothing.
pub proof fn lemma_open_element_counts_markers(w: Walk, attrs: Seq<AttributeView>)
    ensures
        open_element(w, attrs).table == w.table + markers_of(attrs),
        open_element(w, attrs).rows == w.rows,
        open_element(w, attrs).last_text == w.last_text,
        open_element(w, attrs).staged_id == w.staged_id,
        open_element(w, attrs).staged_type == w.staged_type,
        open_element(w, attrs).staged_time == w.staged_time,
    decreases attrs.len(),
{
    if attrs.len() > 0 {
        lemma_open_element_counts_markers(w, attrs.drop_last());
    }
}

/// One event keeps the rows that are there and completes at most one
/// more, which only the end of an element does; the new row is of the
/// block that the walk is in. The block counter moves on by the markers
/// of the event.
pub proof fn lemma_step_rows(w: Walk, event: EventView)
    ensures
        step(w, event).table == w.table + event_markers(event),
        w.rows.is_prefix_of(step(w, event).rows),
        step(w, event).rows.len() <= w.rows.len() + 1,
        step(w, event).rows.len() == w.rows.len() + 1 ==> event is Close
            && step(w, event).rows.last().table == w.table,
{
    match event {
        EventView::Open(attrs) => {
            lemma_open_element_counts_markers(w, attrs);
        },
        _ => {},
    }
}

/// The block counter of a walk counts the markers met.
pub proof fn lemma_run_counts_markers(w: Walk, events: Seq<EventView>)
    ensures
        run(w, events).table == w.table + markers_in(events),
    decreases events.len(),
{
    if events.len() > 0 {
        lemma_run_counts_markers(w, events.drop_last());
        lemma_step_rows(run(w, events.drop_last()), events.last());
    }
}

/// The rows that the first `n` events complete stay the first rows of
/// the document.
pub proof fn lemma_run_keeps_rows(w: Walk, events: Seq<EventView>, n: int)
    requires
        0 <= n <= events.len(),
    ensures
        run(w, events.take(n)).rows.is_prefix_of(run(w, events).rows),
    decreases events.len() - n,
{
    if n == events.len() {
        assert(events.take(n) =~= events);
    } else {
        lemma_run_keeps_rows(w, events, n + 1);
        assert(events.take(n + 1).drop_last() =~= events.take(n));
        lemma_step_rows(run(w, events.take(n)), events[n]);
    }
}

/// Rows come in document order, each with the block it stands in: the
/// rows completed up to an event are the first rows of the document, an
/// event completes at most one row, and that row's block is the number
/// of block markers that precede the event.
pub proof fn lemma_row_block_counts_markers(events: Seq<EventView>, n: int)
    requires
        0 <= n < events.len(),
    ensures
        rows_of(events.take(n)).is_prefix_of(rows_of(events.take(n + 1))),
        rows_of(events.take(n + 1)).is_prefix_of(rows_of(events)),
        rows_of(events.take(n + 1)).len() <= rows_of(events.take(n)).len() + 1,
        rows_of(events.take(n + 1)).len() == rows_of(events.take(n)).len() + 1 ==> {
            &&& events[n] is Close
            &&& rows_of(events)[rows_of(events.take(n)).len() as int].table == markers_in(
                events.take(n),
            )
        },
{
    let before = run(initial(), events.take(n));
    assert(events.take(n + 1).drop_last() =~= events.take(n));
    lemma_step_rows(before, events[n]);
    lemma_run_counts_markers(initial(), events.take(n));
    lemma_run_keeps_rows(initial(), events, n + 1);
}

/// Every row of a walk is of a block between the one the walk started in
/// and the one it ended in.
pub proof fn lemma_row_blocks_bounded(w: Walk, events: Seq<EventView>)
    ensures
        w.rows.is_prefix_of(run(w, events).rows),
        w.table <= run(w, events).table,
        forall|i: int|
            w.rows.len() <= i < run(w, events).rows.len() ==> w.table <= (#[trigger] run(
                w,
                events,
            ).rows[i]).table <= run(w, events).table,
    decreases events.len(),
{
    if events.len() > 0 {
        let before = run(w, events.drop_last());
        let after = run(w, events);
        lemma_row_blocks_bounded(w, events.drop_last());
        lemma_step_rows(before, events.last());
        assert forall|i: int| w.rows.len() <= i < after.rows.len() implies w.table <= (
        #[trigger] after.rows[i]).table <= after.table by {
            if i < before.rows.len() {
                assert(after.rows[i] == before.rows[i]);
            } else {
                assert(after.rows[i] == after.rows.last());
            }
        }
    }
}

/// Rows that describe trains, none of the first or the second block,
/// give the snapshot without trains.
pub proof fn lemma_rows_of_other_blocks_give_nothing(rows: Seq<Row>)
    requires
        forall|i: int|
            0 <= i < rows.len() ==> (#[trigger] rows[i]).table != 1 && rows[i].table != 2
                && row_train(rows[i]) is Ok,
    ensures
        assemble(rows) == Ok::<StatusView, Error>(empty_status()),
    decreases rows.len(),
{
    if rows.len() > 0 {
        lemma_rows_of_other_blocks_give_nothing(rows.drop_last());
    }
}

/// A document without a block marker, each of whose rows describes a
/// train, gives the snapshot without trains.
pub proof fn lemma_no_marker_gives_empty_snapshot(events: Seq<EventView>)
    requires
        markers_in(events) == 0,
        forall|i: int|
            0 <= i < rows_of(events).len() ==> row_train(#[trigger] rows_of(events)[i]) is Ok,
    ensures
        extract(events) == Ok::<StatusView, Error>(empty_status()),
        empty_status().northbound.len() == 0,
        empty_status().southbound.len() == 0,
{
    lemma_row_blocks_bounded(initial(), events);
    lemma_run_counts_markers(initial(), events);
    lemma_rows_of_other_blocks_give_nothing(rows_of(events));
}

/// The snapshot of a document lists the trains of the rows of its first
/// block as southbound and those of the rows of its second block as
/// northbound, each in document order, and nothing else.
pub proof fn lemma_snapshot_lists_blocks_in_order(events: Seq<EventView>, status: StatusView)
    requires
        extract(events) == Ok::<StatusView, Error>(status),
    ensures
        status.southbound == trains_of(block_rows(rows_of(events), 1)),
        status.northbound == trains_of(block_rows(rows_of(events), 2)),
{
    lemma_assemble_lists_blocks(rows_of(events));
}

/// The row that is the `k`-th of its block gives the `k`-th train of its
/// list: a row of the first block lands in the southbound list and a row
/// of the second block in the northbound list, each behind the trains of
/// the rows of its block that precede it in the document.
pub proof fn lemma_row_lands_by_block(events: Seq<EventView>, status: StatusView, i: int)
    requires
        extract(events) == Ok::<StatusView, Error>(status),
        0 <= i < rows_of(events).len(),
    ensures
        ({
            let row = rows_of(events)[i];
            let k = block_rows(rows_of(events).take(i), row.table).len() as int;
            &&& row.table == 1 ==> k < status.southbound.len() && row_train(row) == Ok::<
                IncomingTrain,
                Error,
            >(status.southbound[k])
            &&& row.table == 2 ==> k < status.northbound.len() && row_train(row) == Ok::<
                IncomingTrain,
                Error,
            >(status.northbound[k])
        }),
{
    let rows = rows_of(events);
    let row = rows[i];
    let pred = in_block(row.table);
    let front = rows.take(i);
    let rest = rows.skip(i + 1);
    lemma_assemble_lists_blocks(rows);
    assert(rows =~= front.push(row) + rest);
    Seq::filter_distributes_over_add(front.push(row), rest, pred);
    front.lemma_filter_push(row, pred);
    let block = block_rows(rows, row.table);
    let k = front.filter(pred).len() as int;
    assert(block == front.filter(pred).push(row) + rest.filter(pred));
    assert(block[k] == row);
    assert(row_train(rows[i]) is Ok);
    assert(trains_of(block)[k] == train_of()(row));
}

/// A document has a snapshot exactly where each of its rows describes a
/// train, of whatever block the row is; otherwise the extraction fails
/// with the error of the first row that describes none.
pub proof fn lemma_extraction_fails_on_first_bad_row(events: Seq<EventView>)
    ensures
        extract(events) is Ok <==> forall|i: int|
            0 <= i < rows_of(events).len() ==> row_train(#[trigger] rows_of(events)[i]) is Ok,
        extract(events) is Err ==> exists|i: int|
            first_failure(rows_of(events), i) && row_train(rows_of(events)[i]) == Err::<
                IncomingTrain,
                Error,
            >(extract(events)->Err_0),
{
    lemma_assemble_lists_blocks(rows_of(events));
    if extract(events) is Err {
        let e = extract(events)->Err_0;
        let i = choose|i: int|
            first_failure(rows_of(events), i) && row_train(rows_of(events)[i]) == Err::<
                IncomingTrain,
                Error,
            >(e);
        assert(row_train(rows_of(events)[i]) is Err);
    }
}

/// Each train of a snapshot is the train of a row of the document: the
/// `k`-th train of a list is built of the `k`-th row of its block, has
/// the type that the row's label names and the number that the row's
/// identifier writes, and 9001 minutes till departure where the row's
/// time label holds no digit.
pub proof fn lemma_listed_train_is_built_of_its_row(
    events: Seq<EventView>,
    status: StatusView,
    southbound: bool,
    k: int,
)
    requires
        extract(events) == Ok::<StatusView, Error>(status),
        0 <= k < (if southbound {
            status.southbound
        } else {
            status.northbound
        }).len(),
    ensures
        ({
            let table: nat = if southbound {
                1
            } else {
                2
            };
            let train = if southbound {
                status.southbound[k]
            } else {
                status.northbound[k]
            };
            let row = block_rows(rows_of(events), table)[k];
            &&& rows_of(events).contains(row)
            &&& row.table == table
            &&& row_train(row) == Ok::<IncomingTrain, Error>(train)
            &&& classify(row.ttype) == Some(train.ttype)
            &&& parse_u16_spec(row.id) == Some(train.id)
            &&& !has_digit(row.time) ==> train.min_till_departure == 9001
        }),
{
    let rows = rows_of(events);
    let table: nat = if southbound {
        1
    } else {
        2
    };
    let block = block_rows(rows, table);
    lemma_assemble_lists_blocks(rows);
    let row = block[k];
    rows.lemma_filter_pred(in_block(table), k);
    assert(block.contains(row));
    rows.lemma_filter_contains_rev(in_block(table), row);
    let i = choose|i: int| 0 <= i < rows.len() && rows[i] == row;
    assert(row_train(rows[i]) is Ok);
    lemma_build_train_fields(row.id, row.ttype, row.time);
}

/// A label names the first of the three types, in the order Local,
/// Limited, Baby Bullet, whose name stands in it, and no type where none
/// does: there is no default.
pub proof fn lemma_classification_total(label: Seq<char>)
    ensures
        match classify(label) {
            Some(TrainType::Local) => contains_text(label, "Local"@),
            Some(TrainType::Limited) => !contains_text(label, "Local"@) && contains_text(
                label,
                "Limited"@,
            ),
            Some(TrainType::BabyBullet) => !contains_text(label, "Local"@) && !contains_text(
                label,
                "Limited"@,
            ) && contains_text(label, "Baby Bullet"@),
            None => !contains_text(label, "Local"@) && !contains_text(label, "Limited"@)
                && !contains_text(label, "Baby Bullet"@),
        },
{
}

/// A row with a label that names no type describes no train, whatever
/// its other texts are.
pub proof fn lemma_unknown_label_fails(id: Seq<char>, ttype: Seq<char>, time: Seq<char>)
    requires
        classify(ttype) is None,
    ensures
        build_train(id, ttype, time) is Err,
        parse_u16_spec(id) is Some ==> build_train(id, ttype, time) == Err::<IncomingTrain, Error>(
            Error::UnknownTrainType,
        ),
{
}

/// A row with a label that names no type makes the extraction fail, of
/// whatever block the row is.
pub proof fn lemma_unknown_label_fails_extraction(events: Seq<EventView>, i: int)
    requires
        0 <= i < rows_of(events).len(),
        classify(rows_of(events)[i].ttype) is None,
    ensures
        extract(events) is Err,
{
    lemma_extraction_fails_on_first_bad_row(events);
}

/// Where a piece stands in a text at `i`, the text has the piece's first
/// character there.
proof fn lemma_occurrence_starts_with(s: Seq<char>, pat: Seq<char>, i: int)
    requires
        occurs_at(s, pat, i),
        pat.len() > 0,
    ensures
        0 <= i < s.len(),
        s[i] == pat[0],
{
    assert(s.subrange(i, i + pat.len())[0] == s[i]);
}

/// The words that show a type name that type: reading a label back gives
/// the type it was made of.
pub proof fn lemma_label_names_its_type(ttype: TrainType)
    ensures
        classify(ttype.label_spec()) == Some(ttype),
{
    reveal_strlit("Local");
    reveal_strlit("Limited");
    reveal_strlit("Baby Bullet");
    let local = "Local"@;
    let limited = "Limited"@;
    let bullet = "Baby Bullet"@;
    match ttype {
        TrainType::Local => {
            assert(local.subrange(0, 5) =~= local);
            assert(occurs_at(local, local, 0));
        },
        TrainType::Limited => {
            assert forall|i: int| !occurs_at(limited, local, i) by {
                if occurs_at(limited, local, i) {
                    lemma_occurrence_starts_with(limited, local, i);
                    assert(i == 0);
                    assert(limited.subrange(0, 5)[1] == limited[1]);
                }
            }
            assert(limited.subrange(0, 7) =~= limited);
            assert(occurs_at(limited, limited, 0));
        },
        TrainType::BabyBullet => {
            assert forall|i: int| !occurs_at(bullet, local, i) by {
                if occurs_at(bullet, local, i) {
                    lemma_occurrence_starts_with(bullet, local, i);
                }
            }
            assert forall|i: int| !occurs_at(bullet, limited, i) by {
                if occurs_at(bullet, limited, i) {
                    lemma_occurrence_starts_with(bullet, limited, i);
                }
            }
            assert(bullet.subrange(0, 11) =~= bullet);
            assert(occurs_at(bullet, bullet, 0));
        },
    }
}

/// A text that ends with a piece of two characters or more ends with the
/// last two characters of that piece.
proof fn lemma_suffix_ends(value: Seq<char>, suffix: Seq<char>)
    requires
        ends_with_text(value, suffix),
        suffix.len() >= 2,
    ensures
        value.len() >= 2,
        value[value.len() - 1] == suffix[suffix.len() - 1],
        value[value.len() - 2] == suffix[suffix.len() - 2],
{
    let tail = value.subrange(value.len() - suffix.len(), value.len() as int);
    assert(tail[suffix.len() - 1] == value[value.len() - 1]);
    assert(tail[suffix.len() - 2] == value[value.len() - 2]);
}

/// No class value ends with two of the four markers: one class value has
/// at most one effect.
pub proof fn lemma_markers_exclude_one_another(value: Seq<char>)
    ensures
        !(ends_with_text(value, subtable_marker()) && ends_with_text(value, id_marker())),
        !(ends_with_text(value, subtable_marker()) && ends_with_text(value, type_marker())),
        !(ends_with_text(value, subtable_marker()) && ends_with_text(value, arrival_marker())),
        !(ends_with_text(value, id_marker()) && ends_with_text(value, type_marker())),
        !(ends_with_text(value, id_marker()) && ends_with_text(value, arrival_marker())),
        !(ends_with_text(value, type_marker()) && ends_with_text(value, arrival_marker())),
{
    reveal_strlit("ipf-st-ip-trains-subtable");
    reveal_strlit("ipf-st-ip-trains-subtable-td-id");
    reveal_strlit("ipf-st-ip-trains-subtable-td-type");
    reveal_strlit("ipf-st-ip-trains-subtable-td-arrivaltime");
    if ends_with_text(value, subtable_marker()) {
        lemma_suffix_ends(value, subtable_marker());
    }
    if ends_with_text(value, id_marker()) {
        lemma_suffix_ends(value, id_marker());
    }
    if ends_with_text(value, type_marker()) {
        lemma_suffix_ends(value, type_marker());
    }
    if ends_with_text(value, arrival_marker()) {
        lemma_suffix_ends(value, arrival_marker());
    }
}

/// The same document gives the same outcome: two extractions that each
/// meet the contract for one text agree, in the snapshot's lists or in
/// the error.
pub proof fn lemma_same_text_same_outcome(
    text: Seq<char>,
    first: Result<CaltrainStatus, Error>,
    second: Result<CaltrainStatus, Error>,
)
    requires
        outcome(first) == html_outcome(text),
        outcome(second) == html_outcome(text),
    ensures
        outcome(first) == outcome(second),
        first is Ok ==> second is Ok && first->Ok_0@.northbound == second->Ok_0@.northbound
            && first->Ok_0@.southbound == second->Ok_0@.southbound,
        first is Err ==> second == first,
{
}

} // verus!
