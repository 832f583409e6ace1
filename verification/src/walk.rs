//! The walk over a document as a state machine, stated over sequences of
//! characters: which rows a document holds, and the snapshot that they
//! make.
//!
//! The state of the walk is one value for the whole document. Nothing of
//! it is reset when an element closes: a marker that was seen stays in
//! force for every event after it, at whatever depth.

use vstd::prelude::*;

use crate::caltrain_status::{classify, Error, IncomingTrain, NumberField, StatusView};
use crate::dom::{AttributeView, EventView};
use crate::text::{ends_with_text, first_digit_run, parse_u16_spec};

verus! {

/// The minutes till departure of a row whose time label holds no digit.
pub const NO_COUNTDOWN: u16 = 9001;

/// The field that the next text is read for.
#[derive(Clone, Copy, PartialEq, Eq, Structural, Debug)]
pub enum FieldClass {
    Identifier,
    Type,
    ArrivalTime,
}

/// The name of the attribute that carries the markers.
pub open spec fn class_name() -> Seq<char> {
    "class"@
}

/// The end of a class value that starts the next block of rows.
pub open spec fn subtable_marker() -> Seq<char> {
    "ipf-st-ip-trains-subtable"@
}

/// The end of a class value that announces a train's identifier.
pub open spec fn id_marker() -> Seq<char> {
    "ipf-st-ip-trains-subtable-td-id"@
}

/// The end of a class value that announces a train's type label.
pub open spec fn type_marker() -> Seq<char> {
    "ipf-st-ip-trains-subtable-td-type"@
}

/// The end of a class value that announces a train's arrival time.
pub open spec fn arrival_marker() -> Seq<char> {
    "ipf-st-ip-trains-subtable-td-arrivaltime"@
}

/// A completed row: the three texts that were staged, and the number of
/// the block that the walk was in when the row was completed.
pub struct Row {
    pub table: nat,
    pub id: Seq<char>,
    pub ttype: Seq<char>,
    pub time: Seq<char>,
}

/// The state of a walk.
pub struct Walk {
    /// How many block markers were met so far.
    pub table: nat,
    /// The field that a marker announced and no text has filled yet.
    pub pending: Option<FieldClass>,
    /// The text met last and not yet used.
    pub last_text: Option<Seq<char>>,
    pub staged_id: Option<Seq<char>>,
    pub staged_type: Option<Seq<char>>,
    pub staged_time: Option<Seq<char>>,
    /// The rows completed so far, in the order of their completion.
    pub rows: Seq<Row>,
}

/// The state before the first event.
pub open spec fn initial() -> Walk {
    Walk {
        table: 0,
        pending: None,
        last_text: None,
        staged_id: None,
        staged_type: None,
        staged_time: None,
        rows: Seq::empty(),
    }
}

/// The effect of one class value: each of the four markers that the value
/// ends with takes effect, independently of the others.
pub open spec fn mark_class(w: Walk, value: Seq<char>) -> Walk {
    let w1 = if ends_with_text(value, subtable_marker()) {
        Walk { table: w.table + 1, ..w }
    } else {
        w
    };
    let w2 = if ends_with_text(value, id_marker()) {
        Walk { pending: Some(FieldClass::Identifier), ..w1 }
    } else {
        w1
    };
    let w3 = if ends_with_text(value, type_marker()) {
        Walk { pending: Some(FieldClass::Type), ..w2 }
    } else {
        w2
    };
    if ends_with_text(value, arrival_marker()) {
        Walk { pending: Some(FieldClass::ArrivalTime), ..w3 }
    } else {
        w3
    }
}

/// The effect of one attribute: that of its value where its name is
/// `class`, none otherwise.
pub open spec fn mark_attribute(w: Walk, attr: AttributeView) -> Walk {
    if attr.name == class_name() {
        mark_class(w, attr.value)
    } else {
        w
    }
}

/// The effect of an element's attributes, taken in their order.
pub open spec fn open_element(w: Walk, attrs: Seq<AttributeView>) -> Walk
    decreases attrs.len(),
{
    if attrs.len() == 0 {
        w
    } else {
        mark_attribute(open_element(w, attrs.drop_last()), attrs.last())
    }
}

/// Where a field is pending and a text is at hand, the text is staged for
/// that field, and both are cleared.
pub open spec fn commit(w: Walk) -> Walk {
    match (w.pending, w.last_text) {
        (Some(FieldClass::Identifier), Some(text)) => Walk {
            staged_id: Some(text),
            pending: None,
            last_text: None,
            ..w
        },
        (Some(FieldClass::Type), Some(text)) => Walk {
            staged_type: Some(text),
            pending: None,
            last_text: None,
            ..w
        },
        (Some(FieldClass::ArrivalTime), Some(text)) => Walk {
            staged_time: Some(text),
            pending: None,
            last_text: None,
            ..w
        },
        _ => w,
    }
}

/// Whether all three texts of a row are staged.
pub open spec fn row_ready(w: Walk) -> bool {
    w.staged_id is Some && w.staged_type is Some && w.staged_time is Some
}

/// The row that the staged texts make in the current block.
pub open spec fn staged_row(w: Walk) -> Row
    recommends
        row_ready(w),
{
    Row {
        table: w.table,
        id: w.staged_id->Some_0,
        ttype: w.staged_type->Some_0,
        time: w.staged_time->Some_0,
    }
}

/// Where all three texts are staged, they make a row, and the staging
/// slots are emptied.
pub open spec fn complete_row(w: Walk) -> Walk {
    if row_ready(w) {
        Walk {
            staged_id: None,
            staged_type: None,
            staged_time: None,
            rows: w.rows.push(staged_row(w)),
            ..w
        }
    } else {
        w
    }
}

/// The effect of an element's end: a commit, then the check for a
/// completed row.
pub open spec fn close_element(w: Walk) -> Walk {
    complete_row(commit(w))
}

/// The effect of one event.
pub open spec fn step(w: Walk, event: EventView) -> Walk {
    match event {
        EventView::Open(attrs) => open_element(w, attrs),
        EventView::Text(text) => Walk { last_text: Some(text), ..w },
        EventView::Close => close_element(w),
        EventView::Other => w,
    }
}

/// The state after `events`, started in `w`.
pub open spec fn run(w: Walk, events: Seq<EventView>) -> Walk
    decreases events.len(),
{
    if events.len() == 0 {
        w
    } else {
        step(run(w, events.drop_last()), events.last())
    }
}

/// The rows of a document, in document order.
pub open spec fn rows_of(events: Seq<EventView>) -> Seq<Row> {
    run(initial(), events).rows
}

/// The train that three texts describe, or the reason why they describe
/// none. The identifier is read first, then the type, then the time.
pub open spec fn build_train(id: Seq<char>, ttype: Seq<char>, time: Seq<char>) -> Result<
    IncomingTrain,
    Error,
> {
    match parse_u16_spec(id) {
        None => Err(Error::InvalidIntError(NumberField::Identifier)),
        Some(id) => match classify(ttype) {
            None => Err(Error::UnknownTrainType),
            Some(ttype) => match first_digit_run(time) {
                None => Ok(IncomingTrain { id, ttype, min_till_departure: NO_COUNTDOWN }),
                Some(digits) => match parse_u16_spec(digits) {
                    None => Err(Error::InvalidIntError(NumberField::ArrivalTime)),
                    Some(minutes) => Ok(IncomingTrain { id, ttype, min_till_departure: minutes }),
                },
            },
        },
    }
}

/// The train of a row.
pub open spec fn row_train(row: Row) -> Result<IncomingTrain, Error> {
    build_train(row.id, row.ttype, row.time)
}

/// The snapshot without trains.
pub open spec fn empty_status() -> StatusView {
    StatusView { northbound: Seq::empty(), southbound: Seq::empty() }
}

/// A train enters the list of its block: the first block is southbound,
/// the second northbound, and a train of any other block is dropped.
pub open spec fn route(status: StatusView, table: nat, train: IncomingTrain) -> StatusView {
    if table == 1 {
        StatusView { southbound: status.southbound.push(train), ..status }
    } else if table == 2 {
        StatusView { northbound: status.northbound.push(train), ..status }
    } else {
        status
    }
}

/// A row joins a snapshot: its train is built, whatever block the row is
/// of, and then routed. A row that describes no train fails.
pub open spec fn add_row(status: StatusView, row: Row) -> Result<StatusView, Error> {
    match row_train(row) {
        Err(e) => Err(e),
        Ok(train) => Ok(route(status, row.table, train)),
    }
}

/// The snapshot that rows make, joined in their order. The first row
/// that fails makes the whole fail.
pub open spec fn assemble(rows: Seq<Row>) -> Result<StatusView, Error>
    decreases rows.len(),
{
    if rows.len() == 0 {
        Ok(empty_status())
    } else {
        match assemble(rows.drop_last()) {
            Err(e) => Err(e),
            Ok(status) => add_row(status, rows.last()),
        }
    }
}

/// The snapshot of a document, or the reason why it has none.
pub open spec fn extract(events: Seq<EventView>) -> Result<StatusView, Error> {
    assemble(rows_of(events))
}

} // verus!
