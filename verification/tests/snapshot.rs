use caltraind::caltrain_status::{
    CaltrainStatus, Direction, Error, IncomingTrain, NumberField, TrainType,
};
use caltraind::dom::{Attribute, DomEvent, MAX_DOCUMENT_BYTES};
use caltraind::extract::make_incoming_train;

fn row(id: &str, ttype: &str, time: &str) -> String {
    format!(
        "<tr class=\"ipf-st-ip-trains-subtable-tr\">\n\
         <td class=\"ipf-st-ip-trains-subtable-td-id\">{}</td>\n\
         <td class=\"ipf-st-ip-trains-subtable-td-type\">{}</td>\n\
         <td class=\"ipf-st-ip-trains-subtable-td-arrivaltime\">{}</td>\n\
         </tr>\n",
        id, ttype, time
    )
}

fn subtable(rows: &[String]) -> String {
    format!(
        "<td><table class=\"ipf-st-ip-trains-subtable\">\n{}</table></td>\n",
        rows.concat()
    )
}

fn page(blocks: &[String]) -> String {
    format!(
        "<!DOCTYPE html>\n<html><head><title>Station</title></head><body>\n\
         <!-- departures -->\n\
         <table class=\"ipf-st-ip-trains-table\">\n\
         <tr class=\"ipf-st-ip-trains-table-dir-tr\"><th>SOUTHBOUND</th><th>NORTHBOUND</th></tr>\n\
         <tr class=\"ipf-st-ip-trains-table-trains-tr\">\n{}</tr>\n</table>\n</body></html>\n",
        blocks.concat()
    )
}

fn train(id: u16, ttype: TrainType, minutes: u16) -> IncomingTrain {
    IncomingTrain { id, ttype, min_till_departure: minutes }
}

fn two_block_page() -> String {
    page(&[
        subtable(&[
            row("802", "Baby Bullet", "6 min."),
            row("428", "Local", "63 min."),
            row("430", "Local", "153 min."),
        ]),
        subtable(&[
            row("429", "Local", "59 min."),
            row("431", "Local", "149 min."),
            row("433", "Local", "239 min."),
        ]),
    ])
}

#[test]
fn from_html() {
    assert_eq!(
        CaltrainStatus::from_html(&two_block_page()).unwrap(),
        CaltrainStatus::new(
            vec![
                IncomingTrain { id: 429, ttype: TrainType::Local, min_till_departure: 59 },
                IncomingTrain { id: 431, ttype: TrainType::Local, min_till_departure: 149 },
                IncomingTrain { id: 433, ttype: TrainType::Local, min_till_departure: 239 },
            ],
            vec![
                IncomingTrain { id: 802, ttype: TrainType::BabyBullet, min_till_departure: 6 },
                IncomingTrain { id: 428, ttype: TrainType::Local, min_till_departure: 63 },
                IncomingTrain { id: 430, ttype: TrainType::Local, min_till_departure: 153 },
            ],
        )
    )
}

#[test]
fn from_html_no_southbound() {
    let text = page(&[
        subtable(&[]),
        subtable(&[
            row("803", "Baby Bullet", "69 min."),
            row("435", "Local", "86 min."),
            row("437", "Local", "176 min."),
        ]),
    ]);
    assert_eq!(
        CaltrainStatus::from_html(&text).unwrap(),
        CaltrainStatus::new(
            vec![
                IncomingTrain { id: 803, ttype: TrainType::BabyBullet, min_till_departure: 69 },
                IncomingTrain { id: 435, ttype: TrainType::Local, min_till_departure: 86 },
                IncomingTrain { id: 437, ttype: TrainType::Local, min_till_departure: 176 },
            ],
            vec![],
        )
    )
}

#[test]
fn from_html_is_deterministic() {
    let text = two_block_page();
    let first = CaltrainStatus::from_html(&text).unwrap();
    let second = CaltrainStatus::from_html(&text).unwrap();
    assert_eq!(first, second);
}

#[test]
fn from_html_without_markers_is_empty() {
    let text = "<html><body><p class=\"note\">No trains 42</p></body></html>";
    assert_eq!(CaltrainStatus::from_html(text).unwrap(), CaltrainStatus::new(vec![], vec![]));
    assert_eq!(CaltrainStatus::from_html("").unwrap(), CaltrainStatus::new(vec![], vec![]));
}

#[test]
fn from_html_rows_of_a_third_block_are_dropped() {
    let text = page(&[
        subtable(&[row("101", "Local", "1 min.")]),
        subtable(&[row("102", "Limited", "2 min.")]),
        subtable(&[row("103", "Baby Bullet", "3 min.")]),
    ]);
    assert_eq!(
        CaltrainStatus::from_html(&text).unwrap(),
        CaltrainStatus::new(
            vec![train(102, TrainType::Limited, 2)],
            vec![train(101, TrainType::Local, 1)],
        )
    );
}

#[test]
fn from_html_rows_before_the_first_block_are_dropped() {
    let text = format!(
        "<html><body><table>{}</table><table>{}</table></body></html>",
        row("7", "Local", "5 min."),
        subtable(&[row("8", "Local", "9 min.")])
    );
    assert_eq!(
        CaltrainStatus::from_html(&text).unwrap(),
        CaltrainStatus::new(vec![], vec![train(8, TrainType::Local, 9)])
    );
}

#[test]
fn from_html_time_without_digits_gives_sentinel() {
    let text = page(&[subtable(&[row("310", "Limited", "Departed")])]);
    assert_eq!(
        CaltrainStatus::from_html(&text).unwrap(),
        CaltrainStatus::new(vec![], vec![train(310, TrainType::Limited, 9001)])
    );
}

#[test]
fn from_html_unknown_type_fails() {
    let text = page(&[subtable(&[row("310", "Express", "4 min.")])]);
    assert_eq!(CaltrainStatus::from_html(&text), Err(Error::UnknownTrainType));
}

#[test]
fn from_html_bad_identifier_fails() {
    let text = page(&[subtable(&[row("31x", "Local", "4 min.")])]);
    assert_eq!(
        CaltrainStatus::from_html(&text),
        Err(Error::InvalidIntError(NumberField::Identifier))
    );
    let text = page(&[subtable(&[row("65536", "Local", "4 min.")])]);
    assert_eq!(
        CaltrainStatus::from_html(&text),
        Err(Error::InvalidIntError(NumberField::Identifier))
    );
}

#[test]
fn from_html_overflowing_time_fails() {
    let text = page(&[subtable(&[row("310", "Local", "70000 min.")])]);
    assert_eq!(
        CaltrainStatus::from_html(&text),
        Err(Error::InvalidIntError(NumberField::ArrivalTime))
    );
}

#[test]
fn from_html_failure_gives_no_partial_snapshot() {
    let text = page(&[
        subtable(&[row("1", "Local", "1 min."), row("2", "Tram", "2 min.")]),
        subtable(&[row("3", "Local", "3 min.")]),
    ]);
    assert_eq!(CaltrainStatus::from_html(&text), Err(Error::UnknownTrainType));
}

#[test]
fn from_html_first_failing_row_decides_the_error() {
    let text = page(&[subtable(&[
        row("1", "Local", "99999 min."),
        row("x", "Local", "2 min."),
    ])]);
    assert_eq!(
        CaltrainStatus::from_html(&text),
        Err(Error::InvalidIntError(NumberField::ArrivalTime))
    );
}

#[test]
fn from_html_nested_markup_takes_the_last_text() {
    let text = page(&[subtable(&[
        "<tr><td class=\"x ipf-st-ip-trains-subtable-td-id\">000<b>271</b></td>\
         <td class=\"y ipf-st-ip-trains-subtable-td-type\"><span>Limited</span></td>\
         <td class=\"z ipf-st-ip-trains-subtable-td-arrivaltime\">in <i>12</i></td></tr>"
            .to_string(),
    ])]);
    assert_eq!(
        CaltrainStatus::from_html(&text).unwrap(),
        CaltrainStatus::new(vec![], vec![train(271, TrainType::Limited, 12)])
    );
}

#[test]
fn from_html_marker_must_end_the_class_value() {
    let text = "<html><body><table class=\"ipf-st-ip-trains-subtable wide\"><tr>\
                <td class=\"ipf-st-ip-trains-subtable-td-id\">5</td>\
                <td class=\"ipf-st-ip-trains-subtable-td-type\">Local</td>\
                <td class=\"ipf-st-ip-trains-subtable-td-arrivaltime\">5 min.</td>\
                </tr></table></body></html>";
    assert_eq!(CaltrainStatus::from_html(text).unwrap(), CaltrainStatus::new(vec![], vec![]));
}

fn class(value: &str) -> Vec<Attribute> {
    vec![Attribute { name: "class".to_string(), value: value.to_string() }]
}

fn cell(marker: &str, text: &str) -> Vec<DomEvent> {
    vec![DomEvent::Open(class(marker)), DomEvent::Text(text.to_string()), DomEvent::Close]
}

fn event_row(id: &str, ttype: &str, time: &str) -> Vec<DomEvent> {
    let mut events = vec![DomEvent::Open(vec![])];
    events.extend(cell("ipf-st-ip-trains-subtable-td-id", id));
    events.extend(cell("ipf-st-ip-trains-subtable-td-type", ttype));
    events.extend(cell("ipf-st-ip-trains-subtable-td-arrivaltime", time));
    events.push(DomEvent::Close);
    events
}

#[test]
fn from_events_routes_by_block() {
    let mut events = vec![DomEvent::Open(class("ipf-st-ip-trains-subtable"))];
    events.extend(event_row("802", "Baby Bullet", "6 min."));
    events.extend(event_row("428", "Local", "63 min."));
    events.push(DomEvent::Close);
    events.push(DomEvent::Open(class("ipf-st-ip-trains-subtable")));
    events.extend(event_row("429", "Local", "59 min."));
    events.push(DomEvent::Close);
    assert_eq!(
        CaltrainStatus::from_events(&events).unwrap(),
        CaltrainStatus::new(
            vec![train(429, TrainType::Local, 59)],
            vec![train(802, TrainType::BabyBullet, 6), train(428, TrainType::Local, 63)],
        )
    );
}

#[test]
fn from_events_of_nothing_is_empty() {
    assert_eq!(CaltrainStatus::from_events(&[]).unwrap(), CaltrainStatus::new(vec![], vec![]));
}

#[test]
fn from_events_state_outlives_the_element() {
    // The marker and the text stand in different subtrees: the pending
    // field is not forgotten when the marked element closes.
    let events = vec![
        DomEvent::Open(class("ipf-st-ip-trains-subtable")),
        DomEvent::Close,
        DomEvent::Open(class("ipf-st-ip-trains-subtable-td-id")),
        DomEvent::Close,
        DomEvent::Open(vec![]),
        DomEvent::Text("77".to_string()),
        DomEvent::Close,
        DomEvent::Open(class("ipf-st-ip-trains-subtable-td-type")),
        DomEvent::Close,
        DomEvent::Text("Limited".to_string()),
        DomEvent::Other,
        DomEvent::Open(vec![]),
        DomEvent::Close,
        DomEvent::Open(class("ipf-st-ip-trains-subtable-td-arrivaltime")),
        DomEvent::Text("now".to_string()),
        DomEvent::Close,
    ];
    assert_eq!(
        CaltrainStatus::from_events(&events).unwrap(),
        CaltrainStatus::new(vec![], vec![train(77, TrainType::Limited, 9001)])
    );
}

#[test]
fn from_events_ignores_other_attributes() {
    let mut events = vec![DomEvent::Open(vec![
        Attribute { name: "id".to_string(), value: "ipf-st-ip-trains-subtable".to_string() },
        Attribute { name: "class".to_string(), value: "ipf-st-ip-trains-subtable".to_string() },
        Attribute { name: "title".to_string(), value: "ipf-st-ip-trains-subtable".to_string() },
    ])];
    events.extend(event_row("5", "Local", "5"));
    events.push(DomEvent::Close);
    assert_eq!(
        CaltrainStatus::from_events(&events).unwrap(),
        CaltrainStatus::new(vec![], vec![train(5, TrainType::Local, 5)])
    );
}

#[test]
fn from_events_drops_trains_outside_the_two_blocks() {
    // No block marker at all: the train is built and dropped.
    let events = event_row("7", "Local", "5 min.");
    assert_eq!(CaltrainStatus::from_events(&events).unwrap(), CaltrainStatus::new(vec![], vec![]));
    // Three markers before the row: the same.
    let mut events = vec![
        DomEvent::Open(class("ipf-st-ip-trains-subtable")),
        DomEvent::Open(class("a ipf-st-ip-trains-subtable")),
        DomEvent::Open(class("b-ipf-st-ip-trains-subtable")),
    ];
    events.extend(event_row("8", "Limited", "Departed"));
    assert_eq!(CaltrainStatus::from_events(&events).unwrap(), CaltrainStatus::new(vec![], vec![]));
}

#[test]
fn from_events_fails_on_a_bad_row_of_any_block() {
    // Before any marker.
    assert_eq!(
        CaltrainStatus::from_events(&event_row("x", "Tram", "99999")),
        Err(Error::InvalidIntError(NumberField::Identifier))
    );
    assert_eq!(
        CaltrainStatus::from_events(&event_row("1", "Tram", "99999")),
        Err(Error::UnknownTrainType)
    );
    assert_eq!(
        CaltrainStatus::from_events(&event_row("1", "Local", "99999")),
        Err(Error::InvalidIntError(NumberField::ArrivalTime))
    );
    // In the first block.
    let mut events = vec![DomEvent::Open(class("ipf-st-ip-trains-subtable"))];
    events.extend(event_row("x", "Local", "5"));
    assert_eq!(
        CaltrainStatus::from_events(&events),
        Err(Error::InvalidIntError(NumberField::Identifier))
    );
    // In the second block.
    let mut events = vec![
        DomEvent::Open(class("ipf-st-ip-trains-subtable")),
        DomEvent::Open(class("ipf-st-ip-trains-subtable")),
    ];
    events.extend(event_row("5", "Express", "5"));
    assert_eq!(CaltrainStatus::from_events(&events), Err(Error::UnknownTrainType));
    // In a third block, behind good rows of the first two.
    let mut events = vec![DomEvent::Open(class("ipf-st-ip-trains-subtable"))];
    events.extend(event_row("1", "Local", "1"));
    events.push(DomEvent::Open(class("ipf-st-ip-trains-subtable")));
    events.extend(event_row("2", "Local", "2"));
    events.push(DomEvent::Open(class("ipf-st-ip-trains-subtable")));
    events.extend(event_row("y", "Bus", "70000 min"));
    assert_eq!(
        CaltrainStatus::from_events(&events),
        Err(Error::InvalidIntError(NumberField::Identifier))
    );
}

#[test]
fn from_html_fails_on_a_bad_row_without_any_marker() {
    let text = format!("<html><body><table>{}</table></body></html>", row("x", "Local", "5 min."));
    assert_eq!(
        CaltrainStatus::from_html(&text),
        Err(Error::InvalidIntError(NumberField::Identifier))
    );
}

#[test]
fn from_html_refuses_a_document_that_is_too_long() {
    assert_eq!(MAX_DOCUMENT_BYTES, 268_435_456);
    let text = String::from_utf8(vec![b' '; MAX_DOCUMENT_BYTES + 1]).unwrap();
    assert_eq!(CaltrainStatus::from_html(&text), Err(Error::HtmlError));
    assert_eq!(CaltrainStatus::from_bytes(text.as_bytes()), Err(Error::HtmlError));
}

#[test]
fn from_bytes_refuses_too_many_bytes_whatever_they_are() {
    let bytes = vec![0xffu8; MAX_DOCUMENT_BYTES + 1];
    assert_eq!(CaltrainStatus::from_bytes(&bytes), Err(Error::HtmlError));
}

#[test]
fn from_events_last_class_attribute_decides_the_field() {
    // Two class attributes on one element: each takes effect in turn.
    let events = vec![
        DomEvent::Open(class("ipf-st-ip-trains-subtable")),
        DomEvent::Open(vec![
            Attribute::new("class", "ipf-st-ip-trains-subtable-td-arrivaltime"),
            Attribute::new("class", "ipf-st-ip-trains-subtable-td-id"),
        ]),
        DomEvent::Text("12".to_string()),
        DomEvent::Close,
        DomEvent::Open(class("ipf-st-ip-trains-subtable-td-type")),
        DomEvent::Text("Local".to_string()),
        DomEvent::Close,
        DomEvent::Open(class("ipf-st-ip-trains-subtable-td-arrivaltime")),
        DomEvent::Text("3 min.".to_string()),
        DomEvent::Close,
    ];
    assert_eq!(
        CaltrainStatus::from_events(&events).unwrap(),
        CaltrainStatus::new(vec![], vec![train(12, TrainType::Local, 3)])
    );
}

#[test]
fn from_events_commits_only_when_an_element_closes() {
    // A later text of the same element replaces an earlier one.
    let events = vec![
        DomEvent::Open(class("ipf-st-ip-trains-subtable")),
        DomEvent::Open(class("ipf-st-ip-trains-subtable-td-id")),
        DomEvent::Text("1".to_string()),
        DomEvent::Text("2".to_string()),
        DomEvent::Close,
        DomEvent::Open(class("ipf-st-ip-trains-subtable-td-type")),
        DomEvent::Text("Limited".to_string()),
        DomEvent::Close,
        DomEvent::Open(class("ipf-st-ip-trains-subtable-td-arrivaltime")),
        DomEvent::Text("4".to_string()),
    ];
    // The last cell is never closed: its row stays incomplete.
    assert_eq!(CaltrainStatus::from_events(&events).unwrap(), CaltrainStatus::new(vec![], vec![]));
    let mut closed = events.clone();
    closed.push(DomEvent::Close);
    assert_eq!(
        CaltrainStatus::from_events(&closed).unwrap(),
        CaltrainStatus::new(vec![], vec![train(2, TrainType::Limited, 4)])
    );
}

#[test]
fn from_bytes_reads_utf8() {
    let text = two_block_page();
    assert_eq!(CaltrainStatus::from_bytes(text.as_bytes()), CaltrainStatus::from_html(&text));
    assert_eq!(
        CaltrainStatus::from_bytes(text.as_bytes()).unwrap().get_status().1[0],
        train(802, TrainType::BabyBullet, 6)
    );
    assert_eq!(CaltrainStatus::from_bytes(b"").unwrap(), CaltrainStatus::new(vec![], vec![]));
}

#[test]
fn from_bytes_refuses_bytes_that_are_no_utf8() {
    assert_eq!(CaltrainStatus::from_bytes(&[0x3c, 0x70, 0x3e, 0xff, 0xfe]), Err(Error::HtmlError));
    assert_eq!(CaltrainStatus::from_bytes(&[0xc3]), Err(Error::HtmlError));
    assert_eq!(CaltrainStatus::from_bytes(&[0xed, 0xa0, 0x80]), Err(Error::HtmlError));
    assert_eq!(CaltrainStatus::from_bytes(&[0xc0, 0xaf]), Err(Error::HtmlError));
}

#[test]
fn error_messages_differ() {
    let errors = [
        Error::HtmlError,
        Error::InvalidIntError(NumberField::Identifier),
        Error::InvalidIntError(NumberField::ArrivalTime),
        Error::UnknownTrainType,
    ];
    for (i, a) in errors.iter().enumerate() {
        assert!(!a.message().is_empty());
        for b in &errors[i + 1..] {
            assert_ne!(a.message(), b.message());
        }
    }
    assert_eq!(Error::HtmlError.message(), "the document is too long or is not UTF-8 text");
}

#[test]
fn make_incoming_train_reads_the_three_texts() {
    assert_eq!(
        make_incoming_train("802", "Baby Bullet", "6 min."),
        Ok(train(802, TrainType::BabyBullet, 6))
    );
    assert_eq!(
        make_incoming_train("+7", "a Limited train", "in 12 or 13 min"),
        Ok(train(7, TrainType::Limited, 12))
    );
    assert_eq!(make_incoming_train("0", "Local", "65535"), Ok(train(0, TrainType::Local, 65535)));
    assert_eq!(
        make_incoming_train("65535", "Local", "x007y8"),
        Ok(train(65535, TrainType::Local, 7))
    );
}

#[test]
fn make_incoming_train_sentinel() {
    assert_eq!(make_incoming_train("1", "Local", "Departed"), Ok(train(1, TrainType::Local, 9001)));
    assert_eq!(make_incoming_train("1", "Local", ""), Ok(train(1, TrainType::Local, 9001)));
    assert_eq!(
        make_incoming_train("1", "Local", "\u{0663} min"),
        Ok(train(1, TrainType::Local, 9001))
    );
}

#[test]
fn make_incoming_train_errors() {
    assert_eq!(
        make_incoming_train("", "Local", "1"),
        Err(Error::InvalidIntError(NumberField::Identifier))
    );
    assert_eq!(
        make_incoming_train(" 12", "Local", "1"),
        Err(Error::InvalidIntError(NumberField::Identifier))
    );
    assert_eq!(
        make_incoming_train("-1", "Nope", "1"),
        Err(Error::InvalidIntError(NumberField::Identifier))
    );
    assert_eq!(make_incoming_train("1", "local", "1"), Err(Error::UnknownTrainType));
    assert_eq!(make_incoming_train("1", "BabyBullet", "99999"), Err(Error::UnknownTrainType));
    assert_eq!(
        make_incoming_train("1", "Local", "65536"),
        Err(Error::InvalidIntError(NumberField::ArrivalTime))
    );
}

#[test]
fn train_type_from_label_priority() {
    assert_eq!(TrainType::from_label("Local"), Ok(TrainType::Local));
    assert_eq!(TrainType::from_label("Limited"), Ok(TrainType::Limited));
    assert_eq!(TrainType::from_label("Baby Bullet"), Ok(TrainType::BabyBullet));
    assert_eq!(TrainType::from_label("Baby Bullet Limited"), Ok(TrainType::Limited));
    assert_eq!(TrainType::from_label("Limited Local"), Ok(TrainType::Local));
    assert_eq!(TrainType::from_label("xxLocalxx"), Ok(TrainType::Local));
    assert_eq!(TrainType::from_label("BabyBullet"), Err(Error::UnknownTrainType));
    assert_eq!(TrainType::from_label(""), Err(Error::UnknownTrainType));
}

#[test]
fn train_type_label_round_trip() {
    for t in [TrainType::Local, TrainType::Limited, TrainType::BabyBullet] {
        assert_eq!(TrainType::from_label(t.label()), Ok(t));
    }
    assert_eq!(TrainType::BabyBullet.label(), "Baby Bullet");
}

#[test]
fn status_lists_by_direction() {
    let status = CaltrainStatus::new(
        vec![train(1, TrainType::Local, 10)],
        vec![train(2, TrainType::Limited, 20), train(3, TrainType::BabyBullet, 30)],
    );
    let (northbound, southbound) = status.get_status();
    assert_eq!(northbound, &[train(1, TrainType::Local, 10)][..]);
    assert_eq!(southbound.len(), 2);
    assert_eq!(status.trains(Direction::Northbound), northbound);
    assert_eq!(status.trains(Direction::Southbound), southbound);
    assert_eq!(southbound[1].get_id(), 3);
    assert_eq!(southbound[1].get_train_type(), TrainType::BabyBullet);
    assert_eq!(southbound[1].get_min_till_departure(), 30);
    assert_eq!(IncomingTrain::new(3, TrainType::BabyBullet, 30), southbound[1]);
}
