//! The extraction itself: the walk over the events of a document, the
//! record builder, and the entry points that give a snapshot.

use vstd::prelude::*;
use vstd::string::StringSliceAdditionalSpecFns;
use vstd::utf8::{decode_utf8, encode_utf8, encode_utf8_decode_utf8, valid_utf8};

use crate::caltrain_status::{CaltrainStatus, Error, IncomingTrain, NumberField, StatusView, TrainType};
use crate::dom::{
    document_events, events_view, parse_document, Attribute, DomEvent, MAX_DOCUMENT_BYTES,
};
use crate::laws::{lemma_assemble_error_stays, lemma_run_keeps_rows};
use crate::text::{chars_of, ends_with, first_digit_run, str_equal, str_parse_u16};
use crate::walk::{
    assemble, build_train, commit, complete_row, extract, initial, mark_class, open_element,
    row_ready, run, staged_row, step, FieldClass, Walk, NO_COUNTDOWN,
};

verus! {

/// Searches `text` with `regex::Regex::find`, for the one pattern that
/// `requires` admits, and hands back the piece that matched. The contract
/// says what the crate documents of a search for `[0-9]+`: the leftmost
/// match is found, and it reaches as far as digits follow one another.
#[verifier::external_body]
fn regex_find(pattern: &str, text: &str) -> (found: Option<String>)
    requires
        pattern@ == "[0-9]+"@,
    ensures
        match found {
            Some(digits) => first_digit_run(text@) == Some(digits@),
            None => first_digit_run(text@) is None,
        },
{
    match regex::Regex::new(pattern) {
        Ok(re) => re.find(text).map(|m| m.as_str().to_string()),
        Err(_) => None,
    }
}

/// Reads bytes as text with `std::str::from_utf8`: there is a text
/// exactly where the bytes are well-formed UTF-8, and it is made of those
/// bytes.
#[verifier::external_body]
fn utf8_text(bytes: &[u8]) -> (text: Option<&str>)
    ensures
        match text {
            Some(t) => valid_utf8(bytes@) && t.spec_bytes() == bytes@,
            None => !valid_utf8(bytes@),
        },
{
    std::str::from_utf8(bytes).ok()
}

/// Builds the train that the three texts of a row describe.
pub fn make_incoming_train(tid: &str, ttype: &str, tta: &str) -> (r: Result<IncomingTrain, Error>)
    ensures
        r == build_train(tid@, ttype@, tta@),
{
    let id: u16 = match str_parse_u16(tid) {
        Some(id) => id,
        None => {
            return Err(Error::InvalidIntError(NumberField::Identifier));
        },
    };
    let ttype = match TrainType::from_label(ttype) {
        Ok(ttype) => ttype,
        Err(e) => {
            return Err(e);
        },
    };
    let min_till_arrival: u16 = match regex_find("[0-9]+", tta) {
        Some(digits) => match str_parse_u16(digits.as_str()) {
            Some(minutes) => minutes,
            None => {
                return Err(Error::InvalidIntError(NumberField::ArrivalTime));
            },
        },
        None => NO_COUNTDOWN,
    };
    Ok(IncomingTrain::new(id, ttype, min_till_arrival))
}

/// What an extraction gave, with the snapshot as the lists that it holds.
pub open spec fn outcome(r: Result<CaltrainStatus, Error>) -> Result<StatusView, Error> {
    match r {
        Ok(status) => Ok(status@),
        Err(e) => Err(e),
    }
}

/// What the text of a document gives: the snapshot of the events that it
/// parses to, or a document-level failure where it is too long to parse.
pub open spec fn html_outcome(text: Seq<char>) -> Result<StatusView, Error> {
    if encode_utf8(text).len() <= MAX_DOCUMENT_BYTES {
        extract(document_events(text))
    } else {
        Err(Error::HtmlError)
    }
}

/// What the bytes of a document give: a document-level failure where they
/// are too many or are no UTF-8 text, and else what their text gives.
pub open spec fn bytes_outcome(bytes: Seq<u8>) -> Result<StatusView, Error> {
    if bytes.len() <= MAX_DOCUMENT_BYTES && valid_utf8(bytes) {
        extract(document_events(decode_utf8(bytes)))
    } else {
        Err(Error::HtmlError)
    }
}

/// The characters of a text that may be absent.
spec fn text_view(text: Option<&str>) -> Option<Seq<char>> {
    match text {
        Some(t) => Some(t@),
        None => None,
    }
}

/// The accumulator of a walk. The block counter stops at three: only the
/// first two blocks are told apart from the rest.
struct WalkerState<'a> {
    train_id: Option<&'a str>,
    train_type: Option<&'a str>,
    time_till_departure: Option<&'a str>,
    last_text: Option<&'a str>,
    current_table_no: u8,
    last_read_class: Option<FieldClass>,
    northbound: Vec<IncomingTrain>,
    southbound: Vec<IncomingTrain>,
}

impl<'a> WalkerState<'a> {
    /// The lists gathered so far.
    spec fn status(&self) -> StatusView {
        StatusView { northbound: self.northbound@, southbound: self.southbound@ }
    }

    /// Whether this accumulator stands for the state `w`, with the trains
    /// of all rows of `w` built and routed.
    spec fn follows(&self, w: Walk) -> bool {
        &&& self.current_table_no == if w.table < 3 {
            w.table
        } else {
            3
        }
        &&& self.last_read_class == w.pending
        &&& text_view(self.last_text) == w.last_text
        &&& text_view(self.train_id) == w.staged_id
        &&& text_view(self.train_type) == w.staged_type
        &&& text_view(self.time_till_departure) == w.staged_time
        &&& assemble(w.rows) == Ok::<StatusView, Error>(self.status())
    }

    fn new() -> (state: WalkerState<'a>)
        ensures
            state.follows(initial()),
    {
        WalkerState {
            train_id: None,
            train_type: None,
            time_till_departure: None,
            last_text: None,
            current_table_no: 0,
            last_read_class: None,
            northbound: Vec::new(),
            southbound: Vec::new(),
        }
    }

    /// Applies the markers that a class value ends with.
    fn mark_class(&mut self, value: &str, Ghost(w): Ghost<Walk>)
        requires
            old(self).follows(w),
        ensures
            final(self).follows(mark_class(w, value@)),
    {
        let text = chars_of(value);
        let subtable = chars_of("ipf-st-ip-trains-subtable");
        let id = chars_of("ipf-st-ip-trains-subtable-td-id");
        let ttype = chars_of("ipf-st-ip-trains-subtable-td-type");
        let arrival = chars_of("ipf-st-ip-trains-subtable-td-arrivaltime");
        if ends_with(text.as_slice(), subtable.as_slice()) {
            if self.current_table_no < 3 {
                self.current_table_no = self.current_table_no + 1;
            }
        }
        if ends_with(text.as_slice(), id.as_slice()) {
            self.last_read_class = Some(FieldClass::Identifier);
        }
        if ends_with(text.as_slice(), ttype.as_slice()) {
            self.last_read_class = Some(FieldClass::Type);
        }
        if ends_with(text.as_slice(), arrival.as_slice()) {
            self.last_read_class = Some(FieldClass::ArrivalTime);
        }
    }

    /// Applies the attributes of an element that opens.
    fn open_element(&mut self, attrs: &Vec<Attribute>, Ghost(w): Ghost<Walk>)
        requires
            old(self).follows(w),
        ensures
            final(self).follows(open_element(w, attrs@.map_values(|a: Attribute| a@))),
    {
        let ghost views = attrs@.map_values(|a: Attribute| a@);
        let mut i: usize = 0;
        while i < attrs.len()
            invariant
                i <= attrs@.len(),
                views == attrs@.map_values(|a: Attribute| a@),
                self.follows(open_element(w, views.take(i as int))),
            decreases attrs@.len() - i,
        {
            let ghost before = open_element(w, views.take(i as int));
            proof {
                assert(views.take(i + 1).drop_last() =~= views.take(i as int));
                assert(views.take(i + 1).last() == attrs@[i as int]@);
            }
            let attr = &attrs[i];
            if str_equal(attr.name.as_str(), "class") {
                self.mark_class(attr.value.as_str(), Ghost(before));
            }
            i = i + 1;
        }
        proof {
            assert(views.take(i as int) =~= views);
        }
    }

    /// Stages the last text for the pending field, where both are there.
    fn commit(&mut self, Ghost(w): Ghost<Walk>)
        requires
            old(self).follows(w),
        ensures
            final(self).follows(commit(w)),
    {
        match (self.last_read_class, self.last_text) {
            (Some(class), Some(text)) => {
                match class {
                    FieldClass::Identifier => {
                        self.train_id = Some(text);
                    },
                    FieldClass::Type => {
                        self.train_type = Some(text);
                    },
                    FieldClass::ArrivalTime => {
                        self.time_till_departure = Some(text);
                    },
                }
                self.last_read_class = None;
                self.last_text = None;
            },
            _ => {},
        }
    }

    /// Builds the train of a row whose three texts are staged, and then
    /// routes it by the block that the walk is in.
    fn complete_row(&mut self, Ghost(w): Ghost<Walk>) -> (r: Result<(), Error>)
        requires
            old(self).follows(w),
        ensures
            match r {
                Ok(_) => final(self).follows(complete_row(w)),
                Err(e) => assemble(complete_row(w).rows) == Err::<StatusView, Error>(e),
            },
    {
        match (self.train_id, self.train_type, self.time_till_departure) {
            (Some(tid), Some(ttype), Some(tta)) => {
                proof {
                    assert(row_ready(w));
                    assert(complete_row(w).rows.drop_last() =~= w.rows);
                    assert(complete_row(w).rows.last() == staged_row(w));
                }
                let train = match make_incoming_train(tid, ttype, tta) {
                    Ok(train) => train,
                    Err(e) => {
                        return Err(e);
                    },
                };
                if self.current_table_no == 1 {
                    self.southbound.push(train);
                }
                if self.current_table_no == 2 {
                    self.northbound.push(train);
                }
                self.train_id = None;
                self.train_type = None;
                self.time_till_departure = None;
                Ok(())
            },
            _ => Ok(()),
        }
    }

    /// Takes one event.
    fn step(&mut self, event: &'a DomEvent, Ghost(w): Ghost<Walk>) -> (r: Result<(), Error>)
        requires
            old(self).follows(w),
        ensures
            match r {
                Ok(_) => final(self).follows(step(w, event@)),
                Err(e) => assemble(step(w, event@).rows) == Err::<StatusView, Error>(e),
            },
    {
        match event {
            DomEvent::Open(attrs) => {
                self.open_element(attrs, Ghost(w));
                Ok(())
            },
            DomEvent::Text(text) => {
                self.last_text = Some(text.as_str());
                Ok(())
            },
            DomEvent::Close => {
                self.commit(Ghost(w));
                self.complete_row(Ghost(commit(w)))
            },
            DomEvent::Other => Ok(()),
        }
    }
}

impl CaltrainStatus {
    /// Walks the events of a document and gives its snapshot. The first
    /// row that describes no train ends the walk with that row's error.
    pub fn from_events(events: &[DomEvent]) -> (r: Result<CaltrainStatus, Error>)
        ensures
            outcome(r) == extract(events_view(events@)),
    {
        let ghost views = events_view(events@);
        let mut state = WalkerState::new();
        let mut i: usize = 0;
        proof {
            assert(views.take(0) =~= Seq::empty());
        }
        while i < events.len()
            invariant
                i <= events@.len(),
                views == events_view(events@),
                state.follows(run(initial(), views.take(i as int))),
            decreases events@.len() - i,
        {
            let ghost before = run(initial(), views.take(i as int));
            proof {
                assert(views.take(i + 1).drop_last() =~= views.take(i as int));
                assert(views.take(i + 1).last() == events@[i as int]@);
            }
            match state.step(&events[i], Ghost(before)) {
                Ok(_) => {},
                Err(e) => {
                    proof {
                        let failed = run(initial(), views.take(i + 1)).rows;
                        let all = run(initial(), views).rows;
                        lemma_run_keeps_rows(initial(), views, i + 1);
                        assert(all.take(failed.len() as int) =~= failed);
                        lemma_assemble_error_stays(all, failed.len() as int);
                    }
                    return Err(e);
                },
            }
            i = i + 1;
        }
        proof {
            assert(views.take(i as int) =~= views);
        }
        Ok(CaltrainStatus::new(state.northbound, state.southbound))
    }

    /// Reads `bytes` as a UTF-8 HTML document and gives its snapshot.
    /// Bytes that are too many, or are no UTF-8 text, are refused before
    /// anything is parsed.
    pub fn from_bytes(bytes: &[u8]) -> (r: Result<CaltrainStatus, Error>)
        ensures
            outcome(r) == bytes_outcome(bytes@),
    {
        if bytes.len() > MAX_DOCUMENT_BYTES {
            return Err(Error::HtmlError);
        }
        match utf8_text(bytes) {
            Some(text) => {
                proof {
                    encode_utf8_decode_utf8(text@);
                }
                CaltrainStatus::from_html(text)
            },
            None => Err(Error::HtmlError),
        }
    }

    /// Parses `text` as an HTML document and gives its snapshot. A text
    /// of more than `MAX_DOCUMENT_BYTES` bytes is refused unparsed.
    pub fn from_html(text: &str) -> (r: Result<CaltrainStatus, Error>)
        ensures
            outcome(r) == html_outcome(text@),
    {
        if text.as_bytes().len() > MAX_DOCUMENT_BYTES {
            return Err(Error::HtmlError);
        }
        let events = parse_document(text);
        CaltrainStatus::from_events(events.as_slice())
    }
}

} // verus!
