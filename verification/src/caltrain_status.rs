//! The records that an extraction yields: trains, the two directions and
//! the snapshot that holds one list of incoming trains for each.

use vstd::prelude::*;

use crate::text::{contains_text, str_contains};

verus! {

/// The service pattern of a train.
#[derive(Clone, Copy, PartialOrd, Ord, PartialEq, Eq, Structural, Debug)]
pub enum TrainType {
    Local,
    Limited,
    BabyBullet,
}

/// The number in a row that could not be read.
#[derive(Clone, Copy, PartialEq, Eq, Structural, Debug)]
pub enum NumberField {
    /// The train's identifier.
    Identifier,
    /// The digits of the arrival-time label.
    ArrivalTime,
}

/// Why an extraction gave no snapshot.
#[derive(Clone, Copy, PartialEq, Eq, Structural, Debug)]
pub enum Error {
    /// The document cannot be read: it is too long to parse, or is not
    /// UTF-8 text.
    HtmlError,
    /// A number of a row is not an unsigned 16-bit decimal number.
    InvalidIntError(NumberField),
    /// A type label names none of the known train types.
    UnknownTrainType,
}

impl Error {
    /// The words that describe this error.
    pub open spec fn message_spec(self) -> Seq<char> {
        match self {
            Error::HtmlError => "the document is too long or is not UTF-8 text"@,
            Error::InvalidIntError(NumberField::Identifier) =>
                "a train identifier is not a number below 65536"@,
            Error::InvalidIntError(NumberField::ArrivalTime) =>
                "an arrival time is not a number below 65536"@,
            Error::UnknownTrainType => "a type label names no known train type"@,
        }
    }

    /// The words that describe this error.
    pub fn message(&self) -> (r: &'static str)
        ensures
            r@ == self.message_spec(),
    {
        match self {
            Error::HtmlError => "the document is too long or is not UTF-8 text",
            Error::InvalidIntError(NumberField::Identifier) => {
                "a train identifier is not a number below 65536"
            },
            Error::InvalidIntError(NumberField::ArrivalTime) => {
                "an arrival time is not a number below 65536"
            },
            Error::UnknownTrainType => "a type label names no known train type",
        }
    }
}

/// The train type that a label names: the first of "Local", "Limited" and
/// "Baby Bullet", in this order, that stands somewhere in the label.
pub open spec fn classify(label: Seq<char>) -> Option<TrainType> {
    if contains_text(label, "Local"@) {
        Some(TrainType::Local)
    } else if contains_text(label, "Limited"@) {
        Some(TrainType::Limited)
    } else if contains_text(label, "Baby Bullet"@) {
        Some(TrainType::BabyBullet)
    } else {
        None
    }
}

impl TrainType {
    /// The words by which this type is shown.
    pub open spec fn label_spec(self) -> Seq<char> {
        match self {
            TrainType::Local => "Local"@,
            TrainType::Limited => "Limited"@,
            TrainType::BabyBullet => "Baby Bullet"@,
        }
    }

    /// Classifies a type label. An unknown label is an error, never a
    /// default type.
    pub fn from_label(label: &str) -> (r: Result<TrainType, Error>)
        ensures
            r == match classify(label@) {
                Some(t) => Ok::<TrainType, Error>(t),
                None => Err::<TrainType, Error>(Error::UnknownTrainType),
            },
    {
        if str_contains(label, "Local") {
            Ok(TrainType::Local)
        } else if str_contains(label, "Limited") {
            Ok(TrainType::Limited)
        } else if str_contains(label, "Baby Bullet") {
            Ok(TrainType::BabyBullet)
        } else {
            Err(Error::UnknownTrainType)
        }
    }

    /// The words by which this type is shown.
    pub fn label(&self) -> (r: &'static str)
        ensures
            r@ == self.label_spec(),
    {
        match self {
            TrainType::Local => "Local",
            TrainType::Limited => "Limited",
            TrainType::BabyBullet => "Baby Bullet",
        }
    }
}

/// One train that is due at the station.
#[derive(Clone, Copy, PartialEq, Eq, Structural, Debug)]
pub struct IncomingTrain {
    /// The number by which the train is known.
    pub id: u16,
    /// The service pattern of the train.
    pub ttype: TrainType,
    /// The minutes till the train departs; 9001 where none are known.
    pub min_till_departure: u16,
}

impl IncomingTrain {
    /// The train of the identifier, the type and the minutes given.
    pub fn new(id: u16, ttype: TrainType, min_till_arrival: u16) -> (t: IncomingTrain)
        ensures
            t == (IncomingTrain { id, ttype, min_till_departure: min_till_arrival }),
    {
        IncomingTrain { id, ttype, min_till_departure: min_till_arrival }
    }

    /// The number by which the train is known.
    pub fn get_id(&self) -> (id: u16)
        ensures
            id == self.id,
    {
        self.id
    }

    /// The service pattern of the train.
    pub fn get_train_type(&self) -> (ttype: TrainType)
        ensures
            ttype == self.ttype,
    {
        self.ttype
    }

    /// The minutes till the train departs, or 9001 where the page gave
    /// no countdown.
    pub fn get_min_till_departure(&self) -> (minutes: u16)
        ensures
            minutes == self.min_till_departure,
    {
        self.min_till_departure
    }
}

/// The direction in which a train runs.
#[derive(Clone, Copy, PartialOrd, Ord, PartialEq, Eq, Structural, Debug)]
pub enum Direction {
    Northbound,
    Southbound,
}

/// What a snapshot holds: the incoming trains of each direction, in the
/// order of their rows on the page.
pub struct StatusView {
    pub northbound: Seq<IncomingTrain>,
    pub southbound: Seq<IncomingTrain>,
}

/// The incoming trains of a station at one moment.
#[derive(Clone, PartialEq, Eq, Debug)]
pub struct CaltrainStatus {
    northbound: Vec<IncomingTrain>,
    southbound: Vec<IncomingTrain>,
}

impl View for CaltrainStatus {
    type V = StatusView;

    closed spec fn view(&self) -> StatusView {
        StatusView { northbound: self.northbound@, southbound: self.southbound@ }
    }
}

impl CaltrainStatus {
    /// A snapshot of the two lists given.
    pub fn new(northbound: Vec<IncomingTrain>, southbound: Vec<IncomingTrain>) -> (status:
        CaltrainStatus)
        ensures
            status@.northbound == northbound@,
            status@.southbound == southbound@,
    {
        CaltrainStatus { northbound, southbound }
    }

    /// The northbound trains, then the southbound trains.
    pub fn get_status(&self) -> (lists: (&[IncomingTrain], &[IncomingTrain]))
        ensures
            lists.0@ == self@.northbound,
            lists.1@ == self@.southbound,
    {
        (self.northbound.as_slice(), self.southbound.as_slice())
    }

    /// The trains that run in `direction`.
    pub fn trains(&self, direction: Direction) -> (list: &[IncomingTrain])
        ensures
            list@ == match direction {
                Direction::Northbound => self@.northbound,
                Direction::Southbound => self@.southbound,
            },
    {
        match direction {
            Direction::Northbound => self.northbound.as_slice(),
            Direction::Southbound => self.southbound.as_slice(),
        }
    }
}

} // verus!
