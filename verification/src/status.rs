use vstd::prelude::*;

verus! {

/// The traffic-light state of a training record: current, due soon, or
/// overdue. Records carry the status in its wire form (a plain string, see
/// [`Status::to_api_string`]); this type gives clients the closed set of
/// meaningful values.
#[derive(Clone, Copy, PartialEq, Eq, Structural, Debug)]
pub enum Status {
    Gruen,
    Gelb,
    Rot,
}

impl Status {
    /// The human-readable label of the status.
    pub fn to_string(&self) -> (r: &'static str)
        ensures
            *self == Status::Gruen ==> r@ == "Aktuell"@,
            *self == Status::Gelb ==> r@ == "Bald fällig"@,
            *self == Status::Rot ==> r@ == "Überfällig"@,
    {
        match self {
            Status::Gruen => "Aktuell",
            Status::Gelb => "Bald fällig",
            Status::Rot => "Überfällig",
        }
    }

    /// The wire form of the status, as stored in a record's `status` field.
    pub fn to_api_string(&self) -> (r: &'static str)
        ensures
            *self == Status::Gruen ==> r@ == "gruen"@,
            *self == Status::Gelb ==> r@ == "gelb"@,
            *self == Status::Rot ==> r@ == "rot"@,
    {
        match self {
            Status::Gruen => "gruen",
            Status::Gelb => "gelb",
            Status::Rot => "rot",
        }
    }
}

} // verus!
