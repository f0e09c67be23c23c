//! Queries: the fields of a request, and the kind of answer they ask for.
use vstd::prelude::*;

verus! {

/// What a query asks for.
#[derive(Clone, Copy, PartialEq, Eq, Structural, Debug)]
pub enum QueryMode {
    /// The names of the chromosomes that the store knows.
    Metadata,
    /// One aggregate value per window of an interval.
    Aggregate,
}

/// The fields of a request as they arrive. None of them is checked here: a
/// field that the request leaves out has the value that [`Default`] gives
/// it, and an interval that makes no sense is answered without windows.
#[derive(PartialEq, Eq, Debug)]
pub struct QueryFields {
    /// The request class; the token `header` asks for metadata.
    pub class: String,
    /// The chromosome's name.
    pub chr: String,
    /// The first position of the interval.
    pub start: i64,
    /// The position after the last one of the interval.
    pub end: i64,
}

/// A classified query.
#[derive(PartialEq, Eq, Debug)]
pub struct RangeQuery {
    pub mode: QueryMode,
    pub chromosome: String,
    pub start: i64,
    pub end: i64,
}

/// What a [`RangeQuery`] stands for in contracts.
pub struct RangeQueryView {
    pub mode: QueryMode,
    pub chromosome: Seq<char>,
    pub start: int,
    pub end: int,
}

impl View for RangeQuery {
    type V = RangeQueryView;

    open spec fn view(&self) -> RangeQueryView {
        RangeQueryView {
            mode: self.mode,
            chromosome: self.chromosome@,
            start: self.start as int,
            end: self.end as int,
        }
    }
}

/// The class that asks for metadata: the six characters of `header`.
pub open spec fn header_token() -> Seq<char> {
    seq!['h', 'e', 'a', 'd', 'e', 'r']
}

/// The mode that a request class selects: metadata for the token `header`,
/// compared exactly, and an aggregate for every other class.
pub open spec fn mode_of(class: Seq<char>) -> QueryMode {
    if class == header_token() {
        QueryMode::Metadata
    } else {
        QueryMode::Aggregate
    }
}

impl Default for QueryFields {
    /// The fields of a request that names none: empty class, empty
    /// chromosome, and the interval `[0, 0)`.
    fn default() -> (fields: Self)
        ensures
            fields.class@ == Seq::<char>::empty(),
            fields.chr@ == Seq::<char>::empty(),
            fields.start == 0,
            fields.end == 0,
    {
        QueryFields { class: String::new(), chr: String::new(), start: 0, end: 0 }
    }
}

/// Tells which mode a request class selects.
pub fn classify(class: &String) -> (mode: QueryMode)
    ensures
        mode == mode_of(class@),
{
    let token = "header".to_owned();
    proof {
        reveal_strlit("header");
        assert(token@ =~= header_token());
    }
    if *class == token {
        QueryMode::Metadata
    } else {
        QueryMode::Aggregate
    }
}

impl RangeQuery {
    /// Classifies a request. The chromosome and the interval are taken over
    /// as they are, whatever the mode.
    pub fn from_fields(fields: QueryFields) -> (query: RangeQuery)
        ensures
            query@ == (RangeQueryView {
                mode: mode_of(fields.class@),
                chromosome: fields.chr@,
                start: fields.start as int,
                end: fields.end as int,
            }),
    {
        let mode = classify(&fields.class);
        RangeQuery { mode, chromosome: fields.chr, start: fields.start, end: fields.end }
    }
}

} // verus!
