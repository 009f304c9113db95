//! The line format that describes a constellation: a header line, then one
//! line per relay point, `id,latitude,longitude,altitude`, and one line
//! `ROUTE,latitude,longitude,latitude,longitude` for the two ends of the
//! route. Fields are separated by commas. This module finds the fields; what
//! number a field spells is for the caller to read.

use vstd::prelude::*;

verus! {

/// The byte that separates fields.
pub const COMMA: u8 = 44;

/// The bytes `start..end` of a line.
#[derive(Clone, Copy, Debug, PartialEq, Eq, Structural)]
pub struct Field {
    pub start: usize,
    pub end: usize,
}

/// What one line of the description holds.
#[derive(Clone, Copy, Debug, PartialEq, Eq, Structural)]
pub enum Record {
    /// The first line: free text.
    Header,
    /// The two ends of the route.
    Route { start_latitude: Field, start_longitude: Field, end_latitude: Field, end_longitude: Field },
    /// A relay point.
    Relay { id: Field, latitude: Field, longitude: Field, altitude: Field },
}

/// The fields of a line: the stretches between its commas, in order. A line
/// without a comma is one field, and an empty stretch is a field too.
pub open spec fn fields_of(line: Seq<u8>) -> Seq<Field>
    decreases line.len(),
{
    if line.len() == 0 {
        seq![Field { start: 0, end: 0 }]
    } else {
        let before = fields_of(line.drop_last());
        if line.last() == COMMA {
            before.push(Field { start: line.len() as usize, end: line.len() as usize })
        } else {
            before.update(before.len() - 1, Field { start: before.last().start, end: line.len() as usize })
        }
    }
}

/// The line begins with the letters `ROUTE`.
pub open spec fn has_route_tag(line: Seq<u8>) -> bool {
    &&& line.len() >= 5
    &&& line[0] == 82
    &&& line[1] == 79
    &&& line[2] == 85
    &&& line[3] == 84
    &&& line[4] == 69
}

/// The record on line number `index` (from 0), or `None` where the line has
/// too few fields for its kind.
pub open spec fn record_of(index: int, line: Seq<u8>) -> Option<Record> {
    let fields = fields_of(line);
    if index == 0 {
        Some(Record::Header)
    } else if has_route_tag(line) {
        if fields.len() >= 5 {
            Some(
                Record::Route {
                    start_latitude: fields[1],
                    start_longitude: fields[2],
                    end_latitude: fields[3],
                    end_longitude: fields[4],
                },
            )
        } else {
            None
        }
    } else if fields.len() >= 4 {
        Some(Record::Relay { id: fields[0], latitude: fields[1], longitude: fields[2], altitude: fields[3] })
    } else {
        None
    }
}

/// The fields tile the line: the first starts at its beginning, the last ends
/// at its end, a comma and nothing else stands between two neighbours, and no
/// field holds a comma.
pub proof fn lemma_fields_tile_line(line: Seq<u8>)
    requires
        line.len() <= usize::MAX,
    ensures
        fields_of(line).len() >= 1,
        fields_of(line)[0].start == 0,
        fields_of(line).last().end == line.len(),
        forall|i: int| 0 <= i < fields_of(line).len() ==> {
            let field = #[trigger] fields_of(line)[i];
            &&& field.start <= field.end <= line.len()
            &&& forall|at: int| field.start <= at < field.end ==> line[at] != COMMA
        },
        forall|i: int| 0 <= i < fields_of(line).len() - 1 ==> {
            let field = #[trigger] fields_of(line)[i];
            &&& line[field.end as int] == COMMA
            &&& fields_of(line)[i + 1].start == field.end + 1
        },
    decreases line.len(),
{
    if line.len() > 0 {
        let shorter = line.drop_last();
        lemma_fields_tile_line(shorter);
        let before = fields_of(shorter);
        let now = fields_of(line);
        assert forall|i: int| 0 <= i < now.len() implies {
            let field = #[trigger] now[i];
            &&& field.start <= field.end <= line.len()
            &&& forall|at: int| field.start <= at < field.end ==> line[at] != COMMA
        } by {
            if i < before.len() {
                let old_field = before[i];
                assert(forall|at: int| old_field.start <= at < old_field.end ==> shorter[at] != COMMA);
                assert(forall|at: int| 0 <= at < shorter.len() ==> shorter[at] == line[at]);
            }
        }
        assert forall|i: int| 0 <= i < now.len() - 1 implies {
            let field = #[trigger] now[i];
            &&& line[field.end as int] == COMMA
            &&& now[i + 1].start == field.end + 1
        } by {
            if i < before.len() - 1 {
                let old_field = before[i];
                assert(shorter[old_field.end as int] == COMMA);
                assert(before[i].end < shorter.len());
            }
        }
    }
}

/// Splits a line at its commas.
pub fn split_fields(line: &[u8]) -> (fields: Vec<Field>)
    ensures
        fields@ == fields_of(line@),
{
    let mut fields: Vec<Field> = Vec::new();
    let mut start: usize = 0;
    let mut at: usize = 0;
    while at < line.len()
        invariant
            0 <= start <= at <= line@.len(),
            fields@.push(Field { start, end: at }) == fields_of(line@.take(at as int)),
        decreases line@.len() - at,
    {
        proof {
            let longer = line@.take(at + 1);
            assert(longer.drop_last() =~= line@.take(at as int));
            assert(longer.last() == line@[at as int]);
        }
        if line[at] == COMMA {
            fields.push(Field { start, end: at });
            start = at + 1;
        }
        at += 1;
        assert(fields@.push(Field { start, end: at }) =~= fields_of(line@.take(at as int)));
    }
    fields.push(Field { start, end: at });
    assert(line@.take(at as int) =~= line@);
    fields
}

/// Whether the line begins with the letters `ROUTE`.
pub fn starts_with_route(line: &[u8]) -> (tagged: bool)
    ensures
        tagged == has_route_tag(line@),
{
    line.len() >= 5 && line[0] == 82 && line[1] == 79 && line[2] == 85 && line[3] == 84 && line[4] == 69
}

/// Reads line number `index` (from 0) of a description: the first line is the
/// header whatever it holds, a line that begins with `ROUTE` gives the route
/// from its second to fifth field, any other line a relay point from its
/// first four fields. Further fields are not part of the record. `None` means
/// that the line has too few fields.
pub fn parse_line(index: usize, line: &[u8]) -> (record: Option<Record>)
    ensures
        record == record_of(index as int, line@),
{
    if index == 0 {
        return Some(Record::Header);
    }
    let fields = split_fields(line);
    if starts_with_route(line) {
        if fields.len() >= 5 {
            Some(
                Record::Route {
                    start_latitude: fields[1],
                    start_longitude: fields[2],
                    end_latitude: fields[3],
                    end_longitude: fields[4],
                },
            )
        } else {
            None
        }
    } else if fields.len() >= 4 {
        Some(Record::Relay { id: fields[0], latitude: fields[1], longitude: fields[2], altitude: fields[3] })
    } else {
        None
    }
}

} // verus!
