//! The layout of an IPFIX message, and the decoding of its data records
//! with a template's fields.
//!
//! A message is a 16-byte header followed by sets; a set is a 4-byte set
//! header followed by records. All integers are in network byte order.

use vstd::prelude::*;
use crate::bytes::{counter_value, read_counter, read_u16, read_u32, u16_at, u32_at};
use crate::message::{
    element_name, views, Counter, CounterView, FieldSpec, FieldSpecView, RecordView,
    StatisticsRecord, VARIABLE_LENGTH,
};
use crate::template::{Template, TemplateView};

verus! {

/// Length of the message header in bytes.
pub const HEADER_LENGTH: usize = 16;

/// Length of a set header in bytes.
pub const SET_HEADER_LENGTH: usize = 4;

/// The set id of a Template Set.
pub const TEMPLATE_SET_ID: u16 = 2;

/// The set id of an Options Template Set.
pub const OPTIONS_TEMPLATE_SET_ID: u16 = 3;

/// Whether a set of this id holds template records. A set of any other id
/// is a Data Set that is bound to that id as its template id.
pub open spec fn is_template_set(set_id: u16) -> bool {
    set_id == TEMPLATE_SET_ID || set_id == OPTIONS_TEMPLATE_SET_ID
}

/// The number of bytes of a template record before its field specifiers:
/// the template id and the field count, and in an Options Template Set the
/// count of the scope fields too. The scope fields are the first of the
/// fields.
pub open spec fn record_lead(set_id: u16) -> int {
    if set_id == OPTIONS_TEMPLATE_SET_ID {
        6
    } else {
        4
    }
}

/// The fixed header of a message.
#[derive(Clone, Copy, Debug, PartialEq, Eq)]
pub struct MessageHeader {
    pub version: u16,
    pub length: u16,
    pub export_time: u32,
    pub sequence_number: u32,
    pub observation_domain: u32,
}

/// Whether `buf` holds a whole header whose length field is the size of
/// `buf`.
pub open spec fn header_consistent(buf: Seq<u8>) -> bool {
    buf.len() >= HEADER_LENGTH && u16_at(buf, 2) == buf.len()
}

/// The header that the first 16 bytes of `buf` spell.
pub open spec fn header_of(buf: Seq<u8>) -> MessageHeader {
    MessageHeader {
        version: u16_at(buf, 0),
        length: u16_at(buf, 2),
        export_time: u32_at(buf, 4),
        sequence_number: u32_at(buf, 8),
        observation_domain: u32_at(buf, 12),
    }
}

/// Reads the header of the message in `buf`. There is none where `buf` is
/// shorter than a header or the header's length field is not the size of
/// `buf`.
pub fn parse_header(buf: &[u8]) -> (header: Option<MessageHeader>)
    ensures
        header == if header_consistent(buf@) {
            Some(header_of(buf@))
        } else {
            None
        },
{
    if buf.len() < HEADER_LENGTH {
        return None;
    }
    let length = read_u16(buf, 2);
    if length as usize != buf.len() {
        return None;
    }
    Some(
        MessageHeader {
            version: read_u16(buf, 0),
            length,
            export_time: read_u32(buf, 4),
            sequence_number: read_u32(buf, 8),
            observation_domain: read_u32(buf, 12),
        },
    )
}

/// Where the value of the field that starts at `pos` lies, as (first byte,
/// byte after the last); `None` where the field does not end by `end`.
///
/// A field of fixed length is its value. A field of variable length starts
/// with its length: one byte below 255, or the byte 255 and the length in
/// the two bytes after it.
pub open spec fn field_span(buf: Seq<u8>, pos: int, end: int, byte_length: u16) -> Option<
    (int, int),
> {
    if byte_length != VARIABLE_LENGTH {
        if pos + byte_length <= end {
            Some((pos, pos + byte_length))
        } else {
            None
        }
    } else if pos + 1 > end {
        None
    } else if buf[pos] < 255 {
        if pos + 1 + buf[pos] <= end {
            Some((pos + 1, pos + 1 + buf[pos]))
        } else {
            None
        }
    } else if pos + 3 > end {
        None
    } else if pos + 3 + u16_at(buf, pos + 1) <= end {
        Some((pos + 3, pos + 3 + u16_at(buf, pos + 1)))
    } else {
        None
    }
}

/// The counters of `fields[from..]` decoded from the bytes at `pos`, and
/// the position after the last of them; `None` where the bytes before `end`
/// are too few for the fields.
pub open spec fn counters_from(
    buf: Seq<u8>,
    pos: int,
    end: int,
    fields: Seq<FieldSpecView>,
    from: int,
) -> Option<(Seq<CounterView>, int)>
    decreases fields.len() - from,
{
    if from < 0 || from >= fields.len() {
        Some((Seq::empty(), pos))
    } else {
        match field_span(buf, pos, end, fields[from].byte_length) {
            None => None,
            Some((start, stop)) => match counters_from(buf, stop, end, fields, from + 1) {
                None => None,
                Some((rest, next)) => Some(
                    (
                        seq![
                            CounterView {
                                name: fields[from].sai_counter_name,
                                value: counter_value(buf, start, stop),
                            },
                        ] + rest,
                        next,
                    ),
                ),
            },
        }
    }
}

/// The data record at `pos` decoded with `fields`: one counter per field,
/// in the fields' order, and the position after the record.
pub open spec fn record_at(buf: Seq<u8>, pos: int, end: int, fields: Seq<FieldSpecView>) -> Option<
    (Seq<CounterView>, int),
> {
    counters_from(buf, pos, end, fields, 0)
}

/// `decoded` with `prefix` put before its counters.
pub open spec fn after_prefix(
    prefix: Seq<CounterView>,
    decoded: Option<(Seq<CounterView>, int)>,
) -> Option<(Seq<CounterView>, int)> {
    match decoded {
        None => None,
        Some((rest, next)) => Some((prefix + rest, next)),
    }
}

/// A decoded record ends between its start and `end`, and holds one
/// counter per field, under the field's name and in the fields' order.
pub proof fn lemma_counters_advance(
    buf: Seq<u8>,
    pos: int,
    end: int,
    fields: Seq<FieldSpecView>,
    from: int,
)
    requires
        pos <= end,
    ensures
        counters_from(buf, pos, end, fields, from) matches Some((counters, next)) ==> pos <= next
            <= end && counters.len() == (if 0 <= from <= fields.len() {
            fields.len() - from
        } else {
            0
        }) && forall|i: int|
            0 <= i < counters.len() ==> (#[trigger] counters[i]).name == fields[from
                + i].sai_counter_name,
    decreases fields.len() - from,
{
    if 0 <= from < fields.len() {
        match field_span(buf, pos, end, fields[from].byte_length) {
            None => {},
            Some((start, stop)) => {
                lemma_counters_advance(buf, stop, end, fields, from + 1);
                match counters_from(buf, stop, end, fields, from + 1) {
                    None => {},
                    Some((rest, next)) => {
                        let whole = counters_from(buf, pos, end, fields, from)->0;
                        let counters = whole.0;
                        assert forall|i: int| 0 <= i < counters.len() implies (
                        #[trigger] counters[i]).name == fields[from + i].sai_counter_name by {
                            if i > 0 {
                                assert(counters[i] == rest[i - 1]);
                            }
                        }
                    },
                }
            },
        }
    }
}

/// Whether no field of `fields` is of variable length.
pub open spec fn all_fixed(fields: Seq<FieldSpecView>) -> bool {
    forall|i: int| 0 <= i < fields.len() ==> (#[trigger] fields[i]).byte_length != VARIABLE_LENGTH
}

/// The sum of the lengths of `fields[from..]`.
pub open spec fn fixed_length(fields: Seq<FieldSpecView>, from: int) -> int
    decreases fields.len() - from,
{
    if from < 0 || from >= fields.len() {
        0
    } else {
        fields[from].byte_length + fixed_length(fields, from + 1)
    }
}

/// The sum of field lengths is not negative.
pub proof fn lemma_fixed_length_is_natural(fields: Seq<FieldSpecView>, from: int)
    ensures
        fixed_length(fields, from) >= 0,
    decreases fields.len() - from,
{
    if 0 <= from < fields.len() {
        lemma_fixed_length_is_natural(fields, from + 1);
    }
}

/// With fields of fixed length, a record is decoded exactly where the bytes
/// before `end` are at least the sum of the field lengths, and it takes
/// that many bytes.
pub proof fn lemma_fixed_record_length(
    buf: Seq<u8>,
    pos: int,
    end: int,
    fields: Seq<FieldSpecView>,
    from: int,
)
    requires
        all_fixed(fields),
        0 <= from <= fields.len(),
        pos <= end,
    ensures
        match counters_from(buf, pos, end, fields, from) {
            Some((counters, next)) => pos + fixed_length(fields, from) <= end && next == pos
                + fixed_length(fields, from),
            None => pos + fixed_length(fields, from) > end,
        },
    decreases fields.len() - from,
{
    if from < fields.len() {
        let length = fields[from].byte_length;
        lemma_fixed_length_is_natural(fields, from + 1);
        if pos + length <= end {
            lemma_fixed_record_length(buf, pos + length, end, fields, from + 1);
        }
    }
}

/// A truncated record is dropped: where the body of a Data Set is shorter
/// than the sum of the field lengths of its template, no record is decoded
/// from it and the drop is told.
pub proof fn lemma_short_record_is_dropped(
    buf: Seq<u8>,
    pos: int,
    end: int,
    header: MessageHeader,
    template_id: u16,
    template: TemplateView,
)
    requires
        all_fixed(template.fields),
        pos < end,
        end - pos < fixed_length(template.fields, 0),
    ensures
        records_from(buf, pos, end, header, template_id, template) == (
            Seq::<RecordView>::empty(),
            true,
        ),
{
    lemma_fixed_record_length(buf, pos, end, template.fields, 0);
}

/// Finds the value of the field that starts at `pos`.
pub fn locate_field(buf: &[u8], pos: usize, end: usize, byte_length: u16) -> (span: Option<
    (usize, usize),
>)
    requires
        pos <= end <= buf@.len(),
    ensures
        match span {
            Some((start, stop)) => field_span(buf@, pos as int, end as int, byte_length) == Some(
                (start as int, stop as int),
            ) && pos <= start <= stop <= end,
            None => field_span(buf@, pos as int, end as int, byte_length).is_none(),
        },
{
    let room: usize = end - pos;
    if byte_length != VARIABLE_LENGTH {
        if byte_length as usize <= room {
            Some((pos, pos + byte_length as usize))
        } else {
            None
        }
    } else if room < 1 {
        None
    } else if buf[pos] < 255 {
        let length: usize = buf[pos] as usize;
        if length <= room - 1 {
            Some((pos + 1, pos + 1 + length))
        } else {
            None
        }
    } else if room < 3 {
        None
    } else {
        let length: usize = read_u16(buf, pos + 1) as usize;
        if length <= room - 3 {
            Some((pos + 3, pos + 3 + length))
        } else {
            None
        }
    }
}

/// Decodes the data record at `pos` with `fields`.
pub fn decode_record(buf: &[u8], pos: usize, end: usize, fields: &Vec<FieldSpec>) -> (decoded:
    Option<(Vec<Counter>, usize)>)
    requires
        pos <= end <= buf@.len(),
    ensures
        match decoded {
            Some((counters, next)) => record_at(buf@, pos as int, end as int, views(fields@))
                == Some((views(counters@), next as int)) && pos <= next <= end,
            None => record_at(buf@, pos as int, end as int, views(fields@)).is_none(),
        },
{
    let mut counters: Vec<Counter> = Vec::new();
    let mut at: usize = pos;
    let mut i: usize = 0;
    proof {
        let whole = record_at(buf@, pos as int, end as int, views(fields@));
        assert(after_prefix(views(counters@), whole) == whole) by {
            if whole is Some {
                let decoded = whole->0;
                assert(views(counters@) + decoded.0 =~= decoded.0);
            }
        }
    }
    while i < fields.len()
        invariant
            i <= fields@.len(),
            pos <= at <= end <= buf@.len(),
            record_at(buf@, pos as int, end as int, views(fields@)) == after_prefix(
                views(counters@),
                counters_from(buf@, at as int, end as int, views(fields@), i as int),
            ),
        decreases fields@.len() - i,
    {
        let field = &fields[i];
        match locate_field(buf, at, end, field.byte_length) {
            None => {
                return None;
            },
            Some((start, stop)) => {
                let value = read_counter(buf, start, stop);
                let ghost before = views(counters@);
                let counter = Counter { name: field.sai_counter_name.clone(), value };
                counters.push(counter);
                proof {
                    let rest = counters_from(
                        buf@,
                        stop as int,
                        end as int,
                        views(fields@),
                        i + 1,
                    );
                    assert(views(counters@) =~= before.push(counter@));
                    if rest is Some {
                        let tail = rest->0;
                        assert(before + (seq![counter@] + tail.0) =~= views(counters@) + tail.0);
                    }
                }
                at = stop;
                i += 1;
            },
        }
    }
    proof {
        assert(views(counters@) + Seq::<CounterView>::empty() =~= views(counters@));
    }
    Some((counters, at))
}

/// The record that `counters` make under a frame's header and a template.
pub open spec fn record_of(
    header: MessageHeader,
    template_id: u16,
    revision: u64,
    counters: Seq<CounterView>,
) -> RecordView {
    RecordView {
        observation_domain: header.observation_domain,
        template_id,
        template_revision: revision,
        export_time: header.export_time,
        sequence_number: header.sequence_number,
        counters,
    }
}

/// The records of the Data Set body `buf[pos..end]`, and whether the body
/// ends in bytes that are no whole record.
///
/// Records follow one another. Decoding stops at the end of the body, or at
/// the first position where the remaining bytes do not hold a record of
/// at least one byte: these bytes are dropped.
pub open spec fn records_from(
    buf: Seq<u8>,
    pos: int,
    end: int,
    header: MessageHeader,
    template_id: u16,
    template: TemplateView,
) -> (Seq<RecordView>, bool)
    decreases end - pos,
{
    if pos >= end {
        (Seq::empty(), false)
    } else {
        match record_at(buf, pos, end, template.fields) {
            None => (Seq::empty(), true),
            Some((counters, next)) => {
                if next <= pos {
                    (Seq::empty(), true)
                } else {
                    proof {
                        lemma_counters_advance(buf, pos, end, template.fields, 0);
                    }
                    let rest = records_from(buf, next, end, header, template_id, template);
                    (
                        seq![record_of(header, template_id, template.revision, counters)] + rest.0,
                        rest.1,
                    )
                }
            },
        }
    }
}

/// Decodes the body `buf[pos..end]` of a Data Set with `template`. Returns
/// the records, each stamped with the header's export time, sequence number
/// and observation domain and with the template's revision, and whether
/// trailing bytes were dropped because they are no whole record.
pub fn decode_data_set(
    buf: &[u8],
    pos: usize,
    end: usize,
    header: &MessageHeader,
    template_id: u16,
    template: &Template,
) -> (decoded: (Vec<StatisticsRecord>, bool))
    requires
        pos <= end <= buf@.len(),
    ensures
        (views(decoded.0@), decoded.1) == records_from(
            buf@,
            pos as int,
            end as int,
            *header,
            template_id,
            template@,
        ),
{
    let mut records: Vec<StatisticsRecord> = Vec::new();
    let mut at: usize = pos;
    let mut truncated = false;
    let ghost whole = records_from(buf@, pos as int, end as int, *header, template_id, template@);
    proof {
        assert(views(records@) + whole.0 =~= whole.0);
    }
    while at < end
        invariant_except_break
            !truncated,
            whole == (
                views(records@) + records_from(
                    buf@,
                    at as int,
                    end as int,
                    *header,
                    template_id,
                    template@,
                ).0,
                records_from(buf@, at as int, end as int, *header, template_id, template@).1,
            ),
        invariant
            pos <= at <= end <= buf@.len(),
            whole == records_from(buf@, pos as int, end as int, *header, template_id, template@),
        ensures
            whole == (views(records@), truncated),
        decreases end - at,
    {
        match decode_record(buf, at, end, &template.fields) {
            None => {
                truncated = true;
                proof {
                    assert(views(records@) + Seq::<RecordView>::empty() =~= views(records@));
                }
                break ;
            },
            Some((counters, next)) => {
                if next <= at {
                    truncated = true;
                    proof {
                        assert(views(records@) + Seq::<RecordView>::empty() =~= views(records@));
                    }
                    break ;
                }
                let ghost before = views(records@);
                let record = StatisticsRecord {
                    observation_domain: header.observation_domain,
                    template_id,
                    template_revision: template.revision,
                    export_time: header.export_time,
                    sequence_number: header.sequence_number,
                    counters,
                };
                records.push(record);
                proof {
                    let rest = records_from(
                        buf@,
                        next as int,
                        end as int,
                        *header,
                        template_id,
                        template@,
                    );
                    assert(views(records@) =~= before.push(record@));
                    assert(before + (seq![record@] + rest.0) =~= views(records@) + rest.0);
                }
                at = next;
            },
        }
    }
    proof {
        if !truncated {
            assert(views(records@) + Seq::<RecordView>::empty() =~= views(records@));
        }
    }
    (records, truncated)
}

/// The information element ids from here on are enterprise-specific: their
/// field specifier carries a 4-byte enterprise number after the length.
pub const ENTERPRISE_BIT: u16 = 0x8000;

/// The position after the field specifier at `pos` whose element id is
/// `id`.
pub open spec fn specifier_end(pos: int, id: u16) -> int {
    if id >= ENTERPRISE_BIT {
        pos + 8
    } else {
        pos + 4
    }
}

/// The fields that `count` field specifiers at `pos` define, and the
/// position after them; `None` where they do not end by `end`.
///
/// A field specifier is the information element id and the field length,
/// two bytes each, and for an enterprise-specific element four bytes more.
pub open spec fn specifiers_from(buf: Seq<u8>, pos: int, end: int, count: int) -> Option<
    (Seq<FieldSpecView>, int),
>
    decreases count,
{
    if count <= 0 {
        Some((Seq::empty(), pos))
    } else if pos + 4 > end || specifier_end(pos, u16_at(buf, pos)) > end {
        None
    } else {
        match specifiers_from(buf, specifier_end(pos, u16_at(buf, pos)), end, count - 1) {
            None => None,
            Some((rest, next)) => Some(
                (
                    seq![
                        FieldSpecView {
                            information_element_id: u16_at(buf, pos),
                            byte_length: u16_at(buf, pos + 2),
                            sai_counter_name: element_name(u16_at(buf, pos)),
                        },
                    ] + rest,
                    next,
                ),
            ),
        }
    }
}

/// `parsed` with `prefix` put before its fields.
pub open spec fn after_fields(
    prefix: Seq<FieldSpecView>,
    parsed: Option<(Seq<FieldSpecView>, int)>,
) -> Option<(Seq<FieldSpecView>, int)> {
    match parsed {
        None => None,
        Some((rest, next)) => Some((prefix + rest, next)),
    }
}

/// The template record at `pos` in a set of id `set_id`: its template id,
/// its fields, and the position after it; `None` where it does not end by
/// `end`.
///
/// A template record is the template id and the field count, two bytes
/// each, in an Options Template Set the scope field count in two bytes
/// more, and then as many field specifiers as the field count says.
pub open spec fn template_record_at(buf: Seq<u8>, pos: int, end: int, set_id: u16) -> Option<
    (u16, Seq<FieldSpecView>, int),
> {
    if pos + record_lead(set_id) > end {
        None
    } else {
        match specifiers_from(
            buf,
            pos + record_lead(set_id),
            end,
            u16_at(buf, pos + 2) as int,
        ) {
            None => None,
            Some((fields, next)) => Some((u16_at(buf, pos), fields, next)),
        }
    }
}

/// Field specifiers end between their start and `end`, and there are
/// `count` of them.
pub proof fn lemma_specifiers_advance(buf: Seq<u8>, pos: int, end: int, count: int)
    requires
        pos <= end,
    ensures
        specifiers_from(buf, pos, end, count) matches Some((fields, next)) ==> pos <= next <= end
            && fields.len() == if count > 0 {
            count
        } else {
            0
        },
    decreases count,
{
    if count > 0 && pos + 4 <= end && specifier_end(pos, u16_at(buf, pos)) <= end {
        lemma_specifiers_advance(buf, specifier_end(pos, u16_at(buf, pos)), end, count - 1);
    }
}

/// A template record takes at least its leading bytes.
pub proof fn lemma_template_record_advances(buf: Seq<u8>, pos: int, end: int, set_id: u16)
    requires
        pos <= end,
    ensures
        template_record_at(buf, pos, end, set_id) matches Some((id, fields, next)) ==> pos + 4
            <= next <= end && fields.len() == u16_at(buf, pos + 2),
{
    if pos + record_lead(set_id) <= end {
        lemma_specifiers_advance(
            buf,
            pos + record_lead(set_id),
            end,
            u16_at(buf, pos + 2) as int,
        );
    }
}

/// Parses the template record at `pos` in a set of id `set_id`.
pub fn parse_template_record(buf: &[u8], pos: usize, end: usize, set_id: u16) -> (parsed: Option<
    (u16, Vec<FieldSpec>, usize),
>)
    requires
        pos <= end <= buf@.len(),
    ensures
        match parsed {
            Some((id, fields, next)) => template_record_at(
                buf@,
                pos as int,
                end as int,
                set_id,
            ) == Some((id, views(fields@), next as int)) && pos + 4 <= next <= end,
            None => template_record_at(buf@, pos as int, end as int, set_id).is_none(),
        },
{
    let lead: usize = if set_id == OPTIONS_TEMPLATE_SET_ID {
        6
    } else {
        4
    };
    if end - pos < lead {
        return None;
    }
    let template_id = read_u16(buf, pos);
    let count = read_u16(buf, pos + 2);
    let mut fields: Vec<FieldSpec> = Vec::new();
    let mut at: usize = pos + lead;
    let mut left: u16 = count;
    let ghost whole = specifiers_from(buf@, pos + lead, end as int, count as int);
    proof {
        assert(after_fields(views(fields@), whole) == whole) by {
            if whole is Some {
                let parsed = whole->0;
                assert(views(fields@) + parsed.0 =~= parsed.0);
            }
        }
    }
    while left > 0
        invariant
            pos + lead <= at <= end <= buf@.len(),
            lead == record_lead(set_id),
            whole == specifiers_from(buf@, pos + lead, end as int, u16_at(buf@, pos + 2) as int),
            whole == after_fields(
                views(fields@),
                specifiers_from(buf@, at as int, end as int, left as int),
            ),
        decreases left,
    {
        if end - at < 4 {
            return None;
        }
        let id = read_u16(buf, at);
        let byte_length = read_u16(buf, at + 2);
        let width: usize = if id >= ENTERPRISE_BIT {
            8
        } else {
            4
        };
        if end - at < width {
            return None;
        }
        let ghost before = views(fields@);
        let field = FieldSpec::from_specifier(id, byte_length);
        fields.push(field);
        proof {
            let rest = specifiers_from(buf@, at + width, end as int, left - 1);
            assert(views(fields@) =~= before.push(field@));
            if rest is Some {
                let tail = rest->0;
                assert(before + (seq![field@] + tail.0) =~= views(fields@) + tail.0);
            }
        }
        at = at + width;
        left = left - 1;
    }
    proof {
        assert(views(fields@) + Seq::<FieldSpecView>::empty() =~= views(fields@));
    }
    Some((template_id, fields, at))
}

} // verus!
