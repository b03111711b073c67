use vstd::prelude::*;

verus! {

/// Name of the field that carries the trace id of a root span.
pub const TRACE_ID_FIELD: &'static str = "dd.trace_id";

/// Name of the field that carries the span id of a root span.
pub const SPAN_ID_FIELD: &'static str = "dd.span_id";

/// Name that marks a span as the root of a unit of work.
pub const ROOT_SPAN_NAME: &'static str = "root";

/// The low 64 bits of a 128-bit identifier: the backend's ids are 64 bits wide.
pub open spec fn truncate_id(id: u128) -> u64 {
    (id % 0x1_0000_0000_0000_0000u128) as u64
}

/// Reduces a 128-bit trace identifier to the low-order 64 bits of its
/// big-endian byte form.
pub fn trace_id_to_u64(id: u128) -> (r: u64)
    ensures
        r == truncate_id(id),
        r as int == id as int % 0x1_0000_0000_0000_0000,
{
    (id % 0x1_0000_0000_0000_0000u128) as u64
}

/// A recorded field value, by kind.
#[derive(Clone, Debug, PartialEq, Eq)]
pub enum FieldValue {
    Unsigned64(u64),
    Unsigned128(u128),
    Text(String),
    Other,
}

/// A named field value recorded on a span.
#[derive(Clone, Debug, PartialEq, Eq)]
pub struct Field {
    pub name: String,
    pub value: FieldValue,
}

/// The correlation ids of one root span.
#[derive(Clone, Copy, Debug, PartialEq, Eq, Structural)]
pub struct SpanEntry {
    pub trace_id: Option<u64>,
    pub span_id: Option<u64>,
}

/// The id that a value of a reserved field carries, if its shape is an unsigned integer.
pub open spec fn id_of_value(v: FieldValue) -> Option<u64> {
    match v {
        FieldValue::Unsigned64(x) => Some(x),
        FieldValue::Unsigned128(x) => Some(truncate_id(x)),
        _ => None,
    }
}

/// The record after one field is recorded: a reserved field with an integer
/// value overwrites its slot; anything else leaves the record as it was.
pub open spec fn after_field(e: SpanEntry, name: Seq<char>, v: FieldValue) -> SpanEntry {
    match id_of_value(v) {
        Some(x) => if name == TRACE_ID_FIELD@ {
            SpanEntry { trace_id: Some(x), ..e }
        } else if name == SPAN_ID_FIELD@ {
            SpanEntry { span_id: Some(x), ..e }
        } else {
            e
        },
        None => e,
    }
}

/// The record after a sequence of fields is recorded in order.
pub open spec fn after_fields(e: SpanEntry, fs: Seq<Field>) -> SpanEntry
    decreases fs.len(),
{
    if fs.len() == 0 {
        e
    } else {
        let prev = after_fields(e, fs.drop_last());
        after_field(prev, fs.last().name@, fs.last().value)
    }
}

pub open spec fn empty_entry() -> SpanEntry {
    SpanEntry { trace_id: None, span_id: None }
}

impl SpanEntry {
    /// A record with neither id known.
    pub fn new() -> (r: SpanEntry)
        ensures
            r == empty_entry(),
    {
        SpanEntry { trace_id: None, span_id: None }
    }

    /// Records a 128-bit value; under the trace or span id field it is stored
    /// truncated to 64 bits.
    pub fn record_u128(&mut self, name: &String, value: u128)
        ensures
            *final(self) == after_field(*old(self), name@, FieldValue::Unsigned128(value)),
    {
        let id = trace_id_to_u64(value);
        self.record_id(name, id);
    }

    /// Records a 64-bit value under the trace or span id field.
    pub fn record_u64(&mut self, name: &String, value: u64)
        ensures
            *final(self) == after_field(*old(self), name@, FieldValue::Unsigned64(value)),
    {
        self.record_id(name, value);
    }

    fn record_id(&mut self, name: &String, id: u64)
        ensures
            *final(self) == after_field(*old(self), name@, FieldValue::Unsigned64(id)),
    {
        let trace_key = String::from_str(TRACE_ID_FIELD);
        let span_key = String::from_str(SPAN_ID_FIELD);
        if *name == trace_key {
            self.trace_id = Some(id);
        } else if *name == span_key {
            self.span_id = Some(id);
        }
    }

    /// Records one field, dispatching on the kind of its value.
    pub fn record(&mut self, field: &Field)
        ensures
            *final(self) == after_field(*old(self), field.name@, field.value),
    {
        match &field.value {
            FieldValue::Unsigned64(x) => self.record_u64(&field.name, *x),
            FieldValue::Unsigned128(x) => self.record_u128(&field.name, *x),
            _ => {},
        }
    }

    /// Records each field in order.
    pub fn record_all(&mut self, fields: &Vec<Field>)
        ensures
            *final(self) == after_fields(*old(self), fields@),
    {
        let ghost start = *self;
        let mut i: usize = 0;
        while i < fields.len()
            invariant
                i <= fields@.len(),
                *self == after_fields(start, fields@.subrange(0, i as int)),
            decreases fields@.len() - i,
        {
            proof {
                let next = fields@.subrange(0, i + 1);
                assert(next.drop_last() =~= fields@.subrange(0, i as int));
            }
            self.record(&fields[i]);
            i = i + 1;
        }
        assert(fields@.subrange(0, i as int) =~= fields@);
    }
}

} // verus!
