use vstd::prelude::*;
use crate::correlation::{Field, FieldValue, SPAN_ID_FIELD, TRACE_ID_FIELD};

verus! {

/// Makes the root span of each inbound request, continuing the trace that the
/// request's propagation headers carry.
#[derive(Clone, Copy, Debug, PartialEq, Eq, Structural)]
pub struct MakeRootSpanWithRemote {}

impl MakeRootSpanWithRemote {
    pub fn new() -> (r: Self)
        ensures
            r == (MakeRootSpanWithRemote {}),
    {
        MakeRootSpanWithRemote {}
    }

    /// The correlation fields to record on a new root span, from the remote
    /// context extracted from the request: its trace and span ids where the
    /// context is valid, none otherwise.
    pub fn remote_fields(&self, valid: bool, trace_id: u128, span_id: u64) -> (r: Vec<Field>)
        ensures
            !valid ==> r@.len() == 0,
            valid ==> r@.len() == 2,
            valid ==> r@[0].name@ == TRACE_ID_FIELD@ && r@[0].value == FieldValue::Unsigned128(trace_id),
            valid ==> r@[1].name@ == SPAN_ID_FIELD@ && r@[1].value == FieldValue::Unsigned64(span_id),
    {
        let mut fields: Vec<Field> = Vec::new();
        if valid {
            fields.push(Field { name: String::from_str(TRACE_ID_FIELD), value: FieldValue::Unsigned128(trace_id) });
            fields.push(Field { name: String::from_str(SPAN_ID_FIELD), value: FieldValue::Unsigned64(span_id) });
        }
        fields
    }
}

} // verus!
