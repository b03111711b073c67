use vstd::prelude::*;
use crate::correlation::{
    after_fields, id_of_value, truncate_id, Field, SpanEntry, SPAN_ID_FIELD, TRACE_ID_FIELD,
};
use crate::external::{escaped, escaped_char, hex_digit, json_quoted};
use crate::record::{decimal_text, digit_text, id_segment, level_text, line_text, second_of, Level};
use crate::registry::{
    has_root, is_first_root, is_root_name, lemma_first_root_unique, root_of, JsonLogLayer, ScopeSpan,
};

verus! {

proof fn lemma_root_through_children(children: Seq<ScopeSpan>, scope: Seq<ScopeSpan>)
    requires
        forall|j: int| 0 <= j < children.len() ==> !is_root_name(#[trigger] children[j].name@),
    ensures
        root_of(children + scope) == root_of(scope),
{
    let all = children + scope;
    let n = children.len() as int;
    if has_root(scope) {
        let i = choose|i: int| is_first_root(scope, i);
        assert(is_first_root(scope, i)) by {
            let w = choose|w: int| 0 <= w < scope.len() && is_root_name(#[trigger] scope[w].name@);
            first_root_exists(scope, w);
        }
        assert(is_first_root(all, n + i)) by {
            assert(all[n + i] == scope[i]);
            assert forall|j: int| 0 <= j < n + i implies !is_root_name(#[trigger] all[j].name@) by {
                if j < n { assert(all[j] == children[j]); } else { assert(all[j] == scope[j - n]); }
            }
        }
        assert(has_root(all)) by { assert(is_root_name(all[n + i].name@)); }
        let k = choose|k: int| is_first_root(all, k);
        lemma_first_root_unique(all, k, n + i);
    } else {
        assert forall|j: int| 0 <= j < all.len() implies !is_root_name(#[trigger] all[j].name@) by {
            if j < n { assert(all[j] == children[j]); } else { assert(all[j] == scope[j - n]); }
        }
    }
}

proof fn lemma_reserved_names_differ()
    ensures
        SPAN_ID_FIELD@ != TRACE_ID_FIELD@,
{
    reveal_strlit("dd.trace_id");
    reveal_strlit("dd.span_id");
    assert(SPAN_ID_FIELD@.len() != TRACE_ID_FIELD@.len());
}

proof fn first_root_exists(scope: Seq<ScopeSpan>, w: int)
    requires
        0 <= w < scope.len(),
        is_root_name(scope[w].name@),
    ensures
        exists|i: int| is_first_root(scope, i),
    decreases w,
{
    if forall|j: int| 0 <= j < w ==> !is_root_name(#[trigger] scope[j].name@) {
        assert(is_first_root(scope, w));
    } else {
        let v = choose|j: int| 0 <= j < w && !!is_root_name(#[trigger] scope[j].name@);
        first_root_exists(scope, v);
    }
}

/// An event fired inside any number of nested spans below a root span whose
/// record holds both ids carries exactly those ids.
pub proof fn lemma_correlation_propagates<W>(
    layer: JsonLogLayer<W>,
    children: Seq<ScopeSpan>,
    scope: Seq<ScopeSpan>,
    fallback_trace: Option<u128>,
)
    requires
        forall|j: int| 0 <= j < children.len() ==> !is_root_name(#[trigger] children[j].name@),
        root_of(scope) is Some,
        layer.record_of(root_of(scope).unwrap().id) is Some,
        layer.record_of(root_of(scope).unwrap().id).unwrap().trace_id is Some,
        layer.record_of(root_of(scope).unwrap().id).unwrap().span_id is Some,
    ensures
        ({
            let rec = layer.record_of(root_of(scope).unwrap().id).unwrap();
            layer.event_ids(children + scope, fallback_trace) == (rec.trace_id, rec.span_id)
        }),
{
    lemma_root_through_children(children, scope);
}

/// Outside every root span an event carries no ids, and its line holds no id
/// key at all.
pub proof fn lemma_no_root_no_ids<W>(
    layer: JsonLogLayer<W>,
    scope: Seq<ScopeSpan>,
    fallback_trace: Option<u128>,
    level: Level,
    message_json: Seq<char>,
    timestamp: u64,
    ts_json: Seq<char>,
)
    requires
        !has_root(scope),
    ensures
        layer.event_ids(scope, fallback_trace) == (None::<u64>, None::<u64>),
        line_text(level, message_json, None, None, timestamp, ts_json)
            == "{\"level\":\""@ + crate::record::level_text(level) + "\",\"message\":"@ + message_json
            + ",\"timestamp\":"@ + crate::record::decimal_text(timestamp as nat) + ",\"ts\":"@
            + ts_json + "}\n"@,
{
    assert(id_segment(",\"dd.trace_id\":"@, None) =~= Seq::<char>::empty());
    assert(line_text(level, message_json, None, None, timestamp, ts_json)
        =~= "{\"level\":\""@ + crate::record::level_text(level) + "\",\"message\":"@ + message_json
            + ",\"timestamp\":"@ + crate::record::decimal_text(timestamp as nat) + ",\"ts\":"@
            + ts_json + "}\n"@);
}

/// A root span whose record never got a trace id, under no fallback tracing
/// context, stamps no trace id.
pub proof fn lemma_unset_trace_omitted<W>(layer: JsonLogLayer<W>, scope: Seq<ScopeSpan>)
    requires
        root_of(scope) is Some,
        layer.record_of(root_of(scope).unwrap().id) is Some ==>
            layer.record_of(root_of(scope).unwrap().id).unwrap().trace_id is None,
    ensures
        layer.event_ids(scope, None).0 is None,
{
}

/// The last reserved trace field with an integer value in an update decides
/// the trace id, whatever the record held before.
pub proof fn lemma_last_trace_update_wins(e: SpanEntry, fs: Seq<Field>, k: int)
    requires
        0 <= k < fs.len(),
        fs[k].name@ == TRACE_ID_FIELD@,
        id_of_value(fs[k].value) is Some,
        forall|j: int| k < j < fs.len() ==> !(#[trigger] fs[j].name@ == TRACE_ID_FIELD@
            && id_of_value(fs[j].value) is Some),
    ensures
        after_fields(e, fs).trace_id == id_of_value(fs[k].value),
    decreases fs.len(),
{
    let prev = fs.drop_last();
    if k == fs.len() - 1 {
    } else {
        assert forall|j: int| k < j < prev.len() implies !(#[trigger] prev[j].name@ == TRACE_ID_FIELD@
            && id_of_value(prev[j].value) is Some) by {
            assert(prev[j] == fs[j]);
        }
        assert(prev[k] == fs[k]);
        lemma_last_trace_update_wins(e, prev, k);
        let last = fs[fs.len() - 1];
        assert(!(last.name@ == TRACE_ID_FIELD@ && id_of_value(last.value) is Some));
    }
}

/// The last reserved span field with an integer value in an update decides
/// the span id, whatever the record held before.
pub proof fn lemma_last_span_update_wins(e: SpanEntry, fs: Seq<Field>, k: int)
    requires
        0 <= k < fs.len(),
        fs[k].name@ == SPAN_ID_FIELD@,
        id_of_value(fs[k].value) is Some,
        forall|j: int| k < j < fs.len() ==> !(#[trigger] fs[j].name@ == SPAN_ID_FIELD@
            && id_of_value(fs[j].value) is Some),
    ensures
        after_fields(e, fs).span_id == id_of_value(fs[k].value),
    decreases fs.len(),
{
    lemma_reserved_names_differ();
    let prev = fs.drop_last();
    if k == fs.len() - 1 {
    } else {
        assert forall|j: int| k < j < prev.len() implies !(#[trigger] prev[j].name@ == SPAN_ID_FIELD@
            && id_of_value(prev[j].value) is Some) by {
            assert(prev[j] == fs[j]);
        }
        assert(prev[k] == fs[k]);
        lemma_last_span_update_wins(e, prev, k);
    }
}

/// A root span created with any initial fields and later updated with both
/// reserved fields stamps the updated ids on its events, not the initial ones.
pub proof fn lemma_lazy_population<W>(
    layer: JsonLogLayer<W>,
    scope: Seq<ScopeSpan>,
    fallback_trace: Option<u128>,
    initial: Seq<Field>,
    update: Seq<Field>,
    k: int,
    m: int,
)
    requires
        root_of(scope) is Some,
        layer.record_of(root_of(scope).unwrap().id) == Some(
            after_fields(after_fields(crate::correlation::empty_entry(), initial), update),
        ),
        0 <= k < update.len(),
        update[k].name@ == TRACE_ID_FIELD@,
        id_of_value(update[k].value) is Some,
        forall|j: int| k < j < update.len() ==> !(#[trigger] update[j].name@ == TRACE_ID_FIELD@
            && id_of_value(update[j].value) is Some),
        0 <= m < update.len(),
        update[m].name@ == SPAN_ID_FIELD@,
        id_of_value(update[m].value) is Some,
        forall|j: int| m < j < update.len() ==> !(#[trigger] update[j].name@ == SPAN_ID_FIELD@
            && id_of_value(update[j].value) is Some),
    ensures
        layer.event_ids(scope, fallback_trace) == (id_of_value(update[k].value), id_of_value(
            update[m].value,
        )),
{
    let start = after_fields(crate::correlation::empty_entry(), initial);
    lemma_last_trace_update_wins(start, update, k);
    lemma_last_span_update_wins(start, update, m);
}

pub open spec fn free_of_newline(s: Seq<char>) -> bool {
    forall|i: int| 0 <= i < s.len() ==> s[i] != '\n'
}

proof fn lemma_concat_free(a: Seq<char>, b: Seq<char>)
    requires
        free_of_newline(a),
        free_of_newline(b),
    ensures
        free_of_newline(a + b),
{
    assert forall|i: int| 0 <= i < (a + b).len() implies (a + b)[i] != '\n' by {
        if i < a.len() {
            assert((a + b)[i] == a[i]);
        } else {
            assert((a + b)[i] == b[i - a.len()]);
        }
    }
}

proof fn lemma_escaped_free(s: Seq<char>)
    ensures
        free_of_newline(escaped(s)),
    decreases s.len(),
{
    if s.len() > 0 {
        lemma_escaped_free(s.drop_last());
        let c = s.last();
        if c != '"' && c != '\\' && c != '\x08' && c != '\t' && c != '\n' && c != '\x0C'
            && c != '\r' && (c as u32) < 0x20 {
            let hex = seq!['0', '1', '2', '3', '4', '5', '6', '7', '8', '9', 'a', 'b', 'c', 'd', 'e', 'f'];
            let v = (c as u32) as int;
            assert(0 <= v / 16 < 16 && 0 <= v % 16 < 16) by (nonlinear_arith)
                requires
                    0 <= v < 0x20,
            ;
            assert(hex_digit(v / 16) == hex[v / 16]);
            assert(hex_digit(v % 16) == hex[v % 16]);
        }
        assert(free_of_newline(escaped_char(c)));
        lemma_concat_free(escaped(s.drop_last()), escaped_char(c));
    }
}

proof fn lemma_quoted_free(s: Seq<char>)
    ensures
        free_of_newline(json_quoted(s)),
{
    lemma_escaped_free(s);
    lemma_concat_free(seq!['"'], escaped(s));
    lemma_concat_free(seq!['"'] + escaped(s), seq!['"']);
}

proof fn lemma_decimal_free(n: nat)
    ensures
        free_of_newline(decimal_text(n)),
    decreases n,
{
    reveal_strlit("0");
    reveal_strlit("1");
    reveal_strlit("2");
    reveal_strlit("3");
    reveal_strlit("4");
    reveal_strlit("5");
    reveal_strlit("6");
    reveal_strlit("7");
    reveal_strlit("8");
    reveal_strlit("9");
    assert(free_of_newline(digit_text(n % 10)));
    if n >= 10 {
        lemma_decimal_free(n / 10);
        lemma_concat_free(decimal_text(n / 10), digit_text(n % 10));
    }
}

proof fn lemma_segment_free(key: Seq<char>, id: Option<u64>)
    requires
        free_of_newline(key),
    ensures
        free_of_newline(id_segment(key, id)),
{
    if let Some(x) = id {
        lemma_decimal_free(x as nat);
        lemma_concat_free(key, decimal_text(x as nat));
    }
}

/// A line holds exactly one newline, at its end, whatever its message and
/// time text hold: each record stays on a line of its own.
pub proof fn lemma_line_ends_once(
    level: Level,
    message: Seq<char>,
    trace_id: Option<u64>,
    span_id: Option<u64>,
    timestamp: u64,
    ts: Seq<char>,
)
    ensures
        ({
            let l = line_text(level, json_quoted(message), trace_id, span_id, timestamp,
                json_quoted(ts));
            &&& l.len() > 0
            &&& l.last() == '\n'
            &&& free_of_newline(l.drop_last())
        }),
{
    reveal_strlit("{\"level\":\"");
    reveal_strlit("\",\"message\":");
    reveal_strlit(",\"dd.trace_id\":");
    reveal_strlit(",\"dd.span_id\":");
    reveal_strlit(",\"timestamp\":");
    reveal_strlit(",\"ts\":");
    reveal_strlit("}\n");
    reveal_strlit("TRACE");
    reveal_strlit("DEBUG");
    reveal_strlit("INFO");
    reveal_strlit("WARN");
    reveal_strlit("ERROR");
    let a = "{\"level\":\""@;
    let b = level_text(level);
    let c = "\",\"message\":"@;
    let d = json_quoted(message);
    let e = id_segment(",\"dd.trace_id\":"@, trace_id);
    let f = id_segment(",\"dd.span_id\":"@, span_id);
    let g = ",\"timestamp\":"@;
    let h = decimal_text(timestamp as nat);
    let i = ",\"ts\":"@;
    let j = json_quoted(ts);
    assert(free_of_newline(a));
    assert(free_of_newline(b));
    assert(free_of_newline(c));
    assert(free_of_newline(g));
    assert(free_of_newline(i));
    lemma_quoted_free(message);
    lemma_quoted_free(ts);
    lemma_segment_free(",\"dd.trace_id\":"@, trace_id);
    lemma_segment_free(",\"dd.span_id\":"@, span_id);
    lemma_decimal_free(timestamp as nat);
    lemma_concat_free(a, b);
    lemma_concat_free(a + b, c);
    lemma_concat_free(a + b + c, d);
    lemma_concat_free(a + b + c + d, e);
    lemma_concat_free(a + b + c + d + e, f);
    lemma_concat_free(a + b + c + d + e + f, g);
    lemma_concat_free(a + b + c + d + e + f + g, h);
    lemma_concat_free(a + b + c + d + e + f + g + h, i);
    lemma_concat_free(a + b + c + d + e + f + g + h + i, j);
    let x = a + b + c + d + e + f + g + h + i + j;
    lemma_concat_free(x, seq!['}']);
    let l = line_text(level, json_quoted(message), trace_id, span_id, timestamp, json_quoted(ts));
    assert(l == x + "}\n"@);
    assert(l.drop_last() =~= x + seq!['}']);
}

/// Truncation keeps the low 64 bits whatever the high 64 bits hold.
pub proof fn lemma_truncation_keeps_low_bits(high: u64, low: u64)
    ensures
        truncate_id(((high as u128) << 64u128) | (low as u128)) == low,
{
    let x: u128 = ((high as u128) << 64u128) | (low as u128);
    assert(x % 0x1_0000_0000_0000_0000u128 == low as u128) by (bit_vector)
        requires
            x == ((high as u128) << 64u128) | (low as u128),
    ;
}

/// The millisecond timestamp of a line falls inside the second that its
/// calendar text names.
pub proof fn lemma_timestamp_in_second(millis: u64)
    ensures
        second_of(millis) * 1000 <= millis < (second_of(millis) + 1) * 1000,
{
}

} // verus!
