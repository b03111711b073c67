use dd_log_correlation::correlation::{trace_id_to_u64, Field, FieldValue, SpanEntry};
use dd_log_correlation::record::{json_line, push_decimal, to_json_line, Level, LogEntry};
use dd_log_correlation::registry::{fallback_trace, find_root, is_root, JsonLogLayer, ScopeSpan};
use dd_log_correlation::remote::MakeRootSpanWithRemote;

const NOW: u64 = 1_704_164_645_123;

fn span(id: u64, name: &str) -> ScopeSpan {
    ScopeSpan { id, name: name.to_string() }
}

fn field(name: &str, value: FieldValue) -> Field {
    Field { name: name.to_string(), value }
}

fn empty_root_fields() -> Vec<Field> {
    vec![field("http.url", FieldValue::Text("/greet".to_string())), field("http.status_code", FieldValue::Other)]
}

#[test]
fn scenario_empty_ids_omits_keys() {
    let mut layer = JsonLogLayer::new(());
    layer.on_new_span(&"root".to_string(), 3, &empty_root_fields());
    // the root exists but holds no ids, and there is no fallback context
    let line = layer
        .on_event(Level::Info, Some("hello".to_string()), &vec![span(3, "root")], None, NOW)
        .unwrap();
    assert!(!line.contains("dd.trace_id"));
    // an unset span id falls back to the root span's own identifier
    assert!(line.contains("\"dd.span_id\":3,"));
    assert!(line.contains("\"message\":\"hello\""));
    assert!(line.ends_with("\n"));
    assert_eq!(line.matches('\n').count(), 1);
}

#[test]
fn no_root_is_uncorrelated() {
    let layer = JsonLogLayer::new(());
    let line = layer
        .on_event(Level::Info, Some("hello".to_string()), &vec![span(9, "handler")], Some(42), NOW)
        .unwrap();
    assert_eq!(
        line,
        "{\"level\":\"INFO\",\"message\":\"hello\",\"timestamp\":1704164645123,\"ts\":\"2024-01-02T03:04:05Z\"}\n"
    );
}

#[test]
fn scenario_lazy_ids_from_update() {
    let mut layer = JsonLogLayer::new(());
    layer.on_new_span(&"root".to_string(), 3, &empty_root_fields());
    layer.on_record(3, &vec![field("dd.trace_id", FieldValue::Unsigned128(42)), field("dd.span_id", FieldValue::Unsigned64(7))]);
    let scope = vec![span(11, "use_case"), span(10, "handler"), span(3, "root")];
    let line = layer.on_event(Level::Info, Some("world".to_string()), &scope, None, NOW).unwrap();
    assert_eq!(
        line,
        "{\"level\":\"INFO\",\"message\":\"world\",\"dd.trace_id\":42,\"dd.span_id\":7,\"timestamp\":1704164645123,\"ts\":\"2024-01-02T03:04:05Z\"}\n"
    );
}

#[test]
fn scenario_fallback_trace_context() {
    let mut layer = JsonLogLayer::new(());
    layer.on_new_span(&"root".to_string(), 5, &empty_root_fields());
    let scope = vec![span(6, "handler"), span(5, "root")];
    let line = layer.on_event(Level::Warn, Some("fallback".to_string()), &scope, Some(0x2A), NOW).unwrap();
    assert!(line.contains("\"dd.trace_id\":42,\"dd.span_id\":5,"));
    assert!(line.starts_with("{\"level\":\"WARN\""));
    let high = (0xdead_beefu128 << 64) | 0x2A;
    let line = layer.on_event(Level::Warn, Some("fallback".to_string()), &scope, Some(high), NOW).unwrap();
    assert!(line.contains("\"dd.trace_id\":42,\"dd.span_id\":5,"));
}

#[test]
fn scenario_two_roots_interleaved() {
    let mut layer = JsonLogLayer::new(());
    layer.on_new_span(&"root".to_string(), 1, &vec![field("dd.trace_id", FieldValue::Unsigned128(100)), field("dd.span_id", FieldValue::Unsigned64(101))]);
    layer.on_new_span(&"root".to_string(), 2, &vec![field("dd.trace_id", FieldValue::Unsigned128(200)), field("dd.span_id", FieldValue::Unsigned64(201))]);
    let a = vec![span(3, "child"), span(1, "root")];
    let b = vec![span(4, "child"), span(2, "root")];
    let mut lines = Vec::new();
    for i in 0..1000 {
        lines.push((1, layer.on_event(Level::Info, Some(format!("a{}", i)), &a, None, NOW).unwrap()));
        lines.push((2, layer.on_event(Level::Info, Some(format!("b{}", i)), &b, None, NOW).unwrap()));
    }
    assert_eq!(lines.len(), 2000);
    for (who, line) in &lines {
        assert!(line.starts_with('{') && line.ends_with("}\n"));
        assert_eq!(line.matches('\n').count(), 1);
        if *who == 1 {
            assert!(line.contains("\"dd.trace_id\":100,\"dd.span_id\":101,"));
        } else {
            assert!(line.contains("\"dd.trace_id\":200,\"dd.span_id\":201,"));
        }
    }
}

#[test]
fn event_without_message_emits_nothing() {
    let mut layer = JsonLogLayer::new(());
    layer.on_new_span(&"root".to_string(), 3, &Vec::new());
    assert!(layer.on_event(Level::Info, None, &vec![span(3, "root")], Some(1), NOW).is_none());
}

#[test]
fn truncation_keeps_low_bits() {
    assert_eq!(trace_id_to_u64(42), 42);
    assert_eq!(trace_id_to_u64((u64::MAX as u128) << 64 | 42), 42);
    assert_eq!(trace_id_to_u64(u128::MAX), u64::MAX);
    let bytes = ((7u128 << 64) | 9).to_be_bytes();
    assert_eq!(trace_id_to_u64(u128::from_be_bytes(bytes)), 9);
}

#[test]
fn timestamp_and_text_share_the_second() {
    let e = LogEntry::new(Level::Error, NOW).unwrap();
    assert_eq!(e.timestamp, NOW);
    assert_eq!(e.ts, "2024-01-02T03:04:05Z");
    let e = LogEntry::new(Level::Error, 1_704_164_645_999).unwrap();
    assert_eq!(e.ts, "2024-01-02T03:04:05Z");
    let e = LogEntry::new(Level::Error, 0).unwrap();
    assert_eq!(e.ts, "1970-01-01T00:00:00Z");
    assert!(e.message.is_empty() && e.trace_id.is_none() && e.span_id.is_none());
}

#[test]
fn update_of_unknown_or_closed_span_is_ignored() {
    let mut layer = JsonLogLayer::new(());
    layer.on_record(8, &vec![field("dd.trace_id", FieldValue::Unsigned128(1))]);
    assert_eq!(layer.lookup(8), None);
    layer.on_new_span(&"handler".to_string(), 9, &vec![field("dd.trace_id", FieldValue::Unsigned128(1))]);
    assert_eq!(layer.lookup(9), None);
    layer.on_new_span(&"root".to_string(), 10, &vec![field("dd.span_id", FieldValue::Unsigned64(4))]);
    assert_eq!(layer.lookup(10), Some(SpanEntry { trace_id: None, span_id: Some(4) }));
    layer.on_close(10);
    assert_eq!(layer.lookup(10), None);
}

#[test]
fn update_keeps_absent_slots_and_ignores_bad_shapes() {
    let mut e = SpanEntry::new();
    e.record_all(&vec![field("dd.trace_id", FieldValue::Unsigned64(5)), field("dd.span_id", FieldValue::Unsigned128((1u128 << 64) | 6))]);
    assert_eq!(e, SpanEntry { trace_id: Some(5), span_id: Some(6) });
    e.record(&field("dd.trace_id", FieldValue::Text("9".to_string())));
    e.record(&field("dd.span_id", FieldValue::Other));
    e.record_u64(&"other".to_string(), 3);
    assert_eq!(e, SpanEntry { trace_id: Some(5), span_id: Some(6) });
    e.record_u128(&"dd.trace_id".to_string(), 77);
    assert_eq!(e, SpanEntry { trace_id: Some(77), span_id: Some(6) });
}

#[test]
fn innermost_root_is_found() {
    assert!(is_root(&"root".to_string()));
    assert!(!is_root(&"Root".to_string()));
    let scope = vec![span(1, "a"), span(2, "root"), span(3, "root")];
    assert_eq!(find_root(&scope), Some(1));
    assert_eq!(find_root(&vec![span(1, "a")]), None);
    assert_eq!(find_root(&Vec::new()), None);
}

#[test]
fn decimal_text_exact() {
    let mut s = String::from("x");
    push_decimal(&mut s, 0);
    push_decimal(&mut s, 1234567890);
    push_decimal(&mut s, u64::MAX);
    assert_eq!(s, "x0123456789018446744073709551615");
}

#[test]
fn message_is_escaped_as_json() {
    let e = LogEntry {
        level: Level::Debug,
        message: "say \"hi\"\n".to_string(),
        trace_id: Some(1),
        span_id: None,
        timestamp: 5,
        ts: "1970-01-01T00:00:00Z".to_string(),
    };
    assert_eq!(
        to_json_line(&e),
        "{\"level\":\"DEBUG\",\"message\":\"say \\\"hi\\\"\\n\",\"dd.trace_id\":1,\"timestamp\":5,\"ts\":\"1970-01-01T00:00:00Z\"}\n"
    );
    let framed = json_line(&e, &"M".to_string(), &"T".to_string());
    assert_eq!(framed, "{\"level\":\"DEBUG\",\"message\":M,\"dd.trace_id\":1,\"timestamp\":5,\"ts\":T}\n");
}

#[test]
fn levels_display() {
    assert_eq!(Level::Trace.as_str(), "TRACE");
    assert_eq!(Level::Info.as_str(), "INFO");
    assert_eq!(Level::Error.as_str(), "ERROR");
}

#[test]
fn remote_context_fields() {
    let maker = MakeRootSpanWithRemote::new();
    assert!(maker.remote_fields(false, 1, 2).is_empty());
    let fields = maker.remote_fields(true, (3u128 << 64) | 42, 7);
    let mut layer = JsonLogLayer::new(());
    layer.on_new_span(&"root".to_string(), 1, &Vec::new());
    layer.on_record(1, &fields);
    assert_eq!(layer.lookup(1), Some(SpanEntry { trace_id: Some(42), span_id: Some(7) }));
}

#[test]
fn fallback_prefers_the_parent_span() {
    assert_eq!(fallback_trace(Some(Some(1)), Some(2)), Some(1));
    assert_eq!(fallback_trace(Some(None), Some(2)), None);
    assert_eq!(fallback_trace(None, Some(2)), Some(2));
    assert_eq!(fallback_trace(None, None), None);
}

#[test]
fn control_characters_are_escaped() {
    let layer = JsonLogLayer::new(());
    let line = layer
        .on_event(Level::Info, Some("a\u{1}b\tc\\".to_string()), &Vec::new(), None, NOW)
        .unwrap();
    assert!(line.contains("\"message\":\"a\\u0001b\\tc\\\\\","));
    assert_eq!(line.matches('\n').count(), 1);
    assert!(line.ends_with("}\n"));
}

#[test]
fn last_representable_instant_still_gives_a_line() {
    let layer = JsonLogLayer::new(());
    let line = layer
        .on_event(Level::Info, Some("late".to_string()), &Vec::new(), None, 253_402_300_799_999)
        .unwrap();
    assert!(line.contains("\"ts\":\"9999-12-31T23:59:59Z\""));
    assert_eq!(layer.make_writer, ());
}
