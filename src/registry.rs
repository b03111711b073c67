use vstd::prelude::*;
use crate::correlation::{
    after_fields, empty_entry, trace_id_to_u64, truncate_id, Field, SpanEntry, ROOT_SPAN_NAME,
};
use crate::record::{line_text, second_of, to_json_line, Level, LogEntry, LAST_MILLIS_OF_YEAR_9999};
use crate::external::{json_quoted, utc_text};

verus! {

/// A span of the active stack, as the event sees it.
#[derive(Clone, Debug, PartialEq, Eq)]
pub struct ScopeSpan {
    /// The span tree's own identifier of the span.
    pub id: u64,
    pub name: String,
}

/// The correlation record of one root span, keyed by the span's identifier.
#[derive(Clone, Copy, Debug, PartialEq, Eq, Structural)]
pub struct RootEntry {
    pub id: u64,
    pub entry: SpanEntry,
}

pub open spec fn is_root_name(name: Seq<char>) -> bool {
    name == ROOT_SPAN_NAME@
}

/// Whether a span with this name is the root of a unit of work.
pub fn is_root(name: &String) -> (r: bool)
    ensures
        r == is_root_name(name@),
{
    let root = String::from_str(ROOT_SPAN_NAME);
    *name == root
}

/// Index of the innermost root span in a stack ordered innermost first.
pub open spec fn is_first_root(scope: Seq<ScopeSpan>, i: int) -> bool {
    &&& 0 <= i < scope.len()
    &&& is_root_name(scope[i].name@)
    &&& forall|j: int| 0 <= j < i ==> !is_root_name(#[trigger] scope[j].name@)
}

pub open spec fn has_root(scope: Seq<ScopeSpan>) -> bool {
    exists|i: int| 0 <= i < scope.len() && is_root_name(#[trigger] scope[i].name@)
}

/// The innermost root span of a stack, if any.
pub open spec fn root_of(scope: Seq<ScopeSpan>) -> Option<ScopeSpan> {
    if has_root(scope) {
        Some(scope[choose|i: int| is_first_root(scope, i)])
    } else {
        None
    }
}

/// A stack has at most one innermost root span.
pub proof fn lemma_first_root_unique(scope: Seq<ScopeSpan>, i: int, k: int)
    requires
        is_first_root(scope, i),
        is_first_root(scope, k),
    ensures
        i == k,
{
    if i < k {
        assert(!is_root_name(scope[i].name@));
    } else if k < i {
        assert(!is_root_name(scope[k].name@));
    }
}

/// Finds the innermost root span of a stack ordered innermost first.
pub fn find_root(scope: &Vec<ScopeSpan>) -> (r: Option<usize>)
    ensures
        r is Some <==> has_root(scope@),
        r is Some ==> is_first_root(scope@, r.unwrap() as int),
        r is Some ==> root_of(scope@) == Some(scope@[r.unwrap() as int]),
{
    let mut i: usize = 0;
    while i < scope.len()
        invariant
            i <= scope@.len(),
            forall|j: int| 0 <= j < i ==> !is_root_name(#[trigger] scope@[j].name@),
        decreases scope@.len() - i,
    {
        if is_root(&scope[i].name) {
            proof {
                assert(is_first_root(scope@, i as int));
                let k = choose|k: int| is_first_root(scope@, k);
                lemma_first_root_unique(scope@, i as int, k);
            }
            return Some(i);
        }
        i = i + 1;
    }
    None
}

/// The trace and span ids of an event: those of the innermost root span's
/// record, with the fallback trace context and the root's own identifier
/// standing in for ids that the record lacks. No ids without a root span.
pub open spec fn resolved_ids(
    record: Option<SpanEntry>,
    root: Option<ScopeSpan>,
    fallback_trace: Option<u128>,
) -> (Option<u64>, Option<u64>) {
    match root {
        None => (None, None),
        Some(span) => {
            let rec = match record {
                Some(e) => e,
                None => empty_entry(),
            };
            let trace = match rec.trace_id {
                Some(t) => Some(t),
                None => match fallback_trace {
                    Some(t) => Some(truncate_id(t)),
                    None => None,
                },
            };
            let span_id = match rec.span_id {
                Some(s) => s,
                None => span.id,
            };
            (trace, Some(span_id))
        },
    }
}

/// The trace id to fall back on: that of the event's parent span where the
/// event names one that still exists (`parent` is `Some`, holding the trace id
/// of its tracing context if it has one), else that of the current span.
pub fn fallback_trace(parent: Option<Option<u128>>, current: Option<u128>) -> (r: Option<u128>)
    ensures
        r == match parent {
            Some(p) => p,
            None => current,
        },
{
    match parent {
        Some(p) => p,
        None => current,
    }
}

/// Observes span lifecycles, keeps one correlation record per root span, and
/// turns message events into JSON lines for the sink `make_writer`.
pub struct JsonLogLayer<W> {
    pub make_writer: W,
    pub roots: RootTable,
}

/// The correlation records of the open root spans.
pub struct RootTable {
    entries: Vec<RootEntry>,
}

impl<W> JsonLogLayer<W> {
    /// The sink that lines are written to.
    pub open spec fn writer(&self) -> W {
        self.make_writer
    }

    /// Identifiers in the table are distinct.
    pub closed spec fn wf(&self) -> bool {
        forall|i: int, j: int|
            0 <= i < j < self.roots.entries@.len() ==> self.roots.entries@[i].id
                != self.roots.entries@[j].id
    }

    pub closed spec fn holds(&self, id: u64) -> bool {
        exists|i: int| 0 <= i < self.roots.entries@.len() && #[trigger] self.roots.entries@[i].id == id
    }

    /// The correlation record kept for a span, if it is a root span still open.
    pub closed spec fn record_of(&self, id: u64) -> Option<SpanEntry> {
        if self.holds(id) {
            Some(
                self.roots.entries@[choose|i: int|
                    0 <= i < self.roots.entries@.len() && self.roots.entries@[i].id == id].entry,
            )
        } else {
            None
        }
    }

    /// A layer writing to `make_writer`, with no span observed yet.
    pub fn new(make_writer: W) -> (r: JsonLogLayer<W>)
        ensures
            r.wf(),
            r.writer() == make_writer,
            forall|id: u64| r.record_of(id) is None,
    {
        JsonLogLayer { make_writer, roots: RootTable { entries: Vec::new() } }
    }

    proof fn lemma_record_at(&self, i: int)
        requires
            self.wf(),
            0 <= i < self.roots.entries@.len(),
        ensures
            self.record_of(self.roots.entries@[i].id) == Some(self.roots.entries@[i].entry),
    {
        let id = self.roots.entries@[i].id;
        assert(self.holds(id));
        let k = choose|k: int| 0 <= k < self.roots.entries@.len() && self.roots.entries@[k].id == id;
        assert(k == i);
    }

    fn position(&self, id: u64) -> (r: Option<usize>)
        requires
            self.wf(),
        ensures
            r is Some <==> self.holds(id),
            r is Some ==> r.unwrap() < self.roots.entries@.len() && self.roots.entries@[r.unwrap() as int].id == id,
    {
        let mut i: usize = 0;
        while i < self.roots.entries.len()
            invariant
                i <= self.roots.entries@.len(),
                forall|j: int| 0 <= j < i ==> #[trigger] self.roots.entries@[j].id != id,
            decreases self.roots.entries@.len() - i,
        {
            if self.roots.entries[i].id == id {
                return Some(i);
            }
            i = i + 1;
        }
        None
    }

    /// The correlation record kept for span `id`.
    pub fn lookup(&self, id: u64) -> (r: Option<SpanEntry>)
        requires
            self.wf(),
        ensures
            r == self.record_of(id),
    {
        match self.position(id) {
            Some(i) => {
                proof { self.lemma_record_at(i as int); }
                Some(self.roots.entries[i].entry)
            },
            None => None,
        }
    }

    /// A span was created. A root span gets a record filled from its initial
    /// fields; any other span leaves the table as it was.
    pub fn on_new_span(&mut self, name: &String, id: u64, fields: &Vec<Field>)
        requires
            old(self).wf(),
        ensures
            final(self).wf(),
            final(self).writer() == old(self).writer(),
            forall|k: u64|
                #[trigger] final(self).record_of(k) == if is_root_name(name@) && k == id {
                    Some(after_fields(empty_entry(), fields@))
                } else {
                    old(self).record_of(k)
                },
    {
        if !is_root(name) {
            return;
        }
        let mut entry = SpanEntry::new();
        entry.record_all(fields);
        self.put(id, entry);
    }

    /// Field values were recorded on span `id`: where it has a record, each
    /// reserved field present overwrites its slot; otherwise nothing changes.
    pub fn on_record(&mut self, id: u64, fields: &Vec<Field>)
        requires
            old(self).wf(),
        ensures
            final(self).wf(),
            final(self).writer() == old(self).writer(),
            forall|k: u64|
                #[trigger] final(self).record_of(k) == if k == id && old(self).record_of(id) is Some {
                    Some(after_fields(old(self).record_of(id).unwrap(), fields@))
                } else {
                    old(self).record_of(k)
                },
    {
        if let Some(mut entry) = self.lookup(id) {
            entry.record_all(fields);
            self.put(id, entry);
        }
    }

    /// Span `id` was closed: its record, if any, goes with it.
    pub fn on_close(&mut self, id: u64)
        requires
            old(self).wf(),
        ensures
            final(self).wf(),
            final(self).writer() == old(self).writer(),
            forall|k: u64|
                #[trigger] final(self).record_of(k) == if k == id {
                    None
                } else {
                    old(self).record_of(k)
                },
    {
        if let Some(i) = self.position(id) {
            let ghost before = self.roots.entries@;
            self.roots.entries.swap_remove(i);
            proof {
                assert forall|k: u64| #[trigger] self.record_of(k) == if k == id {
                    None
                } else {
                    old(self).record_of(k)
                } by {
                    if k == id {
                        assert forall|j: int| 0 <= j < self.roots.entries@.len() implies #[trigger] self.roots.entries@[j].id != id by {
                            if j == i { assert(self.roots.entries@[j] == before[before.len() - 1]); }
                            else { assert(self.roots.entries@[j] == before[j]); }
                        }
                    } else if old(self).holds(k) {
                        let p = choose|p: int| 0 <= p < before.len() && before[p].id == k;
                        old(self).lemma_record_at(p);
                        let q = if p == before.len() - 1 { i as int } else { p };
                        assert(self.roots.entries@[q] == before[p]);
                        self.lemma_record_at(q);
                    } else {
                        assert forall|j: int| 0 <= j < self.roots.entries@.len() implies #[trigger] self.roots.entries@[j].id != k by {
                            if j == i { assert(self.roots.entries@[j] == before[before.len() - 1]); }
                            else { assert(self.roots.entries@[j] == before[j]); }
                        }
                    }
                }
            }
        }
    }

    fn put(&mut self, id: u64, entry: SpanEntry)
        requires
            old(self).wf(),
        ensures
            final(self).wf(),
            final(self).writer() == old(self).writer(),
            forall|k: u64|
                #[trigger] final(self).record_of(k) == if k == id {
                    Some(entry)
                } else {
                    old(self).record_of(k)
                },
    {
        let ghost before = self.roots.entries@;
        match self.position(id) {
            Some(i) => {
                self.roots.entries.set(i, RootEntry { id, entry });
                proof {
                    assert forall|k: u64| #[trigger] self.record_of(k) == if k == id {
                        Some(entry)
                    } else {
                        old(self).record_of(k)
                    } by {
                        if k == id {
                            self.lemma_record_at(i as int);
                        } else if old(self).holds(k) {
                            let p = choose|p: int| 0 <= p < before.len() && before[p].id == k;
                            old(self).lemma_record_at(p);
                            assert(self.roots.entries@[p] == before[p]);
                            self.lemma_record_at(p);
                        } else {
                            assert forall|j: int| 0 <= j < self.roots.entries@.len() implies #[trigger] self.roots.entries@[j].id != k by {
                                if j != i { assert(self.roots.entries@[j] == before[j]); }
                            }
                        }
                    }
                }
            },
            None => {
                self.roots.entries.push(RootEntry { id, entry });
                proof {
                    assert forall|k: u64| #[trigger] self.record_of(k) == if k == id {
                        Some(entry)
                    } else {
                        old(self).record_of(k)
                    } by {
                        let n = before.len() as int;
                        if k == id {
                            self.lemma_record_at(n);
                        } else if old(self).holds(k) {
                            let p = choose|p: int| 0 <= p < before.len() && before[p].id == k;
                            old(self).lemma_record_at(p);
                            assert(self.roots.entries@[p] == before[p]);
                            self.lemma_record_at(p);
                        } else {
                            assert forall|j: int| 0 <= j < self.roots.entries@.len() implies #[trigger] self.roots.entries@[j].id != k by {
                                if j < n { assert(self.roots.entries@[j] == before[j]); }
                            }
                        }
                    }
                }
            },
        }
    }

    /// The ids stamped on an event fired inside the stack `scope`.
    pub open spec fn event_ids(&self, scope: Seq<ScopeSpan>, fallback_trace: Option<u128>) -> (
        Option<u64>,
        Option<u64>,
    ) {
        let root = root_of(scope);
        let record = match root {
            Some(span) => self.record_of(span.id),
            None => None,
        };
        resolved_ids(record, root, fallback_trace)
    }

    /// Resolves the ids of an event fired inside `scope` (innermost span
    /// first); `fallback_trace` is the trace id of the tracing context that the
    /// event's parent span, or else its current span, carries.
    pub fn resolve_ids(&self, scope: &Vec<ScopeSpan>, fallback_trace: Option<u128>) -> (r: (
        Option<u64>,
        Option<u64>,
    ))
        requires
            self.wf(),
        ensures
            r == self.event_ids(scope@, fallback_trace),
    {
        match find_root(scope) {
            None => (None, None),
            Some(i) => {
                let root_id = scope[i].id;
                let rec = match self.lookup(root_id) {
                    Some(e) => e,
                    None => SpanEntry::new(),
                };
                let trace = match rec.trace_id {
                    Some(t) => Some(t),
                    None => match fallback_trace {
                        Some(t) => Some(trace_id_to_u64(t)),
                        None => None,
                    },
                };
                let span_id = match rec.span_id {
                    Some(s) => s,
                    None => root_id,
                };
                (trace, Some(span_id))
            },
        }
    }

    /// Handles an event: one JSON line for an event with a message, nothing for
    /// one without. `now_millis` is the instant of the event in milliseconds
    /// since the epoch; up to the end of the year 9999 a message always gives
    /// its line.
    pub fn on_event(
        &self,
        level: Level,
        message: Option<String>,
        scope: &Vec<ScopeSpan>,
        fallback_trace: Option<u128>,
        now_millis: u64,
    ) -> (r: Option<String>)
        requires
            self.wf(),
        ensures
            message is None ==> r is None,
            message is Some && now_millis <= LAST_MILLIS_OF_YEAR_9999 ==> r is Some,
            r is Some ==> ({
                let ids = self.event_ids(scope@, fallback_trace);
                r.unwrap()@ == line_text(level, json_quoted(message.unwrap()@), ids.0, ids.1,
                    now_millis, json_quoted(utc_text(second_of(now_millis))))
            }),
    {
        let text = match message {
            Some(m) => m,
            None => return None,
        };
        let mut entry = match LogEntry::new(level, now_millis) {
            Some(e) => e,
            None => return None,
        };
        let (trace_id, span_id) = self.resolve_ids(scope, fallback_trace);
        entry.trace_id = trace_id;
        entry.span_id = span_id;
        entry.message = text;
        Some(to_json_line(&entry))
    }
}

} // verus!
