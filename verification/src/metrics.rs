//! Remapping of Chronon's generic counter / gauge / event calls onto this crate's typed Spectra
//! schemas. Each `plan_*` function decides what is emitted; the host performs the emit.
use vstd::prelude::*;

use crate::events::{
    executor_error_fields, executor_error_view, fields_view, run_log_fields, run_log_view, sanitized,
    scheduler_log_fields, scheduler_log_view, FieldValue, FieldView,
};
use crate::labels::{
    bound_job_name_label, bounded_job_label, class_label, classify, error_class_from_labels,
    error_class_of_labels, is_error_class_label, is_hex_char, lemma_bounded_job_label_shape,
    lemma_error_class_bounded, ErrorClass,
};
use crate::text::str_eq;

verus! {

/// The label pairs of a `&[(&str, &str)]` slice, as character sequences.
pub open spec fn pairs_view<'a>(ls: Seq<(&'a str, &'a str)>) -> Seq<(Seq<char>, Seq<char>)> {
    ls.map_values(|p: (&'a str, &'a str)| (p.0@, p.1@))
}

/// The value of the first pair whose key is `key`.
pub open spec fn lookup(ls: Seq<(Seq<char>, Seq<char>)>, key: Seq<char>) -> Option<Seq<char>>
    decreases ls.len(),
{
    if ls.len() == 0 {
        None
    } else if ls[0].0 == key {
        Some(ls[0].1)
    } else {
        lookup(ls.drop_first(), key)
    }
}

/// An optional text, as characters.
pub open spec fn opt_view(o: Option<&str>) -> Option<Seq<char>> {
    match o {
        Some(s) => Some(s@),
        None => None,
    }
}

/// The value of the first label named `key`, or `dflt`.
pub open spec fn lookup_or(ls: Seq<(Seq<char>, Seq<char>)>, key: Seq<char>, dflt: Seq<char>) -> Seq<
    char,
> {
    match lookup(ls, key) {
        Some(v) => v,
        None => dflt,
    }
}

/// Dropping the first `i` pairs before `i` reaches a match keeps the lookup result.
pub proof fn lemma_lookup_skip(ls: Seq<(Seq<char>, Seq<char>)>, key: Seq<char>, i: int)
    requires
        0 <= i < ls.len(),
        ls[i].0 != key,
    ensures
        lookup(ls.subrange(i, ls.len() as int), key) == lookup(
            ls.subrange(i + 1, ls.len() as int),
            key,
        ),
{
    assert(ls.subrange(i, ls.len() as int).drop_first() =~= ls.subrange(i + 1, ls.len() as int));
}

/// The value of the first label named `key`.
pub fn label_value<'a>(labels: &'a [(&'a str, &'a str)], key: &str) -> (r: Option<&'a str>)
    ensures
        opt_view(r) == lookup(pairs_view(labels@), key@),
{
    let n = labels.len();
    let ghost pv = pairs_view(labels@);
    assert(pv.subrange(0, n as int) =~= pv);
    let mut i: usize = 0;
    while i < n
        invariant
            n == labels@.len() == pv.len(),
            pv == pairs_view(labels@),
            i <= n,
            lookup(pv, key@) == lookup(pv.subrange(i as int, n as int), key@),
        decreases n - i,
    {
        let (k, v) = labels[i];
        if str_eq(k, key) {
            assert(pv.subrange(i as int, n as int)[0] == pv[i as int]);
            return Some(v);
        }
        proof {
            lemma_lookup_skip(pv, key@, i as int);
        }
        i = i + 1;
    }
    assert(pv.subrange(n as int, n as int).len() == 0);
    None
}

/// The counter increment clamped into `0..=i64::MAX`.
pub open spec fn clamped_delta(delta: u64) -> i64 {
    if delta > i64::MAX as u64 {
        i64::MAX
    } else {
        delta as i64
    }
}

/// Saturating conversion of an unsigned counter increment into the signed delta Spectra stores.
pub fn counter_delta(delta: u64) -> (r: i64)
    ensures
        r == clamped_delta(delta),
        r as int == if delta as int > i64::MAX as int {
            i64::MAX as int
        } else {
            delta as int
        },
{
    if delta > i64::MAX as u64 {
        i64::MAX
    } else {
        delta as i64
    }
}

/// Label pairs of owned strings, as character sequences.
pub open spec fn string_pairs_view(ls: Seq<(String, String)>) -> Seq<(Seq<char>, Seq<char>)> {
    ls.map_values(|p: (String, String)| (p.0@, p.1@))
}

/// A counter increment to hand to Spectra: metric name, labels, delta.
#[derive(Debug)]
pub struct CounterEmit {
    pub name: String,
    pub labels: Vec<(String, String)>,
    pub delta: i64,
}

impl View for CounterEmit {
    type V = (Seq<char>, Seq<(Seq<char>, Seq<char>)>, i64);

    open spec fn view(&self) -> Self::V {
        (self.name@, string_pairs_view(self.labels@), self.delta)
    }
}

/// A gauge sample to hand to Spectra: metric name and labels (the value passes through).
#[derive(Debug)]
pub struct GaugeEmit {
    pub name: String,
    pub labels: Vec<(String, String)>,
}

impl View for GaugeEmit {
    type V = (Seq<char>, Seq<(Seq<char>, Seq<char>)>);

    open spec fn view(&self) -> Self::V {
        (self.name@, string_pairs_view(self.labels@))
    }
}

/// An event row to hand to Spectra: table name and field set.
#[derive(Debug)]
pub struct EventEmit {
    pub table: String,
    pub fields: Vec<(String, FieldValue)>,
}

impl View for EventEmit {
    type V = (Seq<char>, Seq<(Seq<char>, FieldView)>);

    open spec fn view(&self) -> Self::V {
        (self.table@, fields_view(self.fields@))
    }
}

/// What one `log_event` call emits: at most one event row and at most one counter increment.
#[derive(Debug)]
pub struct EventPlan {
    pub event: Option<EventEmit>,
    pub counter: Option<CounterEmit>,
}

/// An optional emit, by its view.
pub open spec fn opt_emit_view<T: View>(o: Option<T>) -> Option<T::V> {
    match o {
        Some(e) => Some(e@),
        None => None,
    }
}

/// The job a counter or gauge is about: `job_name`, else the legacy `job`, else `unknown`.
pub open spec fn job_of(ls: Seq<(Seq<char>, Seq<char>)>) -> Seq<char> {
    match lookup(ls, "job_name"@) {
        Some(v) => v,
        None => lookup_or(ls, "job"@, "unknown"@),
    }
}

/// The counter that a `record_counter(name, labels, delta)` call emits, given the process's
/// deployment shape; `None` for a name outside this crate's schemas.
pub open spec fn counter_plan(
    name: Seq<char>,
    ls: Seq<(Seq<char>, Seq<char>)>,
    delta: u64,
    shape: Seq<char>,
) -> Option<(Seq<char>, Seq<(Seq<char>, Seq<char>)>, i64)> {
    if name == "chronon_runs_started"@ || name == "chronon_runs_completed"@ {
        Some(
            (
                name,
                seq![("job_name"@, bounded_job_label(job_of(ls))), ("deployment_shape"@, shape)],
                clamped_delta(delta),
            ),
        )
    } else if name == "chronon_runs_failed"@ {
        Some(
            (
                name,
                seq![
                    ("job_name"@, bounded_job_label(job_of(ls))),
                    ("deployment_shape"@, shape),
                    ("error_class"@, error_class_of_labels(ls)),
                ],
                clamped_delta(delta),
            ),
        )
    } else if name == "chronon_scheduler_ticks"@ {
        Some((name, seq![("deployment_shape"@, shape)], clamped_delta(delta)))
    } else if name == "chronon_remote_errors"@ {
        Some(
            (
                name,
                seq![("operation"@, lookup_or(ls, "operation"@, "unknown"@))],
                clamped_delta(delta),
            ),
        )
    } else if name == "chronon_partition_assignments"@ {
        Some(
            (
                name,
                seq![("partition"@, lookup_or(ls, "partition"@, "unknown"@))],
                clamped_delta(delta),
            ),
        )
    } else {
        None
    }
}

fn label_or<'a>(labels: &'a [(&'a str, &'a str)], key: &str, dflt: &'a str) -> (r: &'a str)
    ensures
        r@ == lookup_or(pairs_view(labels@), key@, dflt@),
{
    match label_value(labels, key) {
        Some(v) => v,
        None => dflt,
    }
}

fn job_label(labels: &[(&str, &str)]) -> (r: String)
    ensures
        r@ == bounded_job_label(job_of(pairs_view(labels@))),
{
    let raw = match label_value(labels, "job_name") {
        Some(v) => v,
        None => label_or(labels, "job", "unknown"),
    };
    bound_job_name_label(raw)
}

fn pair(key: &str, value: &str) -> (r: (String, String))
    ensures
        r.0@ == key@,
        r.1@ == value@,
{
    (key.to_owned(), value.to_owned())
}

/// Decide the counter emitted for a `TelemetrySink::record_counter` call: the allowlisted
/// `deployment_shape` label is added and the labels are remapped to the schema's label set.
pub fn plan_counter(name: &str, labels: &[(&str, &str)], delta: u64, deployment_shape: &str) -> (r:
    Option<CounterEmit>)
    ensures
        opt_emit_view(r) == counter_plan(name@, pairs_view(labels@), delta, deployment_shape@),
{
    let ghost ls = pairs_view(labels@);
    let mut out: Vec<(String, String)> = Vec::new();
    if str_eq(name, "chronon_runs_started") || str_eq(name, "chronon_runs_completed") {
        out.push(("job_name".to_owned(), job_label(labels)));
        out.push(pair("deployment_shape", deployment_shape));
    } else if str_eq(name, "chronon_runs_failed") {
        out.push(("job_name".to_owned(), job_label(labels)));
        out.push(pair("deployment_shape", deployment_shape));
        out.push(pair("error_class", error_class_from_labels(labels)));
    } else if str_eq(name, "chronon_scheduler_ticks") {
        out.push(pair("deployment_shape", deployment_shape));
    } else if str_eq(name, "chronon_remote_errors") {
        out.push(pair("operation", label_or(labels, "operation", "unknown")));
    } else if str_eq(name, "chronon_partition_assignments") {
        out.push(pair("partition", label_or(labels, "partition", "unknown")));
    } else {
        return None;
    }
    let r = CounterEmit { name: name.to_owned(), labels: out, delta: counter_delta(delta) };
    assert(r@ =~= counter_plan(name@, ls, delta, deployment_shape@)->0);
    Some(r)
}

/// The gauge that a `record_gauge(name, labels, _)` call emits; `None` for a name outside this
/// crate's schemas.
pub open spec fn gauge_plan(name: Seq<char>, ls: Seq<(Seq<char>, Seq<char>)>) -> Option<
    (Seq<char>, Seq<(Seq<char>, Seq<char>)>),
> {
    if name == "chronon_run_duration_ms"@ {
        Some((name, seq![("job_name"@, bounded_job_label(job_of(ls)))]))
    } else if name == "chronon_partition_assignments"@ {
        Some((name, seq![("partition"@, lookup_or(ls, "partition"@, "unknown"@))]))
    } else {
        None
    }
}

/// Decide the gauge emitted for a `TelemetrySink::record_gauge` call.
pub fn plan_gauge(name: &str, labels: &[(&str, &str)]) -> (r: Option<GaugeEmit>)
    ensures
        opt_emit_view(r) == gauge_plan(name@, pairs_view(labels@)),
{
    let mut out: Vec<(String, String)> = Vec::new();
    if str_eq(name, "chronon_run_duration_ms") {
        out.push(("job_name".to_owned(), job_label(labels)));
    } else if str_eq(name, "chronon_partition_assignments") {
        out.push(pair("partition", label_or(labels, "partition", "unknown")));
    } else {
        return None;
    }
    let r = GaugeEmit { name: name.to_owned(), labels: out };
    assert(r@ =~= gauge_plan(name@, pairs_view(labels@))->0);
    Some(r)
}

/// `i` is the first position of key `k` in `es`.
pub open spec fn first_key_at(es: Seq<(Seq<char>, FieldView)>, k: Seq<char>, i: int) -> bool {
    &&& 0 <= i < es.len()
    &&& es[i].0 == k
    &&& forall|j: int| 0 <= j < i ==> es[j].0 != k
}

/// `es` with key `k` set to `v`: the first entry of `k` takes the new value, or the pair is
/// appended when `k` is absent (what inserting into a JSON object does).
pub open spec fn upsert(es: Seq<(Seq<char>, FieldView)>, k: Seq<char>, v: FieldView) -> Seq<
    (Seq<char>, FieldView),
> {
    if exists|i: int| first_key_at(es, k, i) {
        es.update(choose|i: int| first_key_at(es, k, i), (k, v))
    } else {
        es.push((k, v))
    }
}

/// The JSON object that folding string pairs into an empty map gives, a later pair overriding an
/// earlier one with the same key.
pub open spec fn pass_through(ls: Seq<(Seq<char>, Seq<char>)>) -> Seq<(Seq<char>, FieldView)>
    decreases ls.len(),
{
    if ls.len() == 0 {
        seq![]
    } else {
        upsert(pass_through(ls.drop_last()), ls.last().0, FieldView::Text(ls.last().1))
    }
}

fn upsert_field(es: &mut Vec<(String, FieldValue)>, key: &str, value: &str)
    ensures
        fields_view(final(es)@) == upsert(fields_view(old(es)@), key@, FieldView::Text(value@)),
{
    let ghost fv = fields_view(old(es)@);
    let n = es.len();
    let mut i: usize = 0;
    while i < n
        invariant
            es@ == old(es)@,
            n == es@.len() == fv.len(),
            fv == fields_view(es@),
            i <= n,
            forall|j: int| 0 <= j < i ==> fv[j].0 != key@,
        decreases n - i,
    {
        if str_eq(es[i].0.as_str(), key) {
            assert(first_key_at(fv, key@, i as int));
            assert forall|j: int| first_key_at(fv, key@, j) implies j == i by {
                if j < i {
                } else if j > i {
                    assert(fv[i as int].0 == key@);
                }
            }
            assert((choose|j: int| first_key_at(fv, key@, j)) == i);
            es.set(i, (key.to_owned(), FieldValue::Text(value.to_owned())));
            assert(fields_view(es@) =~= fv.update(i as int, (key@, FieldView::Text(value@))));
            return ;
        }
        i = i + 1;
    }
    assert forall|j: int| !first_key_at(fv, key@, j) by {
        if 0 <= j < n {
            assert(fv[j].0 != key@);
        }
    }
    es.push((key.to_owned(), FieldValue::Text(value.to_owned())));
    assert(fields_view(es@) =~= fv.push((key@, FieldView::Text(value@))));
}

/// Fold label pairs into a JSON-object field set, later keys overriding earlier ones.
pub fn pass_through_fields(fields: &[(&str, &str)]) -> (r: Vec<(String, FieldValue)>)
    ensures
        fields_view(r@) == pass_through(pairs_view(fields@)),
{
    let ghost ls = pairs_view(fields@);
    let mut r: Vec<(String, FieldValue)> = Vec::new();
    let n = fields.len();
    assert(fields_view(r@) =~= pass_through(ls.take(0)));
    let mut i: usize = 0;
    while i < n
        invariant
            n == fields@.len() == ls.len(),
            ls == pairs_view(fields@),
            i <= n,
            fields_view(r@) == pass_through(ls.take(i as int)),
        decreases n - i,
    {
        let (k, v) = fields[i];
        upsert_field(&mut r, k, v);
        assert(ls.take(i + 1).drop_last() =~= ls.take(i as int));
        i = i + 1;
    }
    assert(ls.take(n as int) =~= ls);
    r
}

/// What a `log_event(schema, fields)` call emits, given the process's deployment shape: the
/// remapped event row, and for an executor error also the `chronon_runs_failed` increment.
pub open spec fn event_plan(
    schema: Seq<char>,
    ls: Seq<(Seq<char>, Seq<char>)>,
    shape: Seq<char>,
) -> (Option<(Seq<char>, Seq<(Seq<char>, FieldView)>)>, Option<
    (Seq<char>, Seq<(Seq<char>, Seq<char>)>, i64),
>) {
    if schema == "chronon_executor_error"@ {
        let job = bounded_job_label(lookup_or(ls, "job_name"@, "unknown"@));
        let error = lookup_or(ls, "message"@, "unknown error"@);
        (
            Some(
                (
                    "chronon_executor_error"@,
                    executor_error_view(
                        job,
                        lookup_or(ls, "run_id"@, ""@),
                        lookup_or(ls, "script_name"@, ""@),
                        lookup_or(ls, "phase"@, "script_invoke"@),
                        error,
                    ),
                ),
            ),
            Some(
                (
                    "chronon_runs_failed"@,
                    seq![
                        ("job_name"@, job),
                        ("deployment_shape"@, shape),
                        ("error_class"@, class_label(classify(error))),
                    ],
                    1,
                ),
            ),
        )
    } else if schema == "chronon_run_failed"@ {
        (
            Some(
                (
                    "chronon_run_log"@,
                    run_log_view(
                        lookup_or(ls, "run_id"@, ""@),
                        lookup_or(ls, "job"@, "unknown"@),
                        ""@,
                        "failed"@,
                        0,
                        lookup_or(ls, "error"@, "run failed"@),
                    ),
                ),
            ),
            None,
        )
    } else if schema == "chronon_scheduler_warn"@ || schema == "chronon_scheduler_info"@ || schema
        == "chronon_scheduler_error"@ {
        (
            Some(
                (
                    "chronon_scheduler_log"@,
                    scheduler_log_view(
                        lookup_or(ls, "component"@, "scheduler"@),
                        lookup_or(ls, "message"@, ""@),
                    ),
                ),
            ),
            None,
        )
    } else if schema == "chronon_run_log"@ || schema == "chronon_scheduler_log"@ {
        (Some((schema, pass_through(ls))), None)
    } else {
        (None, None)
    }
}

/// Decide what a `TelemetrySink::log_event` call emits, remapping legacy schema and field names
/// onto this crate's typed event tables.
pub fn plan_event(schema: &str, fields: &[(&str, &str)], deployment_shape: &str) -> (r: EventPlan)
    ensures
        (opt_emit_view(r.event), opt_emit_view(r.counter)) == event_plan(
            schema@,
            pairs_view(fields@),
            deployment_shape@,
        ),
{
    let ghost ls = pairs_view(fields@);
    if str_eq(schema, "chronon_executor_error") {
        let job_name = bound_job_name_label(label_or(fields, "job_name", "unknown"));
        let run_id = label_or(fields, "run_id", "");
        let script_name = label_or(fields, "script_name", "");
        let operation = label_or(fields, "phase", "script_invoke");
        let error = label_or(fields, "message", "unknown error");
        let event = EventEmit {
            table: "chronon_executor_error".to_owned(),
            fields: executor_error_fields(job_name.as_str(), run_id, script_name, operation, error),
        };
        let error_class = ErrorClass::from_message(error).as_str();
        let mut labels: Vec<(String, String)> = Vec::new();
        labels.push(pair("job_name", job_name.as_str()));
        labels.push(pair("deployment_shape", deployment_shape));
        labels.push(pair("error_class", error_class));
        let counter = CounterEmit { name: "chronon_runs_failed".to_owned(), labels, delta: 1 };
        assert(counter@ =~= event_plan(schema@, ls, deployment_shape@).1->0);
        EventPlan { event: Some(event), counter: Some(counter) }
    } else if str_eq(schema, "chronon_run_failed") {
        let run_id = label_or(fields, "run_id", "");
        let job_name = label_or(fields, "job", "unknown");
        let message = label_or(fields, "error", "run failed");
        let event = EventEmit {
            table: "chronon_run_log".to_owned(),
            fields: run_log_fields(run_id, job_name, "", "failed", 0, message),
        };
        EventPlan { event: Some(event), counter: None }
    } else if str_eq(schema, "chronon_scheduler_warn") || str_eq(schema, "chronon_scheduler_info")
        || str_eq(schema, "chronon_scheduler_error") {
        let component = label_or(fields, "component", "scheduler");
        let message = label_or(fields, "message", "");
        let event = EventEmit {
            table: "chronon_scheduler_log".to_owned(),
            fields: scheduler_log_fields(component, message),
        };
        EventPlan { event: Some(event), counter: None }
    } else if str_eq(schema, "chronon_run_log") || str_eq(schema, "chronon_scheduler_log") {
        let event = EventEmit { table: schema.to_owned(), fields: pass_through_fields(fields) };
        EventPlan { event: Some(event), counter: None }
    } else {
        EventPlan { event: None, counter: None }
    }
}

/// The value of the last pair whose key is `k`.
pub open spec fn last_value(ls: Seq<(Seq<char>, Seq<char>)>, k: Seq<char>) -> Option<Seq<char>>
    decreases ls.len(),
{
    if ls.len() == 0 {
        None
    } else if ls.last().0 == k {
        Some(ls.last().1)
    } else {
        last_value(ls.drop_last(), k)
    }
}

/// No key occurs twice.
pub open spec fn keys_unique(es: Seq<(Seq<char>, FieldView)>) -> bool {
    forall|i: int, j: int| 0 <= i < j < es.len() ==> #[trigger] es[i].0 != #[trigger] es[j].0
}

/// Key `k` occurs in `es`.
pub open spec fn has_key(es: Seq<(Seq<char>, FieldView)>, k: Seq<char>) -> bool {
    exists|i: int| 0 <= i < es.len() && #[trigger] es[i].0 == k
}

/// A field set passed through to `chronon_run_log` / `chronon_scheduler_log` is a JSON object:
/// each key occurs once, exactly the keys of the given fields occur, and a key repeated in the
/// fields carries its last value.
pub proof fn lemma_pass_through_last_wins(ls: Seq<(Seq<char>, Seq<char>)>)
    ensures
        keys_unique(pass_through(ls)),
        forall|k: Seq<char>| #[trigger] has_key(pass_through(ls), k) == (last_value(ls, k) is Some),
        forall|i: int|
            0 <= i < pass_through(ls).len() ==> #[trigger] pass_through(ls)[i].1 == FieldView::Text(
                last_value(ls, pass_through(ls)[i].0)->0,
            ),
    decreases ls.len(),
{
    if ls.len() > 0 {
        let prev = ls.drop_last();
        let es = pass_through(prev);
        let k0 = ls.last().0;
        let v0 = FieldView::Text(ls.last().1);
        lemma_pass_through_last_wins(prev);
        let pt = pass_through(ls);
        assert(pt == upsert(es, k0, v0));
        if exists|i: int| first_key_at(es, k0, i) {
            let i0 = choose|i: int| first_key_at(es, k0, i);
            assert(pt == es.update(i0, (k0, v0)));
            assert forall|i: int, j: int| 0 <= i < j < pt.len() implies #[trigger] pt[i].0
                != #[trigger] pt[j].0 by {
                assert(pt[i].0 == es[i].0);
                assert(pt[j].0 == es[j].0);
            }
            assert forall|k: Seq<char>| #[trigger] has_key(pt, k) == (last_value(ls, k) is Some) by {
                if k == k0 {
                    assert(pt[i0].0 == k0);
                } else {
                    if has_key(pt, k) {
                        let i = choose|i: int| 0 <= i < pt.len() && #[trigger] pt[i].0 == k;
                        assert(es[i].0 == k);
                    }
                    if has_key(es, k) {
                        let i = choose|i: int| 0 <= i < es.len() && #[trigger] es[i].0 == k;
                        assert(pt[i].0 == k);
                    }
                }
            }
            assert forall|i: int| 0 <= i < pt.len() implies #[trigger] pt[i].1 == FieldView::Text(
                last_value(ls, pt[i].0)->0,
            ) by {
                if i != i0 {
                    assert(es[i].0 != es[i0].0 || i == i0);
                    assert(pt[i] == es[i]);
                }
            }
        } else {
            assert(!has_key(es, k0)) by {
                if has_key(es, k0) {
                    let i = choose|i: int| 0 <= i < es.len() && #[trigger] es[i].0 == k0;
                    assert(first_key_at(es, k0, i));
                }
            }
            assert(pt == es.push((k0, v0)));
            assert forall|i: int, j: int| 0 <= i < j < pt.len() implies #[trigger] pt[i].0
                != #[trigger] pt[j].0 by {
                if j == es.len() {
                    assert(pt[i].0 == es[i].0);
                    assert(es[i].0 != k0);
                } else {
                    assert(pt[i].0 == es[i].0);
                    assert(pt[j].0 == es[j].0);
                }
            }
            assert forall|k: Seq<char>| #[trigger] has_key(pt, k) == (last_value(ls, k) is Some) by {
                if k == k0 {
                    assert(pt[es.len() as int].0 == k0);
                } else {
                    if has_key(pt, k) {
                        let i = choose|i: int| 0 <= i < pt.len() && #[trigger] pt[i].0 == k;
                        assert(es[i].0 == k);
                    }
                    if has_key(es, k) {
                        let i = choose|i: int| 0 <= i < es.len() && #[trigger] es[i].0 == k;
                        assert(pt[i].0 == k);
                    }
                }
            }
            assert forall|i: int| 0 <= i < pt.len() implies #[trigger] pt[i].1 == FieldView::Text(
                last_value(ls, pt[i].0)->0,
            ) by {
                if i < es.len() {
                    assert(pt[i] == es[i]);
                    assert(es[i].0 != k0);
                }
            }
        }
    }
}

/// An executor error row always comes with one `chronon_runs_failed` increment for the same
/// (bounded) job, the process's deployment shape, and the class of the row's error message.
pub proof fn lemma_executor_error_counts_failure(
    ls: Seq<(Seq<char>, Seq<char>)>,
    shape: Seq<char>,
)
    ensures
        ({
            let (event, counter) = event_plan("chronon_executor_error"@, ls, shape);
            let error = lookup_or(ls, "message"@, "unknown error"@);
            let job = bounded_job_label(lookup_or(ls, "job_name"@, "unknown"@));
            &&& event matches Some((table, fields))
            &&& table == "chronon_executor_error"@
            &&& fields[0] == ("job_name"@, FieldView::Text(job))
            &&& counter == Some(
                (
                    "chronon_runs_failed"@,
                    seq![
                        ("job_name"@, job),
                        ("deployment_shape"@, shape),
                        ("error_class"@, class_label(classify(error))),
                    ],
                    1i64,
                ),
            )
        }),
{
}

/// A job label value: `unknown`, or `h` with 16 lowercase hexadecimal digits.
pub open spec fn is_job_label_value(v: Seq<char>) -> bool {
    v == "unknown"@ || (v.len() == 17 && v[0] == 'h' && forall|i: int|
        1 <= i < 17 ==> is_hex_char(#[trigger] v[i]))
}

/// Every counter this crate emits is under the name it was recorded with, with a nonnegative
/// delta, a bounded `job_name`, an allowed `error_class`, and the process's `deployment_shape`.
pub proof fn lemma_counter_labels_bounded(
    name: Seq<char>,
    ls: Seq<(Seq<char>, Seq<char>)>,
    delta: u64,
    shape: Seq<char>,
)
    ensures
        counter_plan(name, ls, delta, shape) matches Some((n, labels, d)) ==> {
            &&& n == name
            &&& d >= 0
            &&& forall|i: int|
                0 <= i < labels.len() ==> {
                    &&& (#[trigger] labels[i]).0 == "job_name"@ ==> is_job_label_value(labels[i].1)
                    &&& labels[i].0 == "error_class"@ ==> is_error_class_label(labels[i].1)
                    &&& labels[i].0 == "deployment_shape"@ ==> labels[i].1 == shape
                }
        },
{
    reveal_strlit("job_name");
    reveal_strlit("error_class");
    reveal_strlit("deployment_shape");
    reveal_strlit("operation");
    reveal_strlit("partition");
    lemma_bounded_job_label_shape(job_of(ls));
    lemma_error_class_bounded(ls);
    let jn = "job_name"@;
    let ec = "error_class"@;
    let ds = "deployment_shape"@;
    let op = "operation"@;
    let pa = "partition"@;
    assert(jn != ds && jn != ec && ec != ds) by {
        assert(jn.len() == 8 && ec.len() == 11 && ds.len() == 16);
    }
    assert(op != jn && op != ec && op != ds) by {
        assert(op.len() == 9 && op[0] != ec[0]);
    }
    assert(pa != jn && pa != ec && pa != ds) by {
        assert(pa.len() == 9 && pa[0] != ec[0]);
    }
    if let Some((n, labels, d)) = counter_plan(name, ls, delta, shape) {
        assert forall|i: int| 0 <= i < labels.len() implies {
            &&& (#[trigger] labels[i]).0 == "job_name"@ ==> is_job_label_value(labels[i].1)
            &&& labels[i].0 == "error_class"@ ==> is_error_class_label(labels[i].1)
            &&& labels[i].0 == "deployment_shape"@ ==> labels[i].1 == shape
        } by {
            if labels[i].0 == jn {
                assert(labels[i].1 == bounded_job_label(job_of(ls)));
            }
        }
    }
}

/// `i` is the position of the first pair whose key is `k`.
pub open spec fn first_pair_at(ls: Seq<(Seq<char>, Seq<char>)>, k: Seq<char>, i: int) -> bool {
    &&& 0 <= i < ls.len()
    &&& ls[i].0 == k
    &&& forall|j: int| 0 <= j < i ==> ls[j].0 != k
}

/// Some pair has key `k`.
pub open spec fn has_pair(ls: Seq<(Seq<char>, Seq<char>)>, k: Seq<char>) -> bool {
    exists|i: int| 0 <= i < ls.len() && #[trigger] ls[i].0 == k
}

/// The value of the first pair with key `k`, or `d` when no pair has that key.
pub open spec fn first_value_or(ls: Seq<(Seq<char>, Seq<char>)>, k: Seq<char>, d: Seq<char>) -> Seq<
    char,
> {
    if has_pair(ls, k) {
        ls[choose|i: int| first_pair_at(ls, k, i)].1
    } else {
        d
    }
}

proof fn lemma_first_pair_exists(ls: Seq<(Seq<char>, Seq<char>)>, k: Seq<char>)
    requires
        has_pair(ls, k),
    ensures
        exists|i: int| first_pair_at(ls, k, i),
    decreases ls.len(),
{
    if ls[0].0 == k {
        assert(first_pair_at(ls, k, 0));
    } else {
        let t = ls.drop_first();
        let w = choose|i: int| 0 <= i < ls.len() && #[trigger] ls[i].0 == k;
        assert(t[w - 1].0 == k);
        lemma_first_pair_exists(t, k);
        let i = choose|i: int| first_pair_at(t, k, i);
        assert forall|j: int| 0 <= j < i + 1 implies ls[j].0 != k by {
            if j > 0 {
                assert(ls[j] == t[j - 1]);
            }
        }
        assert(first_pair_at(ls, k, i + 1));
    }
}

/// The value that `lookup` finds is the value of the first pair with that key.
pub proof fn lemma_lookup_or_first(ls: Seq<(Seq<char>, Seq<char>)>, k: Seq<char>, d: Seq<char>)
    ensures
        lookup_or(ls, k, d) == first_value_or(ls, k, d),
        lookup(ls, k) is Some <==> has_pair(ls, k),
    decreases ls.len(),
{
    if ls.len() > 0 {
        let t = ls.drop_first();
        lemma_lookup_or_first(t, k, d);
        if ls[0].0 == k {
            assert(first_pair_at(ls, k, 0));
            assert(has_pair(ls, k));
            let c = choose|i: int| first_pair_at(ls, k, i);
            assert(c == 0);
        } else {
            assert(has_pair(ls, k) == has_pair(t, k)) by {
                if has_pair(ls, k) {
                    let w = choose|i: int| 0 <= i < ls.len() && #[trigger] ls[i].0 == k;
                    assert(t[w - 1].0 == k);
                }
                if has_pair(t, k) {
                    let w = choose|i: int| 0 <= i < t.len() && #[trigger] t[i].0 == k;
                    assert(ls[w + 1].0 == k);
                }
            }
            if has_pair(ls, k) {
                lemma_first_pair_exists(ls, k);
                lemma_first_pair_exists(t, k);
                let c = choose|i: int| first_pair_at(ls, k, i);
                let ct = choose|i: int| first_pair_at(t, k, i);
                assert(first_pair_at(ls, k, ct + 1)) by {
                    assert forall|j: int| 0 <= j < ct + 1 implies ls[j].0 != k by {
                        if j > 0 {
                            assert(ls[j] == t[j - 1]);
                        }
                    }
                }
                assert(c == ct + 1) by {
                    if c < ct + 1 {
                        assert(ls[c].0 == k);
                    } else if c > ct + 1 {
                        assert(ls[ct + 1].0 == k);
                    }
                }
            }
        }
    }
}

/// The job a counter or gauge names: its first `job_name` label, else its first `job` label,
/// else `unknown`.
pub open spec fn named_job(ls: Seq<(Seq<char>, Seq<char>)>) -> Seq<char> {
    if has_pair(ls, "job_name"@) {
        first_value_or(ls, "job_name"@, ""@)
    } else {
        first_value_or(ls, "job"@, "unknown"@)
    }
}

proof fn lemma_named_job(ls: Seq<(Seq<char>, Seq<char>)>)
    ensures
        job_of(ls) == named_job(ls),
{
    lemma_lookup_or_first(ls, "job_name"@, ""@);
    lemma_lookup_or_first(ls, "job"@, "unknown"@);
}

/// The delta `d` clamped to `i64::MAX`, as an integer.
pub open spec fn saturated(d: u64) -> int {
    if d as int > i64::MAX as int {
        i64::MAX as int
    } else {
        d as int
    }
}

/// What each counter carries: the runs counters the bounded job (first `job_name`, else first
/// `job`, else `unknown`) and the deployment shape, `chronon_runs_failed` also the error class;
/// scheduler ticks only the shape; remote errors the first `operation` label; partition
/// assignments the first `partition` label (`unknown` when absent); the delta saturates at
/// `i64::MAX`; any other name emits nothing.
pub proof fn lemma_counter_plan_law(
    ls: Seq<(Seq<char>, Seq<char>)>,
    delta: u64,
    shape: Seq<char>,
    name: Seq<char>,
)
    ensures
        ({
            let job = bounded_job_label(named_job(ls));
            &&& counter_plan("chronon_runs_started"@, ls, delta, shape) matches Some((n, l, d)) && n
                == "chronon_runs_started"@ && l == seq![("job_name"@, job), ("deployment_shape"@, shape)]
                && d as int == saturated(delta)
            &&& counter_plan("chronon_runs_completed"@, ls, delta, shape) matches Some((n, l, d)) && n
                == "chronon_runs_completed"@ && l == seq![("job_name"@, job), ("deployment_shape"@, shape)]
                && d as int == saturated(delta)
            &&& counter_plan("chronon_runs_failed"@, ls, delta, shape) matches Some((n, l, d)) && n
                == "chronon_runs_failed"@ && l == seq![
                ("job_name"@, job),
                ("deployment_shape"@, shape),
                ("error_class"@, error_class_of_labels(ls)),
            ] && d as int == saturated(delta)
            &&& counter_plan("chronon_scheduler_ticks"@, ls, delta, shape) matches Some((n, l, d))
                && n == "chronon_scheduler_ticks"@ && l == seq![("deployment_shape"@, shape)] && d as int
                == saturated(delta)
            &&& counter_plan("chronon_remote_errors"@, ls, delta, shape) matches Some((n, l, d)) && n
                == "chronon_remote_errors"@ && l == seq![
                ("operation"@, first_value_or(ls, "operation"@, "unknown"@)),
            ] && d as int == saturated(delta)
            &&& counter_plan("chronon_partition_assignments"@, ls, delta, shape) matches Some(
                (n, l, d),
            ) && n == "chronon_partition_assignments"@ && l == seq![
                ("partition"@, first_value_or(ls, "partition"@, "unknown"@)),
            ] && d as int == saturated(delta)
        }),
        !(name == "chronon_runs_started"@ || name == "chronon_runs_completed"@ || name
            == "chronon_runs_failed"@ || name == "chronon_scheduler_ticks"@ || name
            == "chronon_remote_errors"@ || name == "chronon_partition_assignments"@)
            ==> counter_plan(name, ls, delta, shape) is None,
{
    reveal_strlit("chronon_runs_started");
    reveal_strlit("chronon_runs_completed");
    reveal_strlit("chronon_runs_failed");
    reveal_strlit("chronon_scheduler_ticks");
    reveal_strlit("chronon_remote_errors");
    reveal_strlit("chronon_partition_assignments");
    reveal_strlit("chronon_run_duration_ms");
    lemma_named_job(ls);
    lemma_lookup_or_first(ls, "operation"@, "unknown"@);
    lemma_lookup_or_first(ls, "partition"@, "unknown"@);
}

/// What each gauge carries: the run duration the bounded job, partition assignments the first
/// `partition` label (`unknown` when absent); any other name emits nothing.
pub proof fn lemma_gauge_plan_law(ls: Seq<(Seq<char>, Seq<char>)>, name: Seq<char>)
    ensures
        gauge_plan("chronon_run_duration_ms"@, ls) == Some(
            (
                "chronon_run_duration_ms"@,
                seq![("job_name"@, bounded_job_label(named_job(ls)))],
            ),
        ),
        gauge_plan("chronon_partition_assignments"@, ls) == Some(
            (
                "chronon_partition_assignments"@,
                seq![("partition"@, first_value_or(ls, "partition"@, "unknown"@))],
            ),
        ),
        !(name == "chronon_run_duration_ms"@ || name == "chronon_partition_assignments"@)
            ==> gauge_plan(name, ls) is None,
{
    reveal_strlit("chronon_runs_started");
    reveal_strlit("chronon_runs_completed");
    reveal_strlit("chronon_runs_failed");
    reveal_strlit("chronon_scheduler_ticks");
    reveal_strlit("chronon_remote_errors");
    reveal_strlit("chronon_partition_assignments");
    reveal_strlit("chronon_run_duration_ms");
    lemma_named_job(ls);
    lemma_lookup_or_first(ls, "partition"@, "unknown"@);
}

/// A failed run becomes one `chronon_run_log` row: its run id is the first `run_id` field ("" when
/// absent), its job the first `job` field (`unknown` when absent), no script, status `failed`,
/// duration 0, and the sanitised first `error` field (`run failed` when absent); no counter.
pub proof fn lemma_run_failed_row(ls: Seq<(Seq<char>, Seq<char>)>, shape: Seq<char>)
    ensures
        event_plan("chronon_run_failed"@, ls, shape) == (
            Some(
                (
                    "chronon_run_log"@,
                    seq![
                        ("run_id"@, FieldView::Text(first_value_or(ls, "run_id"@, ""@))),
                        ("job_name"@, FieldView::Text(first_value_or(ls, "job"@, "unknown"@))),
                        ("script_name"@, FieldView::Text(""@)),
                        ("status"@, FieldView::Text("failed"@)),
                        ("duration_ms"@, FieldView::Int(0)),
                        (
                            "message"@,
                            FieldView::Text(
                                sanitized(first_value_or(ls, "error"@, "run failed"@)),
                            ),
                        ),
                    ],
                ),
            ),
            None::<(Seq<char>, Seq<(Seq<char>, Seq<char>)>, i64)>,
        ),
{
    reveal_strlit("chronon_executor_error");
    reveal_strlit("chronon_run_failed");
    reveal_strlit("chronon_scheduler_warn");
    reveal_strlit("chronon_scheduler_info");
    reveal_strlit("chronon_scheduler_error");
    reveal_strlit("chronon_run_log");
    reveal_strlit("chronon_scheduler_log");
    assert("chronon_run_failed"@.len() == 18 && "chronon_executor_error"@.len() == 22);
    lemma_lookup_or_first(ls, "run_id"@, ""@);
    lemma_lookup_or_first(ls, "job"@, "unknown"@);
    lemma_lookup_or_first(ls, "error"@, "run failed"@);
    let f = (event_plan("chronon_run_failed"@, ls, shape).0->0).1;
    assert(f =~= seq![
        ("run_id"@, FieldView::Text(first_value_or(ls, "run_id"@, ""@))),
        ("job_name"@, FieldView::Text(first_value_or(ls, "job"@, "unknown"@))),
        ("script_name"@, FieldView::Text(""@)),
        ("status"@, FieldView::Text("failed"@)),
        ("duration_ms"@, FieldView::Int(0)),
        ("message"@, FieldView::Text(sanitized(first_value_or(ls, "error"@, "run failed"@)))),
    ]);
}

/// An executor error becomes one `chronon_executor_error` row (bounded first `job_name`, first
/// `run_id`, first `script_name`, operation from the first `phase`, sanitised first `message`,
/// with defaults `unknown`, "", "", `script_invoke`, `unknown error`) and one
/// `chronon_runs_failed` increment of 1 for the same job, the shape, and the class of the message.
pub proof fn lemma_executor_error_row(ls: Seq<(Seq<char>, Seq<char>)>, shape: Seq<char>)
    ensures
        ({
            let job = bounded_job_label(first_value_or(ls, "job_name"@, "unknown"@));
            let error = first_value_or(ls, "message"@, "unknown error"@);
            event_plan("chronon_executor_error"@, ls, shape) == (
                Some(
                    (
                        "chronon_executor_error"@,
                        seq![
                            ("job_name"@, FieldView::Text(job)),
                            ("run_id"@, FieldView::Text(first_value_or(ls, "run_id"@, ""@))),
                            (
                                "script_name"@,
                                FieldView::Text(first_value_or(ls, "script_name"@, ""@)),
                            ),
                            (
                                "operation"@,
                                FieldView::Text(first_value_or(ls, "phase"@, "script_invoke"@)),
                            ),
                            ("error"@, FieldView::Text(sanitized(error))),
                        ],
                    ),
                ),
                Some(
                    (
                        "chronon_runs_failed"@,
                        seq![
                            ("job_name"@, job),
                            ("deployment_shape"@, shape),
                            ("error_class"@, class_label(classify(error))),
                        ],
                        1i64,
                    ),
                ),
            )
        }),
{
    reveal_strlit("chronon_executor_error");
    reveal_strlit("chronon_run_failed");
    reveal_strlit("chronon_scheduler_warn");
    reveal_strlit("chronon_scheduler_info");
    reveal_strlit("chronon_scheduler_error");
    reveal_strlit("chronon_run_log");
    reveal_strlit("chronon_scheduler_log");
    lemma_lookup_or_first(ls, "job_name"@, "unknown"@);
    lemma_lookup_or_first(ls, "message"@, "unknown error"@);
    lemma_lookup_or_first(ls, "run_id"@, ""@);
    lemma_lookup_or_first(ls, "script_name"@, ""@);
    lemma_lookup_or_first(ls, "phase"@, "script_invoke"@);
    let job = bounded_job_label(first_value_or(ls, "job_name"@, "unknown"@));
    let error = first_value_or(ls, "message"@, "unknown error"@);
    let f = (event_plan("chronon_executor_error"@, ls, shape).0->0).1;
    assert(f =~= seq![
        ("job_name"@, FieldView::Text(job)),
        ("run_id"@, FieldView::Text(first_value_or(ls, "run_id"@, ""@))),
        ("script_name"@, FieldView::Text(first_value_or(ls, "script_name"@, ""@))),
        ("operation"@, FieldView::Text(first_value_or(ls, "phase"@, "script_invoke"@))),
        ("error"@, FieldView::Text(sanitized(error))),
    ]);
}

/// Scheduler warnings, infos and errors all become one `chronon_scheduler_log` row with the first
/// `component` field (`scheduler` when absent) and the sanitised first `message` field ("" when
/// absent); no counter.
pub proof fn lemma_scheduler_rows(ls: Seq<(Seq<char>, Seq<char>)>, shape: Seq<char>, level: Seq<char>)
    requires
        level == "chronon_scheduler_warn"@ || level == "chronon_scheduler_info"@ || level
            == "chronon_scheduler_error"@,
    ensures
        event_plan(level, ls, shape) == (
            Some(
                (
                    "chronon_scheduler_log"@,
                    seq![
                        (
                            "component"@,
                            FieldView::Text(first_value_or(ls, "component"@, "scheduler"@)),
                        ),
                        ("message"@, FieldView::Text(sanitized(first_value_or(ls, "message"@, ""@)))),
                    ],
                ),
            ),
            None::<(Seq<char>, Seq<(Seq<char>, Seq<char>)>, i64)>,
        ),
{
    reveal_strlit("chronon_executor_error");
    reveal_strlit("chronon_run_failed");
    reveal_strlit("chronon_scheduler_warn");
    reveal_strlit("chronon_scheduler_info");
    reveal_strlit("chronon_scheduler_error");
    reveal_strlit("chronon_run_log");
    reveal_strlit("chronon_scheduler_log");
    assert("chronon_run_failed"@.len() == 18);
    assert("chronon_executor_error"@[8] == 'e');
    assert("chronon_scheduler_warn"@[8] == 's' && "chronon_scheduler_warn"@.len() == 22);
    assert("chronon_scheduler_info"@[8] == 's' && "chronon_scheduler_info"@.len() == 22);
    assert("chronon_scheduler_error"@.len() == 23);
    lemma_lookup_or_first(ls, "component"@, "scheduler"@);
    lemma_lookup_or_first(ls, "message"@, ""@);
    let f = (event_plan(level, ls, shape).0->0).1;
    assert(f =~= seq![
        ("component"@, FieldView::Text(first_value_or(ls, "component"@, "scheduler"@))),
        ("message"@, FieldView::Text(sanitized(first_value_or(ls, "message"@, ""@)))),
    ]);
}

/// Any schema other than the six that this crate maps emits nothing.
pub proof fn lemma_unknown_schema_ignored(
    schema: Seq<char>,
    ls: Seq<(Seq<char>, Seq<char>)>,
    shape: Seq<char>,
)
    requires
        schema != "chronon_executor_error"@,
        schema != "chronon_run_failed"@,
        schema != "chronon_scheduler_warn"@,
        schema != "chronon_scheduler_info"@,
        schema != "chronon_scheduler_error"@,
        schema != "chronon_run_log"@,
        schema != "chronon_scheduler_log"@,
    ensures
        event_plan(schema, ls, shape) == (
            None::<(Seq<char>, Seq<(Seq<char>, FieldView)>)>,
            None::<(Seq<char>, Seq<(Seq<char>, Seq<char>)>, i64)>,
        ),
{
}

/// The stored delta never decreases as the increment grows, is never negative, keeps every
/// increment that fits `i64`, and caps the rest at `i64::MAX`.
pub proof fn lemma_clamped_delta_law(a: u64, b: u64)
    ensures
        clamped_delta(a) >= 0,
        a <= b ==> clamped_delta(a) <= clamped_delta(b),
        a as int <= i64::MAX as int ==> clamped_delta(a) as int == a as int,
        a as int > i64::MAX as int ==> clamped_delta(a) == i64::MAX,
{
}

} // verus!
