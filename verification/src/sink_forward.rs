//! Consumer-side forwarding: which typed Chronon recorder or logger a raw metric or event emit is
//! re-dispatched to, and the field coercions applied to the raw event's JSON object.
use vstd::prelude::*;

use crate::text::{chars_of, str_eq};

verus! {

/// A JSON number as the forwarding logic reads it: its decimal text (serde_json's `Display`) and
/// its value when it is an integer that fits `i64` (serde_json's `Number::as_i64`).
#[derive(Debug)]
pub struct JsonNumber {
    pub text: String,
    pub as_i64: Option<i64>,
}

/// One value of a raw event's JSON object, as far as the forwarding logic reads it.
#[derive(Debug)]
pub enum JsonField {
    Null,
    Bool(bool),
    Number(JsonNumber),
    Str(String),
    Array,
    Object,
}

/// The mathematical value of a [`JsonField`].
pub enum JsonFieldView {
    Null,
    Bool(bool),
    Number(Seq<char>, Option<i64>),
    Str(Seq<char>),
    Array,
    Object,
}

impl View for JsonField {
    type V = JsonFieldView;

    open spec fn view(&self) -> JsonFieldView {
        match self {
            JsonField::Null => JsonFieldView::Null,
            JsonField::Bool(b) => JsonFieldView::Bool(*b),
            JsonField::Number(n) => JsonFieldView::Number(n.text@, n.as_i64),
            JsonField::Str(s) => JsonFieldView::Str(s@),
            JsonField::Array => JsonFieldView::Array,
            JsonField::Object => JsonFieldView::Object,
        }
    }
}

/// The entries of a JSON object, as key characters and field views.
pub open spec fn object_view(es: Seq<(String, JsonField)>) -> Seq<(Seq<char>, JsonFieldView)> {
    es.map_values(|p: (String, JsonField)| (p.0@, p.1@))
}

/// The value stored under `key` (the first entry with that key).
pub open spec fn json_get(es: Seq<(Seq<char>, JsonFieldView)>, key: Seq<char>) -> Option<
    JsonFieldView,
>
    decreases es.len(),
{
    if es.len() == 0 {
        None
    } else if es[0].0 == key {
        Some(es[0].1)
    } else {
        json_get(es.drop_first(), key)
    }
}

/// A field as text: strings as they are, booleans and numbers as they print, anything else
/// (missing, null, array, object) the empty text.
pub open spec fn field_str_of(es: Seq<(Seq<char>, JsonFieldView)>, key: Seq<char>) -> Seq<char> {
    match json_get(es, key) {
        Some(JsonFieldView::Str(s)) => s,
        Some(JsonFieldView::Bool(b)) => if b {
            "true"@
        } else {
            "false"@
        },
        Some(JsonFieldView::Number(text, _)) => text,
        _ => ""@,
    }
}

/// An ASCII decimal digit.
pub open spec fn is_digit(c: char) -> bool {
    '0' <= c && c <= '9'
}

/// The value of a run of decimal digits.
pub open spec fn decimal_value(d: Seq<char>) -> int
    decreases d.len(),
{
    if d.len() == 0 {
        0
    } else {
        decimal_value(d.drop_last()) * 10 + (d.last() as int - '0' as int)
    }
}

/// Every character of `d` is a decimal digit.
pub open spec fn all_digits(d: Seq<char>) -> bool {
    forall|i: int| 0 <= i < d.len() ==> is_digit(#[trigger] d[i])
}

/// The length of the leading sign of `s` (0 or 1).
pub open spec fn sign_len(s: Seq<char>) -> int {
    if s.len() > 0 && (s[0] == '-' || s[0] == '+') {
        1
    } else {
        0
    }
}

/// What `i64::from_str` accepts: an optional `+` or `-`, then one or more decimal digits, whose
/// value fits `i64`.
pub open spec fn parse_i64(s: Seq<char>) -> Option<i64> {
    let d = s.skip(sign_len(s));
    if d.len() == 0 || !all_digits(d) {
        None
    } else {
        let v = if s[0] == '-' {
            -decimal_value(d)
        } else {
            decimal_value(d)
        };
        if i64::MIN <= v && v <= i64::MAX {
            Some(v as i64)
        } else {
            None
        }
    }
}

/// A field as an integer: integral numbers that fit `i64`, strings that parse as `i64`, anything
/// else 0.
pub open spec fn field_i64_of(es: Seq<(Seq<char>, JsonFieldView)>, key: Seq<char>) -> i64 {
    match json_get(es, key) {
        Some(JsonFieldView::Number(_, Some(n))) => n,
        Some(JsonFieldView::Str(s)) => match parse_i64(s) {
            Some(n) => n,
            None => 0,
        },
        _ => 0,
    }
}

fn get_field<'a>(fields: &'a [(String, JsonField)], key: &str) -> (r: Option<&'a JsonField>)
    ensures
        match r {
            Some(f) => json_get(object_view(fields@), key@) == Some(f@),
            None => json_get(object_view(fields@), key@) is None,
        },
{
    let n = fields.len();
    let ghost ov = object_view(fields@);
    assert(ov.subrange(0, n as int) =~= ov);
    let mut i: usize = 0;
    while i < n
        invariant
            n == fields@.len() == ov.len(),
            ov == object_view(fields@),
            i <= n,
            json_get(ov, key@) == json_get(ov.subrange(i as int, n as int), key@),
        decreases n - i,
    {
        assert(ov.subrange(i as int, n as int)[0] == ov[i as int]);
        if str_eq(fields[i].0.as_str(), key) {
            return Some(&fields[i].1);
        }
        assert(ov.subrange(i as int, n as int).drop_first() =~= ov.subrange(i + 1, n as int));
        i = i + 1;
    }
    assert(ov.subrange(n as int, n as int).len() == 0);
    None
}

/// Read a field of a raw event as text.
pub fn field_str(fields: &[(String, JsonField)], key: &str) -> (r: String)
    ensures
        r@ == field_str_of(object_view(fields@), key@),
{
    match get_field(fields, key) {
        Some(JsonField::Str(s)) => s.clone(),
        Some(JsonField::Bool(b)) => if *b {
            "true".to_owned()
        } else {
            "false".to_owned()
        },
        Some(JsonField::Number(n)) => n.text.clone(),
        _ => {
            proof {
                reveal_strlit("");
            }
            String::new()
        },
    }
}

/// Decimal values grow with every further digit.
pub proof fn lemma_decimal_prefix(d: Seq<char>, k: int)
    requires
        0 <= k <= d.len(),
        all_digits(d),
    ensures
        0 <= decimal_value(d.take(k)) <= decimal_value(d),
    decreases d.len() - k,
{
    if k < d.len() {
        lemma_decimal_prefix(d, k + 1);
        assert(d.take(k + 1).drop_last() =~= d.take(k));
        assert(is_digit(d[k]));
    } else {
        assert(d.take(k) =~= d);
        lemma_decimal_nonneg(d);
    }
}

/// A run of digits has a nonnegative value.
pub proof fn lemma_decimal_nonneg(d: Seq<char>)
    requires
        all_digits(d),
    ensures
        decimal_value(d) >= 0,
    decreases d.len(),
{
    if d.len() > 0 {
        assert forall|i: int| 0 <= i < d.drop_last().len() implies is_digit(
            #[trigger] d.drop_last()[i],
        ) by {
            assert(d.drop_last()[i] == d[i]);
        }
        lemma_decimal_nonneg(d.drop_last());
        assert(is_digit(d.last()));
    }
}

/// Parse a text the way `i64::from_str` does.
pub fn parse_i64_text(s: &str) -> (r: Option<i64>)
    ensures
        r == parse_i64(s@),
{
    let v = chars_of(s);
    let n = v.len();
    let ghost sv = s@;
    let signed = n > 0 && (v[0] == '-' || v[0] == '+');
    let negative = n > 0 && v[0] == '-';
    let start: usize = if signed {
        1
    } else {
        0
    };
    let ghost d = sv.skip(sign_len(sv));
    assert(d =~= sv.subrange(start as int, n as int));
    if start == n {
        return None;
    }
    let limit: u128 = 0x8000_0000_0000_0000;
    let mut acc: u128 = 0;
    let mut i: usize = start;
    assert(d.take(0) =~= Seq::<char>::empty());
    while i < n
        invariant
            v@ == sv,
            sv == s@,
            n == sv.len(),
            start <= i <= n,
            d == sv.subrange(start as int, n as int),
            forall|k: int| 0 <= k < i - start ==> is_digit(#[trigger] d[k]),
            acc as int == decimal_value(d.take(i - start)),
            limit == 0x8000_0000_0000_0000u128,
            acc <= limit,
            signed == (sv.len() > 0 && (sv[0] == '-' || sv[0] == '+')),
            negative == (sv.len() > 0 && sv[0] == '-'),
            start == (if signed {
                1usize
            } else {
                0usize
            }),
            d == sv.skip(sign_len(sv)),
        decreases n - i,
    {
        let c = v[i];
        if !('0' <= c && c <= '9') {
            assert(!is_digit(d[i - start]));
            return None;
        }
        let digit = (c as u32 - '0' as u32) as u128;
        assert(d.take(i - start + 1).drop_last() =~= d.take(i - start));
        assert(is_digit(d[i - start]));
        acc = acc * 10 + digit;
        i = i + 1;
        if acc > limit {
            proof {
                if all_digits(d) {
                    lemma_decimal_prefix(d, i - start);
                }
            }
            return None;
        }
    }
    assert(d.take(n - start) =~= d);
    if negative {
        Some((0 - acc as i128) as i64)
    } else if acc <= 0x7fff_ffff_ffff_ffff {
        Some(acc as i64)
    } else {
        None
    }
}

/// Read a field of a raw event as an integer.
pub fn field_i64(fields: &[(String, JsonField)], key: &str) -> (r: i64)
    ensures
        r == field_i64_of(object_view(fields@), key@),
{
    match get_field(fields, key) {
        Some(JsonField::Number(n)) => match n.as_i64 {
            Some(x) => x,
            None => 0,
        },
        Some(JsonField::Str(s)) => match parse_i64_text(s.as_str()) {
            Some(x) => x,
            None => 0,
        },
        _ => 0,
    }
}

/// The Chronon metrics that have a typed recorder.
#[derive(Debug, Clone, Copy, PartialEq, Eq, Structural)]
pub enum ChrononMetric {
    PartitionAssignments,
    RemoteErrors,
    RunDurationMs,
    RunsCompleted,
    RunsFailed,
    RunsStarted,
    SchedulerTicks,
}

/// The typed recorder a raw metric name is forwarded to, if any.
pub open spec fn metric_named(name: Seq<char>) -> Option<ChrononMetric> {
    if name == "chronon_partition_assignments"@ {
        Some(ChrononMetric::PartitionAssignments)
    } else if name == "chronon_remote_errors"@ {
        Some(ChrononMetric::RemoteErrors)
    } else if name == "chronon_run_duration_ms"@ {
        Some(ChrononMetric::RunDurationMs)
    } else if name == "chronon_runs_completed"@ {
        Some(ChrononMetric::RunsCompleted)
    } else if name == "chronon_runs_failed"@ {
        Some(ChrononMetric::RunsFailed)
    } else if name == "chronon_runs_started"@ {
        Some(ChrononMetric::RunsStarted)
    } else if name == "chronon_scheduler_ticks"@ {
        Some(ChrononMetric::SchedulerTicks)
    } else {
        None
    }
}

/// Decide which typed recorder a raw metric emit is forwarded to (`None`: ignored).
pub fn forward_counter_target(name: &str) -> (r: Option<ChrononMetric>)
    ensures
        r == metric_named(name@),
{
    if str_eq(name, "chronon_partition_assignments") {
        Some(ChrononMetric::PartitionAssignments)
    } else if str_eq(name, "chronon_remote_errors") {
        Some(ChrononMetric::RemoteErrors)
    } else if str_eq(name, "chronon_run_duration_ms") {
        Some(ChrononMetric::RunDurationMs)
    } else if str_eq(name, "chronon_runs_completed") {
        Some(ChrononMetric::RunsCompleted)
    } else if str_eq(name, "chronon_runs_failed") {
        Some(ChrononMetric::RunsFailed)
    } else if str_eq(name, "chronon_runs_started") {
        Some(ChrononMetric::RunsStarted)
    } else if str_eq(name, "chronon_scheduler_ticks") {
        Some(ChrononMetric::SchedulerTicks)
    } else {
        None
    }
}

/// A raw event re-dispatched onto a typed Chronon logger, with its coerced fields.
#[derive(Debug)]
pub enum ForwardedEvent {
    ExecutorError {
        job_name: String,
        run_id: String,
        script_name: String,
        operation: String,
        error: String,
    },
    RunLog {
        run_id: String,
        job_name: String,
        script_name: String,
        status: String,
        duration_ms: i64,
        message: String,
    },
    SchedulerLog { component: String, message: String },
}

/// The mathematical value of a [`ForwardedEvent`].
pub enum ForwardedEventView {
    ExecutorError {
        job_name: Seq<char>,
        run_id: Seq<char>,
        script_name: Seq<char>,
        operation: Seq<char>,
        error: Seq<char>,
    },
    RunLog {
        run_id: Seq<char>,
        job_name: Seq<char>,
        script_name: Seq<char>,
        status: Seq<char>,
        duration_ms: i64,
        message: Seq<char>,
    },
    SchedulerLog { component: Seq<char>, message: Seq<char> },
}

impl View for ForwardedEvent {
    type V = ForwardedEventView;

    open spec fn view(&self) -> ForwardedEventView {
        match self {
            ForwardedEvent::ExecutorError { job_name, run_id, script_name, operation, error } =>
                ForwardedEventView::ExecutorError {
                job_name: job_name@,
                run_id: run_id@,
                script_name: script_name@,
                operation: operation@,
                error: error@,
            },
            ForwardedEvent::RunLog {
                run_id,
                job_name,
                script_name,
                status,
                duration_ms,
                message,
            } => ForwardedEventView::RunLog {
                run_id: run_id@,
                job_name: job_name@,
                script_name: script_name@,
                status: status@,
                duration_ms: *duration_ms,
                message: message@,
            },
            ForwardedEvent::SchedulerLog { component, message } =>
                ForwardedEventView::SchedulerLog { component: component@, message: message@ },
        }
    }
}

/// The typed logger call a raw event of `table` with fields `es` is forwarded to, if any.
pub open spec fn forwarded_event(table: Seq<char>, es: Seq<(Seq<char>, JsonFieldView)>) -> Option<
    ForwardedEventView,
> {
    if table == "chronon_executor_error"@ {
        Some(
            ForwardedEventView::ExecutorError {
                job_name: field_str_of(es, "job_name"@),
                run_id: field_str_of(es, "run_id"@),
                script_name: field_str_of(es, "script_name"@),
                operation: field_str_of(es, "operation"@),
                error: field_str_of(es, "error"@),
            },
        )
    } else if table == "chronon_run_log"@ {
        Some(
            ForwardedEventView::RunLog {
                run_id: field_str_of(es, "run_id"@),
                job_name: field_str_of(es, "job_name"@),
                script_name: field_str_of(es, "script_name"@),
                status: field_str_of(es, "status"@),
                duration_ms: field_i64_of(es, "duration_ms"@),
                message: field_str_of(es, "message"@),
            },
        )
    } else if table == "chronon_scheduler_log"@ {
        Some(
            ForwardedEventView::SchedulerLog {
                component: field_str_of(es, "component"@),
                message: field_str_of(es, "message"@),
            },
        )
    } else {
        None
    }
}

/// Decide which typed logger a raw event emit is forwarded to, coercing its fields
/// (`None`: ignored).
pub fn forward_event_target(table: &str, fields: &[(String, JsonField)]) -> (r: Option<
    ForwardedEvent,
>)
    ensures
        match r {
            Some(e) => forwarded_event(table@, object_view(fields@)) == Some(e@),
            None => forwarded_event(table@, object_view(fields@)) is None,
        },
{
    if str_eq(table, "chronon_executor_error") {
        Some(
            ForwardedEvent::ExecutorError {
                job_name: field_str(fields, "job_name"),
                run_id: field_str(fields, "run_id"),
                script_name: field_str(fields, "script_name"),
                operation: field_str(fields, "operation"),
                error: field_str(fields, "error"),
            },
        )
    } else if str_eq(table, "chronon_run_log") {
        Some(
            ForwardedEvent::RunLog {
                run_id: field_str(fields, "run_id"),
                job_name: field_str(fields, "job_name"),
                script_name: field_str(fields, "script_name"),
                status: field_str(fields, "status"),
                duration_ms: field_i64(fields, "duration_ms"),
                message: field_str(fields, "message"),
            },
        )
    } else if str_eq(table, "chronon_scheduler_log") {
        Some(
            ForwardedEvent::SchedulerLog {
                component: field_str(fields, "component"),
                message: field_str(fields, "message"),
            },
        )
    } else {
        None
    }
}

/// A missing, null, array or object field reads as the empty text and as 0.
pub proof fn lemma_field_defaults(es: Seq<(Seq<char>, JsonFieldView)>, key: Seq<char>)
    requires
        match json_get(es, key) {
            None => true,
            Some(JsonFieldView::Null) => true,
            Some(JsonFieldView::Array) => true,
            Some(JsonFieldView::Object) => true,
            _ => false,
        },
    ensures
        field_str_of(es, key) == Seq::<char>::empty(),
        field_i64_of(es, key) == 0,
{
    reveal_strlit("");
}

/// `i` is the position of the first entry whose key is `k`.
pub open spec fn first_entry_at(es: Seq<(Seq<char>, JsonFieldView)>, k: Seq<char>, i: int) -> bool {
    &&& 0 <= i < es.len()
    &&& es[i].0 == k
    &&& forall|j: int| 0 <= j < i ==> es[j].0 != k
}

/// Some entry has key `k`.
pub open spec fn has_entry(es: Seq<(Seq<char>, JsonFieldView)>, k: Seq<char>) -> bool {
    exists|i: int| 0 <= i < es.len() && #[trigger] es[i].0 == k
}

/// The value of the first entry with key `k`, if any.
pub open spec fn first_entry(es: Seq<(Seq<char>, JsonFieldView)>, k: Seq<char>) -> Option<
    JsonFieldView,
> {
    if has_entry(es, k) {
        Some(es[choose|i: int| first_entry_at(es, k, i)].1)
    } else {
        None
    }
}

proof fn lemma_first_entry_exists(es: Seq<(Seq<char>, JsonFieldView)>, k: Seq<char>)
    requires
        has_entry(es, k),
    ensures
        exists|i: int| first_entry_at(es, k, i),
    decreases es.len(),
{
    if es[0].0 == k {
        assert(first_entry_at(es, k, 0));
    } else {
        let t = es.drop_first();
        let w = choose|i: int| 0 <= i < es.len() && #[trigger] es[i].0 == k;
        assert(t[w - 1].0 == k);
        lemma_first_entry_exists(t, k);
        let i = choose|i: int| first_entry_at(t, k, i);
        assert forall|j: int| 0 <= j < i + 1 implies es[j].0 != k by {
            if j > 0 {
                assert(es[j] == t[j - 1]);
            }
        }
        assert(first_entry_at(es, k, i + 1));
    }
}

/// Reading a key gives the value of its first entry.
pub proof fn lemma_json_get_first(es: Seq<(Seq<char>, JsonFieldView)>, k: Seq<char>)
    ensures
        json_get(es, k) == first_entry(es, k),
    decreases es.len(),
{
    if es.len() > 0 {
        let t = es.drop_first();
        lemma_json_get_first(t, k);
        if es[0].0 == k {
            assert(first_entry_at(es, k, 0));
            let c = choose|i: int| first_entry_at(es, k, i);
            assert(c == 0);
        } else {
            assert(has_entry(es, k) == has_entry(t, k)) by {
                if has_entry(es, k) {
                    let w = choose|i: int| 0 <= i < es.len() && #[trigger] es[i].0 == k;
                    assert(t[w - 1].0 == k);
                }
                if has_entry(t, k) {
                    let w = choose|i: int| 0 <= i < t.len() && #[trigger] t[i].0 == k;
                    assert(es[w + 1].0 == k);
                }
            }
            if has_entry(es, k) {
                lemma_first_entry_exists(es, k);
                lemma_first_entry_exists(t, k);
                let c = choose|i: int| first_entry_at(es, k, i);
                let ct = choose|i: int| first_entry_at(t, k, i);
                assert(first_entry_at(es, k, ct + 1)) by {
                    assert forall|j: int| 0 <= j < ct + 1 implies es[j].0 != k by {
                        if j > 0 {
                            assert(es[j] == t[j - 1]);
                        }
                    }
                }
                assert(c == ct + 1) by {
                    if c < ct + 1 {
                        assert(es[c].0 == k);
                    } else if c > ct + 1 {
                        assert(es[ct + 1].0 == k);
                    }
                }
            }
        }
    }
}

/// The text a JSON value is forwarded as.
pub open spec fn text_of_value(v: Option<JsonFieldView>) -> Seq<char> {
    match v {
        Some(JsonFieldView::Str(s)) => s,
        Some(JsonFieldView::Bool(true)) => "true"@,
        Some(JsonFieldView::Bool(false)) => "false"@,
        Some(JsonFieldView::Number(text, _)) => text,
        _ => ""@,
    }
}

/// The integer a JSON value is forwarded as.
pub open spec fn int_of_value(v: Option<JsonFieldView>) -> i64 {
    match v {
        Some(JsonFieldView::Number(_, Some(n))) => n,
        Some(JsonFieldView::Str(s)) => match parse_i64(s) {
            Some(n) => n,
            None => 0,
        },
        _ => 0,
    }
}

/// Each forwarded field is read from the raw event's first entry under that field's own name:
/// executor errors carry `job_name`, `run_id`, `script_name`, `operation`, `error`; run-log rows
/// `run_id`, `job_name`, `script_name`, `status`, the integer `duration_ms`, `message`; scheduler
/// rows `component`, `message`; any other table is not forwarded.
pub proof fn lemma_forwarded_event_law(table: Seq<char>, es: Seq<(Seq<char>, JsonFieldView)>)
    ensures
        forwarded_event("chronon_executor_error"@, es) == Some(
            ForwardedEventView::ExecutorError {
                job_name: text_of_value(first_entry(es, "job_name"@)),
                run_id: text_of_value(first_entry(es, "run_id"@)),
                script_name: text_of_value(first_entry(es, "script_name"@)),
                operation: text_of_value(first_entry(es, "operation"@)),
                error: text_of_value(first_entry(es, "error"@)),
            },
        ),
        forwarded_event("chronon_run_log"@, es) == Some(
            ForwardedEventView::RunLog {
                run_id: text_of_value(first_entry(es, "run_id"@)),
                job_name: text_of_value(first_entry(es, "job_name"@)),
                script_name: text_of_value(first_entry(es, "script_name"@)),
                status: text_of_value(first_entry(es, "status"@)),
                duration_ms: int_of_value(first_entry(es, "duration_ms"@)),
                message: text_of_value(first_entry(es, "message"@)),
            },
        ),
        forwarded_event("chronon_scheduler_log"@, es) == Some(
            ForwardedEventView::SchedulerLog {
                component: text_of_value(first_entry(es, "component"@)),
                message: text_of_value(first_entry(es, "message"@)),
            },
        ),
        !(table == "chronon_executor_error"@ || table == "chronon_run_log"@ || table
            == "chronon_scheduler_log"@) ==> forwarded_event(table, es) is None,
{
    reveal_strlit("chronon_executor_error");
    reveal_strlit("chronon_run_log");
    reveal_strlit("chronon_scheduler_log");
    lemma_json_get_first(es, "job_name"@);
    lemma_json_get_first(es, "run_id"@);
    lemma_json_get_first(es, "script_name"@);
    lemma_json_get_first(es, "operation"@);
    lemma_json_get_first(es, "error"@);
    lemma_json_get_first(es, "status"@);
    lemma_json_get_first(es, "duration_ms"@);
    lemma_json_get_first(es, "message"@);
    lemma_json_get_first(es, "component"@);
    assert("chronon_executor_error"@.len() == 22 && "chronon_run_log"@.len() == 15
        && "chronon_scheduler_log"@.len() == 21);
}

/// Each recorder receives exactly the metric of its own name, so two different names never reach
/// the same recorder; names outside the seven are not forwarded.
pub proof fn lemma_metric_named_law(a: Seq<char>, b: Seq<char>)
    ensures
        metric_named("chronon_partition_assignments"@) == Some(ChrononMetric::PartitionAssignments),
        metric_named("chronon_remote_errors"@) == Some(ChrononMetric::RemoteErrors),
        metric_named("chronon_run_duration_ms"@) == Some(ChrononMetric::RunDurationMs),
        metric_named("chronon_runs_completed"@) == Some(ChrononMetric::RunsCompleted),
        metric_named("chronon_runs_failed"@) == Some(ChrononMetric::RunsFailed),
        metric_named("chronon_runs_started"@) == Some(ChrononMetric::RunsStarted),
        metric_named("chronon_scheduler_ticks"@) == Some(ChrononMetric::SchedulerTicks),
        metric_named(a) is Some && metric_named(a) == metric_named(b) ==> a == b,
{
    reveal_strlit("chronon_partition_assignments");
    reveal_strlit("chronon_remote_errors");
    reveal_strlit("chronon_run_duration_ms");
    reveal_strlit("chronon_runs_completed");
    reveal_strlit("chronon_runs_failed");
    reveal_strlit("chronon_runs_started");
    reveal_strlit("chronon_scheduler_ticks");
    assert("chronon_partition_assignments"@.len() == 29 && "chronon_remote_errors"@.len() == 21
        && "chronon_run_duration_ms"@.len() == 23 && "chronon_runs_completed"@.len() == 22
        && "chronon_runs_failed"@.len() == 19 && "chronon_runs_started"@.len() == 20
        && "chronon_scheduler_ticks"@.len() == 23);
    assert("chronon_run_duration_ms"@[9] == 'u' && "chronon_scheduler_ticks"@[9] == 'c');
}

/// The shortest decimal digits of `n`.
pub open spec fn decimal_digits(n: nat) -> Seq<char>
    decreases n,
{
    if n < 10 {
        seq![((n as int) + ('0' as int)) as char]
    } else {
        decimal_digits(n / 10).push((((n % 10) as int) + ('0' as int)) as char)
    }
}

/// `n` written in decimal, with a leading `-` when negative.
pub open spec fn decimal_text(n: int) -> Seq<char> {
    if n < 0 {
        seq!['-'] + decimal_digits((-n) as nat)
    } else {
        decimal_digits(n as nat)
    }
}

proof fn lemma_decimal_digits(n: nat)
    ensures
        decimal_digits(n).len() > 0,
        all_digits(decimal_digits(n)),
        decimal_value(decimal_digits(n)) == n,
    decreases n,
{
    if n >= 10 {
        lemma_decimal_digits(n / 10);
        let d = decimal_digits(n);
        assert(d.drop_last() =~= decimal_digits(n / 10));
        assert(n == (n / 10) * 10 + n % 10);
        assert((d.last() as int) == ((n % 10) as int) + ('0' as int));
        assert(decimal_value(d) == decimal_value(d.drop_last()) * 10 + (d.last() as int - '0' as int));
        assert forall|i: int| 0 <= i < d.len() implies is_digit(#[trigger] d[i]) by {
            if i < d.len() - 1 {
                assert(d[i] == decimal_digits(n / 10)[i]);
            }
        }
    } else {
        assert(decimal_digits(n).drop_last() =~= Seq::<char>::empty());
        assert((decimal_digits(n).last() as int) == (n as int) + ('0' as int));
        assert(decimal_value(decimal_digits(n)) == decimal_value(decimal_digits(n).drop_last()) * 10
            + (decimal_digits(n).last() as int - '0' as int));
        assert(decimal_value(Seq::<char>::empty()) == 0);
    }
}

/// Every `i64`, written in decimal (optionally with a leading `+` when nonnegative), reads back as
/// itself.
pub proof fn lemma_parse_i64_roundtrip(n: i64)
    ensures
        parse_i64(decimal_text(n as int)) == Some(n),
        n >= 0 ==> parse_i64(seq!['+'] + decimal_digits(n as nat)) == Some(n),
{
    if n < 0 {
        let d = decimal_digits((-n) as nat);
        lemma_decimal_digits((-n) as nat);
        let t = seq!['-'] + d;
        assert(t.skip(1) =~= d);
        assert(!is_digit('-'));
        assert(d[0] != '-' && d[0] != '+') by {
            assert(is_digit(d[0]));
        }
    } else {
        let d = decimal_digits(n as nat);
        lemma_decimal_digits(n as nat);
        assert(is_digit(d[0]));
        assert(d.skip(0) =~= d);
        let t = seq!['+'] + d;
        assert(t.skip(1) =~= d);
    }
}

} // verus!
