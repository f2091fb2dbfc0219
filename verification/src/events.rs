//! Field sets of Chronon's structured event rows (`chronon_run_log`, `chronon_executor_error`,
//! `chronon_scheduler_log`) and the sanitising of the free-text message they carry.
use vstd::prelude::*;

use crate::text::{chars_of, is_whitespace, is_ws, lower, lower_range_is, string_of_range};

verus! {

/// Longest message, in characters, that an event row keeps before it is clipped.
pub const MAX_ERROR_MESSAGE_CHARS: usize = 512;

/// One field value of an event row: text, or a signed integer.
#[derive(Debug)]
pub enum FieldValue {
    /// A text field.
    Text(String),
    /// An integer field.
    Int(i64),
}

/// The mathematical value of a [`FieldValue`].
pub enum FieldView {
    Text(Seq<char>),
    Int(i64),
}

impl View for FieldValue {
    type V = FieldView;

    open spec fn view(&self) -> FieldView {
        match self {
            FieldValue::Text(s) => FieldView::Text(s@),
            FieldValue::Int(i) => FieldView::Int(*i),
        }
    }
}

/// The fields of an event row, as key characters and field values.
pub open spec fn fields_view(f: Seq<(String, FieldValue)>) -> Seq<(Seq<char>, FieldView)> {
    f.map_values(|p: (String, FieldValue)| (p.0@, p.1@))
}

/// The key whose value is redacted from messages.
pub open spec fn secret_key() -> Seq<char> {
    seq!['p', 'a', 's', 's', 'w', 'o', 'r', 'd', '=']
}

/// What a redacted value is replaced with.
pub open spec fn redacted_marker() -> Seq<char> {
    seq!['[', 'r', 'e', 'd', 'a', 'c', 't', 'e', 'd', ']']
}

/// The number of leading characters of `s` that are not whitespace.
pub open spec fn secret_run(s: Seq<char>) -> nat
    decreases s.len(),
{
    if s.len() > 0 && !is_ws(s[0]) {
        1 + secret_run(s.drop_first())
    } else {
        0
    }
}

/// A run of non-whitespace is never longer than the text it starts.
pub proof fn lemma_secret_run_bound(s: Seq<char>)
    ensures
        secret_run(s) <= s.len(),
    decreases s.len(),
{
    if s.len() > 0 && !is_ws(s[0]) {
        lemma_secret_run_bound(s.drop_first());
    }
}

/// `s` with the value after each `password=` (any ASCII case) replaced by `[redacted]`; the value
/// runs up to the next whitespace.
pub open spec fn redact(s: Seq<char>) -> Seq<char>
    decreases s.len(),
{
    if s.len() == 0 {
        s
    } else if s.len() >= 9 && lower(s.take(9)) == secret_key() {
        let rest = s.skip(9);
        proof {
            lemma_secret_run_bound(rest);
        }
        s.take(9) + redacted_marker() + redact(rest.skip(secret_run(rest) as int))
    } else {
        seq![s[0]] + redact(s.drop_first())
    }
}

/// `s` clipped to [`MAX_ERROR_MESSAGE_CHARS`] characters, with `…` marking a clip.
pub open spec fn clip(s: Seq<char>) -> Seq<char> {
    if s.len() > 512 {
        s.take(512).push('…')
    } else {
        s
    }
}

/// The message an event row carries for a raw message.
pub open spec fn sanitized(m: Seq<char>) -> Seq<char> {
    clip(redact(m))
}

proof fn lemma_secret_run_step(s: Seq<char>, a: int, j: int)
    requires
        0 <= a <= j < s.len(),
        !is_ws(s[j]),
    ensures
        secret_run(s.subrange(j, s.len() as int)) == 1 + secret_run(
            s.subrange(j + 1, s.len() as int),
        ),
{
    assert(s.subrange(j, s.len() as int).drop_first() =~= s.subrange(j + 1, s.len() as int));
}

/// Redacts secrets from a message and clips it to [`MAX_ERROR_MESSAGE_CHARS`] characters.
pub fn sanitize_error_message(message: &str) -> (r: String)
    ensures
        r@ == sanitized(message@),
{
    let v = chars_of(message);
    let n = v.len();
    let mut out: Vec<char> = Vec::new();
    let mut i: usize = 0;
    let ghost s = v@;
    proof {
        reveal_strlit("password=");
        assert(s.subrange(0, n as int) =~= s);
    }
    while i < n
        invariant
            n == s.len(),
            s == v@,
            i <= n,
            redact(s) == out@ + redact(s.subrange(i as int, n as int)),
        decreases n - i,
    {
        let ghost t = s.subrange(i as int, n as int);
        if n - i >= 9 && lower_range_is(&v, i, i + 9, "password=") {
            proof {
                reveal_strlit("password=");
                assert("password="@ =~= secret_key());
                assert(t.take(9) =~= s.subrange(i as int, i + 9));
            }
            let ghost before = out@;
            let mut k = i;
            while k < i + 9
                invariant
                    i + 9 <= n == s.len(),
                    s == v@,
                    i <= k <= i + 9,
                    out@ == before + s.subrange(i as int, k as int),
                decreases i + 9 - k,
            {
                out.push(v[k]);
                assert(s.subrange(i as int, k + 1) =~= s.subrange(i as int, k as int).push(
                    s[k as int],
                ));
                k = k + 1;
            }
            out.push('[');
            out.push('r');
            out.push('e');
            out.push('d');
            out.push('a');
            out.push('c');
            out.push('t');
            out.push('e');
            out.push('d');
            out.push(']');
            assert(out@ =~= before + s.subrange(i as int, i + 9) + redacted_marker());
            let mut j = i + 9;
            let ghost rest = s.subrange(i + 9, n as int);
            assert(rest.subrange(0, rest.len() as int) =~= rest);
            while j < n && !is_whitespace(v[j])
                invariant
                    i + 9 <= j <= n == s.len(),
                    s == v@,
                    rest == s.subrange(i + 9, n as int),
                    secret_run(rest) == (j - (i + 9)) + secret_run(s.subrange(j as int, n as int)),
                decreases n - j,
            {
                proof {
                    lemma_secret_run_step(s, i + 9, j as int);
                }
                j = j + 1;
            }
            assert(secret_run(s.subrange(j as int, n as int)) == 0);
            assert(rest.skip(secret_run(rest) as int) =~= s.subrange(j as int, n as int));
            assert(t.skip(9) =~= rest);
            i = j;
        } else {
            proof {
                reveal_strlit("password=");
                if t.len() >= 9 {
                    assert(t.take(9) =~= s.subrange(i as int, i + 9));
                    assert("password="@ =~= secret_key());
                }
                assert(t.drop_first() =~= s.subrange(i + 1, n as int));
            }
            out.push(v[i]);
            i = i + 1;
        }
    }
    assert(s.subrange(n as int, n as int) =~= Seq::<char>::empty());
    if out.len() > MAX_ERROR_MESSAGE_CHARS {
        let mut clipped = string_of_range(&out, 0, MAX_ERROR_MESSAGE_CHARS);
        crate::text::push_char(&mut clipped, '…');
        assert(clipped@ =~= clip(out@));
        clipped
    } else {
        let whole = string_of_range(&out, 0, out.len());
        assert(whole@ =~= out@);
        whole
    }
}

/// The field set of a `chronon_run_log` row.
pub open spec fn run_log_view(
    run_id: Seq<char>,
    job_name: Seq<char>,
    script_name: Seq<char>,
    status: Seq<char>,
    duration_ms: i64,
    message: Seq<char>,
) -> Seq<(Seq<char>, FieldView)> {
    seq![
        ("run_id"@, FieldView::Text(run_id)),
        ("job_name"@, FieldView::Text(job_name)),
        ("script_name"@, FieldView::Text(script_name)),
        ("status"@, FieldView::Text(status)),
        ("duration_ms"@, FieldView::Int(duration_ms)),
        ("message"@, FieldView::Text(sanitized(message))),
    ]
}

/// The field set of a `chronon_executor_error` row.
pub open spec fn executor_error_view(
    job_name: Seq<char>,
    run_id: Seq<char>,
    script_name: Seq<char>,
    operation: Seq<char>,
    error: Seq<char>,
) -> Seq<(Seq<char>, FieldView)> {
    seq![
        ("job_name"@, FieldView::Text(job_name)),
        ("run_id"@, FieldView::Text(run_id)),
        ("script_name"@, FieldView::Text(script_name)),
        ("operation"@, FieldView::Text(operation)),
        ("error"@, FieldView::Text(sanitized(error))),
    ]
}

/// The field set of a `chronon_scheduler_log` row.
pub open spec fn scheduler_log_view(component: Seq<char>, message: Seq<char>) -> Seq<
    (Seq<char>, FieldView),
> {
    seq![("component"@, FieldView::Text(component)), ("message"@, FieldView::Text(sanitized(message)))]
}

fn text_field(key: &str, value: &str) -> (r: (String, FieldValue))
    ensures
        r.0@ == key@,
        r.1@ == FieldView::Text(value@),
{
    (key.to_owned(), FieldValue::Text(value.to_owned()))
}

/// Build the field set for a `chronon_run_log` row.
pub fn run_log_fields(
    run_id: &str,
    job_name: &str,
    script_name: &str,
    status: &str,
    duration_ms: i64,
    message: &str,
) -> (r: Vec<(String, FieldValue)>)
    ensures
        fields_view(r@) == run_log_view(run_id@, job_name@, script_name@, status@, duration_ms, message@),
{
    let mut r: Vec<(String, FieldValue)> = Vec::new();
    r.push(text_field("run_id", run_id));
    r.push(text_field("job_name", job_name));
    r.push(text_field("script_name", script_name));
    r.push(text_field("status", status));
    r.push(("duration_ms".to_owned(), FieldValue::Int(duration_ms)));
    r.push(("message".to_owned(), FieldValue::Text(sanitize_error_message(message))));
    assert(fields_view(r@) =~= run_log_view(
        run_id@,
        job_name@,
        script_name@,
        status@,
        duration_ms,
        message@,
    ));
    r
}

/// Build the field set for a `chronon_executor_error` row.
pub fn executor_error_fields(
    job_name: &str,
    run_id: &str,
    script_name: &str,
    operation: &str,
    error: &str,
) -> (r: Vec<(String, FieldValue)>)
    ensures
        fields_view(r@) == executor_error_view(job_name@, run_id@, script_name@, operation@, error@),
{
    let mut r: Vec<(String, FieldValue)> = Vec::new();
    r.push(text_field("job_name", job_name));
    r.push(text_field("run_id", run_id));
    r.push(text_field("script_name", script_name));
    r.push(text_field("operation", operation));
    r.push(("error".to_owned(), FieldValue::Text(sanitize_error_message(error))));
    assert(fields_view(r@) =~= executor_error_view(
        job_name@,
        run_id@,
        script_name@,
        operation@,
        error@,
    ));
    r
}

/// Build the field set for a `chronon_scheduler_log` row.
pub fn scheduler_log_fields(component: &str, message: &str) -> (r: Vec<(String, FieldValue)>)
    ensures
        fields_view(r@) == scheduler_log_view(component@, message@),
{
    let mut r: Vec<(String, FieldValue)> = Vec::new();
    r.push(text_field("component", component));
    r.push(("message".to_owned(), FieldValue::Text(sanitize_error_message(message))));
    assert(fields_view(r@) =~= scheduler_log_view(component@, message@));
    r
}

/// A sanitised message is at most [`MAX_ERROR_MESSAGE_CHARS`] characters plus the `…` marker;
/// a longer (redacted) message keeps its first [`MAX_ERROR_MESSAGE_CHARS`] characters and ends
/// with `…`.
pub proof fn lemma_sanitized_bounded(m: Seq<char>)
    ensures
        sanitized(m).len() <= 513,
        redact(m).len() > 512 ==> sanitized(m).len() == 513 && sanitized(m).last() == '…'
            && sanitized(m).take(512) == redact(m).take(512),
{
    if redact(m).len() > 512 {
        assert(sanitized(m).take(512) =~= redact(m).take(512));
    }
}

/// The message holds `password=` (in any ASCII case) somewhere.
pub open spec fn mentions_secret(m: Seq<char>) -> bool {
    exists|i: int| 0 <= i && i + 9 <= m.len() && lower(#[trigger] m.subrange(i, i + 9)) == secret_key()
}

/// Redaction leaves a message without `password=` as it is.
pub proof fn lemma_redact_without_secret(m: Seq<char>)
    requires
        !mentions_secret(m),
    ensures
        redact(m) == m,
    decreases m.len(),
{
    if m.len() > 0 {
        if m.len() >= 9 {
            assert(m.take(9) =~= m.subrange(0int, 0int + 9));
        }
        let t = m.drop_first();
        assert forall|i: int| 0 <= i && i + 9 <= t.len() implies lower(#[trigger] t.subrange(i, i + 9))
            != secret_key() by {
            assert(t.subrange(i, i + 9) =~= m.subrange(i + 1, i + 1 + 9));
        }
        lemma_redact_without_secret(t);
        assert(seq![m[0]] + t =~= m);
    }
}

/// A message of at most [`MAX_ERROR_MESSAGE_CHARS`] characters without `password=` is kept
/// exactly.
pub proof fn lemma_short_message_preserved(m: Seq<char>)
    requires
        !mentions_secret(m),
        m.len() <= 512,
    ensures
        sanitized(m) == m,
{
    lemma_redact_without_secret(m);
}

} // verus!
