//! Label bounding and classification for Chronon self-telemetry: error classes, hashed job
//! names and the allowlisted deployment shape.
use std::hash::BuildHasher;

use vstd::prelude::*;
use vstd::string::StrSliceExecFns;

use crate::metrics::{label_value, lookup, opt_view, pairs_view};
use crate::text::{
    chars_of, contains_seq, lemma_trim_idempotent, lower, lower_contains, lower_range_is,
    push_char, range_is, str_eq, trim, trim_bounds,
};

verus! {

/// Coarse classification of a Chronon executor error message, used as the
/// `error_class` label on `chronon_runs_failed`.
#[derive(Debug, Clone, Copy, PartialEq, Eq, Structural)]
pub enum ErrorClass {
    /// Parameter validation failure (bad/missing field, wrong type).
    Param,
    /// Referenced record was not found.
    NotFound,
    /// Failed to build a Valence session for the run.
    ValenceBuild,
    /// Unclassified failure.
    Internal,
}

/// The class of an error message: keyword sniffing on its ASCII lowercase, the parameter
/// keywords first, then "not found", then "valence" together with "build".
pub open spec fn classify(message: Seq<char>) -> ErrorClass {
    let l = lower(message);
    if contains_seq(l, "parameter error"@) || contains_seq(l, "missing field"@) || contains_seq(
        l,
        "invalid type"@,
    ) {
        ErrorClass::Param
    } else if contains_seq(l, "not found"@) {
        ErrorClass::NotFound
    } else if contains_seq(l, "valence"@) && contains_seq(l, "build"@) {
        ErrorClass::ValenceBuild
    } else {
        ErrorClass::Internal
    }
}

/// The stable label value of an error class.
pub open spec fn class_label(c: ErrorClass) -> Seq<char> {
    match c {
        ErrorClass::Param => "param"@,
        ErrorClass::NotFound => "not_found"@,
        ErrorClass::ValenceBuild => "valence_build"@,
        ErrorClass::Internal => "internal"@,
    }
}

/// The label values that `error_class` may take.
pub open spec fn is_error_class_label(v: Seq<char>) -> bool {
    v == "param"@ || v == "not_found"@ || v == "valence_build"@ || v == "internal"@
}

impl ErrorClass {
    /// Classify an error message by keyword sniffing.
    pub fn from_message(message: &str) -> (r: Self)
        ensures
            r == classify(message@),
    {
        let v = chars_of(message);
        if lower_contains(&v, "parameter error") || lower_contains(&v, "missing field")
            || lower_contains(&v, "invalid type") {
            ErrorClass::Param
        } else if lower_contains(&v, "not found") {
            ErrorClass::NotFound
        } else if lower_contains(&v, "valence") && lower_contains(&v, "build") {
            ErrorClass::ValenceBuild
        } else {
            ErrorClass::Internal
        }
    }

    /// Stable label value for Spectra dimensions.
    pub fn as_str(self) -> (r: &'static str)
        ensures
            r@ == class_label(self),
    {
        match self {
            ErrorClass::Param => "param",
            ErrorClass::NotFound => "not_found",
            ErrorClass::ValenceBuild => "valence_build",
            ErrorClass::Internal => "internal",
        }
    }
}

/// What `DefaultHasher::new()` yields for a text hashed with `Hash for str` (for the std release
/// the crate is built with: std leaves the algorithm free to change between releases).
pub uninterp spec fn std_default_hash(s: Seq<char>) -> u64;

/// Hashes `value` with std's `DefaultHasher` (through `BuildHasher::hash_one` on a
/// `BuildHasherDefault<DefaultHasher>`, which is `DefaultHasher::new()`, `str::hash`,
/// `finish`). `DefaultHasher::new()` uses fixed keys, so the result depends on the text alone;
/// which number it is, the contract leaves to the name `std_default_hash`.
#[verifier::external_body]
fn default_hash(value: &str) -> (h: u64)
    ensures
        h == std_default_hash(value@),
{
    std::hash::BuildHasherDefault::<std::collections::hash_map::DefaultHasher>::default().hash_one(
        value,
    )
}

/// The lowercase hexadecimal digit for `d` (`0 <= d < 16`).
pub open spec fn hex_char(d: int) -> char {
    if d < 10 {
        (('0' as int) + d) as char
    } else {
        (('a' as int) + d - 10) as char
    }
}

/// The last `n` hexadecimal digits of `v`, most significant first.
pub open spec fn hex_digits(v: nat, n: nat) -> Seq<char>
    decreases n,
{
    if n == 0 {
        seq![]
    } else {
        hex_digits(v / 16, (n - 1) as nat).push(hex_char(v as int % 16))
    }
}

/// `h` written as `format!("h{:016x}", h)` writes it.
pub open spec fn hashed_label(h: u64) -> Seq<char> {
    seq!['h'] + hex_digits(h as nat, 16)
}

fn hex_digit_char(d: u64) -> (c: char)
    requires
        d < 16,
    ensures
        c == hex_char(d as int),
{
    if d < 10 {
        ((d as u8) + 48) as char
    } else {
        ((d as u8) + 87) as char
    }
}

fn push_hex_digits(out: &mut String, v: u64, n: usize)
    requires
        n <= 16,
    ensures
        final(out)@ == old(out)@ + hex_digits(v as nat, n as nat),
    decreases n,
{
    if n > 0 {
        push_hex_digits(out, v / 16, n - 1);
        push_char(out, hex_digit_char(v % 16));
        assert(old(out)@ + hex_digits(v as nat, n as nat) =~= old(out)@ + hex_digits(
            (v / 16) as nat,
            (n - 1) as nat,
        ) + seq![hex_char(v as int % 16)]);
    } else {
        assert(old(out)@ + hex_digits(v as nat, 0) =~= old(out)@);
    }
}

/// The hashed label of a free-form value: `h` followed by its 16-digit lowercase hex hash.
pub fn hash_label_value(value: &str) -> (s: String)
    ensures
        s@ == hashed_label(std_default_hash(value@)),
{
    let h = default_hash(value);
    let mut s = String::new();
    push_char(&mut s, 'h');
    push_hex_digits(&mut s, h, 16);
    assert(s@ =~= hashed_label(h));
    s
}

/// The `job_name` label for a raw job name: blank or `unknown` stays `unknown`, anything else
/// becomes the hashed label of the trimmed name.
pub open spec fn bounded_job_label(raw: Seq<char>) -> Seq<char> {
    let t = trim(raw);
    if t.len() == 0 || t == "unknown"@ {
        "unknown"@
    } else {
        hashed_label(std_default_hash(t))
    }
}

/// Bound free-form `job_name` metric labels to stable hashed values.
pub fn bound_job_name_label(raw: &str) -> (s: String)
    ensures
        s@ == bounded_job_label(raw@),
{
    let v = chars_of(raw);
    let (lo, hi) = trim_bounds(&v);
    if lo == hi || range_is(&v, lo, hi, "unknown") {
        return "unknown".to_owned();
    }
    let trimmed = raw.substring_char(lo, hi);
    hash_label_value(trimmed)
}

/// The normalised value of an explicit `error_class` label: an allowed class as it is,
/// anything else `internal`.
pub open spec fn normalized_error_class(v: Seq<char>) -> Seq<char> {
    let n = lower(trim(v));
    if is_error_class_label(n) {
        n
    } else {
        "internal"@
    }
}

/// The value of the first pair whose key is `k1` or `k2`.
pub open spec fn lookup_either(ls: Seq<(Seq<char>, Seq<char>)>, k1: Seq<char>, k2: Seq<char>) -> Option<
    Seq<char>,
>
    decreases ls.len(),
{
    if ls.len() == 0 {
        None
    } else if ls[0].0 == k1 || ls[0].0 == k2 {
        Some(ls[0].1)
    } else {
        lookup_either(ls.drop_first(), k1, k2)
    }
}

/// The `error_class` of a failed run: an explicit `error_class` label wins (normalised); else the
/// class of the first `error` or `message` label; else `internal`.
pub open spec fn error_class_of_labels(ls: Seq<(Seq<char>, Seq<char>)>) -> Seq<char> {
    match lookup(ls, "error_class"@) {
        Some(v) => normalized_error_class(v),
        None => match lookup_either(ls, "error"@, "message"@) {
            Some(m) => class_label(classify(m)),
            None => "internal"@,
        },
    }
}

fn normalize_error_class(value: &str) -> (r: &'static str)
    ensures
        r@ == normalized_error_class(value@),
{
    let v = chars_of(value);
    let (lo, hi) = trim_bounds(&v);
    if lower_range_is(&v, lo, hi, "param") {
        "param"
    } else if lower_range_is(&v, lo, hi, "not_found") {
        "not_found"
    } else if lower_range_is(&v, lo, hi, "valence_build") {
        "valence_build"
    } else {
        "internal"
    }
}

/// Resolve `error_class` for `chronon_runs_failed` from labels or error text.
pub fn error_class_from_labels(labels: &[(&str, &str)]) -> (r: &'static str)
    ensures
        r@ == error_class_of_labels(pairs_view(labels@)),
{
    if let Some(value) = label_value(labels, "error_class") {
        return normalize_error_class(value);
    }
    let n = labels.len();
    let ghost pv = pairs_view(labels@);
    assert(pv.subrange(0, n as int) =~= pv);
    let mut i: usize = 0;
    while i < n
        invariant
            n == labels@.len() == pv.len(),
            pv == pairs_view(labels@),
            lookup(pv, "error_class"@) is None,
            i <= n,
            lookup_either(pv, "error"@, "message"@) == lookup_either(
                pv.subrange(i as int, n as int),
                "error"@,
                "message"@,
            ),
        decreases n - i,
    {
        let (k, v) = labels[i];
        assert(pv.subrange(i as int, n as int)[0] == pv[i as int]);
        if str_eq(k, "error") || str_eq(k, "message") {
            assert(pv[i as int] == (k@, v@));
            assert(lookup_either(pv.subrange(i as int, n as int), "error"@, "message"@) == Some(
                v@,
            ));
            return ErrorClass::from_message(v).as_str();
        }
        assert(pv.subrange(i as int, n as int).drop_first() =~= pv.subrange(i + 1, n as int));
        i = i + 1;
    }
    assert(pv.subrange(n as int, n as int).len() == 0);
    "internal"
}

/// The allowlisted `deployment_shape` values.
pub open spec fn is_deployment_shape(v: Seq<char>) -> bool {
    ||| v == "embedded"@
    ||| v == "remote_client"@
    ||| v == "worker"@
    ||| v == "coordinator"@
    ||| v == "scheduler"@
    ||| v == "distributed"@
    ||| v == "standalone"@
}

/// A configured shape, trimmed and lowercased, if allowlisted; else `unknown`.
pub open spec fn deployment_shape_label(raw: Seq<char>) -> Seq<char> {
    let n = lower(trim(raw));
    if is_deployment_shape(n) {
        n
    } else {
        "unknown"@
    }
}

/// Map a configured deployment shape onto the allowlist (`unknown` when not allowlisted).
pub fn sanitize_deployment_shape(raw: &str) -> (r: &'static str)
    ensures
        r@ == deployment_shape_label(raw@),
{
    let v = chars_of(raw);
    let (lo, hi) = trim_bounds(&v);
    if lower_range_is(&v, lo, hi, "embedded") {
        "embedded"
    } else if lower_range_is(&v, lo, hi, "remote_client") {
        "remote_client"
    } else if lower_range_is(&v, lo, hi, "worker") {
        "worker"
    } else if lower_range_is(&v, lo, hi, "coordinator") {
        "coordinator"
    } else if lower_range_is(&v, lo, hi, "scheduler") {
        "scheduler"
    } else if lower_range_is(&v, lo, hi, "distributed") {
        "distributed"
    } else if lower_range_is(&v, lo, hi, "standalone") {
        "standalone"
    } else {
        "unknown"
    }
}

/// A setting that is present and not blank.
pub open spec fn is_set(o: Option<Seq<char>>) -> bool {
    o is Some && trim(o->0).len() > 0
}

/// The deployment shape from `CHRONON_DEPLOYMENT_SHAPE`, `CHRONON_INSTANCE_ROLE` and
/// `CHRONON_REMOTE_BASE_URL`, in that order of precedence; `embedded` when none is set.
pub open spec fn deployment_shape_of(
    shape: Option<Seq<char>>,
    role: Option<Seq<char>>,
    remote_url: Option<Seq<char>>,
) -> Seq<char> {
    if is_set(shape) {
        deployment_shape_label(trim(shape->0))
    } else if is_set(role) {
        deployment_shape_label(trim(role->0))
    } else if is_set(remote_url) {
        "remote_client"@
    } else {
        "embedded"@
    }
}

/// The trimmed text of a setting, or `None` when it is absent or blank.
fn nonblank_trimmed(o: Option<&str>) -> (r: Option<&str>)
    ensures
        is_set(opt_view(o)) <==> r is Some,
        r matches Some(t) ==> t@ == trim(opt_view(o)->0),
{
    match o {
        Some(s) => {
            let v = chars_of(s);
            let (lo, hi) = trim_bounds(&v);
            if lo == hi {
                None
            } else {
                Some(s.substring_char(lo, hi))
            }
        },
        None => None,
    }
}

/// Resolve the allowlisted `deployment_shape` label from the values of
/// `CHRONON_DEPLOYMENT_SHAPE` / `CHRONON_INSTANCE_ROLE` / `CHRONON_REMOTE_BASE_URL`
/// (`None` where unset), defaulting to `"embedded"`.
pub fn deployment_shape_from_vars(
    shape: Option<&str>,
    role: Option<&str>,
    remote_url: Option<&str>,
) -> (r: &'static str)
    ensures
        r@ == deployment_shape_of(opt_view(shape), opt_view(role), opt_view(remote_url)),
{
    if let Some(t) = nonblank_trimmed(shape) {
        return sanitize_deployment_shape(t);
    }
    if let Some(t) = nonblank_trimmed(role) {
        return sanitize_deployment_shape(t);
    }
    if nonblank_trimmed(remote_url).is_some() {
        return "remote_client";
    }
    "embedded"
}

/// The `error_class` label of a failed run is always one of the four allowed classes, whatever
/// the labels say, so the metric's cardinality stays bounded.
pub proof fn lemma_error_class_bounded(ls: Seq<(Seq<char>, Seq<char>)>)
    ensures
        is_error_class_label(error_class_of_labels(ls)),
{
}

/// An explicit `error_class` label decides the class, ahead of any `error` or `message` text.
pub proof fn lemma_explicit_error_class_wins(ls: Seq<(Seq<char>, Seq<char>)>, v: Seq<char>)
    requires
        lookup(ls, "error_class"@) == Some(v),
    ensures
        error_class_of_labels(ls) == normalized_error_class(v),
{
}

/// Each error class has its own label value.
pub proof fn lemma_class_labels_distinct(a: ErrorClass, b: ErrorClass)
    ensures
        class_label(a) == class_label(b) ==> a == b,
{
    reveal_strlit("param");
    reveal_strlit("not_found");
    reveal_strlit("valence_build");
    reveal_strlit("internal");
    if class_label(a) == class_label(b) && a != b {
        let la = class_label(a);
        let lb = class_label(b);
        assert(la.len() != lb.len() || la[0] != lb[0]);
    }
}

/// Classification ignores ASCII case.
pub proof fn lemma_classify_ignores_case(m1: Seq<char>, m2: Seq<char>)
    requires
        lower(m1) == lower(m2),
    ensures
        classify(m1) == classify(m2),
{
}

/// A lowercase hexadecimal digit.
pub open spec fn is_hex_char(c: char) -> bool {
    ('0' <= c && c <= '9') || ('a' <= c && c <= 'f')
}

proof fn lemma_hex_digits_shape(v: nat, n: nat)
    ensures
        hex_digits(v, n).len() == n,
        forall|i: int| 0 <= i < n ==> is_hex_char(#[trigger] hex_digits(v, n)[i]),
    decreases n,
{
    if n > 0 {
        lemma_hex_digits_shape(v / 16, (n - 1) as nat);
        let d = v as int % 16;
        assert(is_hex_char(hex_char(d)));
        assert forall|i: int| 0 <= i < n implies is_hex_char(#[trigger] hex_digits(v, n)[i]) by {
            if i < n - 1 {
                assert(hex_digits(v, n)[i] == hex_digits(v / 16, (n - 1) as nat)[i]);
            }
        }
    }
}

/// A bounded job label is `unknown`, or `h` followed by 16 lowercase hexadecimal digits.
pub proof fn lemma_bounded_job_label_shape(raw: Seq<char>)
    ensures
        bounded_job_label(raw) == "unknown"@ || ({
            let l = bounded_job_label(raw);
            &&& l.len() == 17
            &&& l[0] == 'h'
            &&& forall|i: int| 1 <= i < 17 ==> is_hex_char(#[trigger] l[i])
        }),
{
    let t = trim(raw);
    if !(t.len() == 0 || t == "unknown"@) {
        let h = std_default_hash(t);
        lemma_hex_digits_shape(h as nat, 16);
        let l = hashed_label(h);
        assert forall|i: int| 1 <= i < 17 implies is_hex_char(#[trigger] l[i]) by {
            assert(l[i] == hex_digits(h as nat, 16)[i - 1]);
        }
    }
}

/// Whitespace around a job name does not change its label.
pub proof fn lemma_bounded_job_label_trim(raw: Seq<char>)
    ensures
        bounded_job_label(trim(raw)) == bounded_job_label(raw),
{
    lemma_trim_idempotent(raw);
}

/// `16^n`.
pub open spec fn pow16(n: nat) -> nat
    decreases n,
{
    if n == 0 {
        1
    } else {
        16 * pow16((n - 1) as nat)
    }
}

proof fn lemma_hex_char_injective(a: int, b: int)
    requires
        0 <= a < 16,
        0 <= b < 16,
        hex_char(a) == hex_char(b),
    ensures
        a == b,
{
    assert((hex_char(a) as int) == if a < 10 {
        48 + a
    } else {
        87 + a
    });
    assert((hex_char(b) as int) == if b < 10 {
        48 + b
    } else {
        87 + b
    });
}

proof fn lemma_hex_digits_injective(v: nat, w: nat, n: nat)
    requires
        hex_digits(v, n) == hex_digits(w, n),
    ensures
        v % pow16(n) == w % pow16(n),
    decreases n,
{
    if n == 0 {
        assert(v % 1 == 0 && w % 1 == 0);
    } else {
        let dv = hex_digits(v, n);
        let dw = hex_digits(w, n);
        assert(dv.last() == dw.last());
        lemma_hex_char_injective(v as int % 16, w as int % 16);
        assert(dv.drop_last() =~= hex_digits(v / 16, (n - 1) as nat));
        assert(dw.drop_last() =~= hex_digits(w / 16, (n - 1) as nat));
        lemma_hex_digits_injective(v / 16, w / 16, (n - 1) as nat);
        let p = pow16((n - 1) as nat);
        lemma_pow16_positive((n - 1) as nat);
        vstd::arithmetic::div_mod::lemma_mod_breakdown(v as int, 16, p as int);
        vstd::arithmetic::div_mod::lemma_mod_breakdown(w as int, 16, p as int);
    }
}

proof fn lemma_pow16_positive(n: nat)
    ensures
        pow16(n) > 0,
    decreases n,
{
    if n > 0 {
        lemma_pow16_positive((n - 1) as nat);
    }
}

/// Distinct hashes give distinct labels: the 16 hex digits determine the hash.
pub proof fn lemma_hashed_label_injective(h1: u64, h2: u64)
    ensures
        hashed_label(h1) == hashed_label(h2) ==> h1 == h2,
{
    if hashed_label(h1) == hashed_label(h2) {
        assert(hashed_label(h1).drop_first() =~= hex_digits(h1 as nat, 16));
        assert(hashed_label(h2).drop_first() =~= hex_digits(h2 as nat, 16));
        lemma_hex_digits_injective(h1 as nat, h2 as nat, 16);
        assert(pow16(16) == 0x1_0000_0000_0000_0000) by {
            reveal_with_fuel(pow16, 17);
        }
    }
}

/// The deployment shape label is always an allowlisted shape or `unknown`, so the metric's
/// cardinality stays bounded whatever the environment holds.
pub proof fn lemma_deployment_shape_bounded(
    shape: Option<Seq<char>>,
    role: Option<Seq<char>>,
    remote_url: Option<Seq<char>>,
)
    ensures
        is_deployment_shape(deployment_shape_of(shape, role, remote_url)) || deployment_shape_of(
            shape,
            role,
            remote_url,
        ) == "unknown"@,
{
}

/// `n` occurs in `h`: `h` splits as something, then `n`, then something.
pub open spec fn occurs(h: Seq<char>, n: Seq<char>) -> bool {
    exists|a: Seq<char>, b: Seq<char>| #[trigger] (a + n + b) == h
}

/// `m` with `A`..`Z` replaced by `a`..`z`.
pub open spec fn folded(m: Seq<char>) -> Seq<char> {
    Seq::new(
        m.len(),
        |i: int|
            if 'A' <= m[i] && m[i] <= 'Z' {
                ((m[i] as u32) + 32) as char
            } else {
                m[i]
            },
    )
}

proof fn lemma_occurs_contains(h: Seq<char>, n: Seq<char>)
    ensures
        occurs(h, n) == contains_seq(h, n),
{
    if contains_seq(h, n) {
        let i = choose|i: int|
            0 <= i && i + n.len() <= h.len() && #[trigger] h.subrange(i, i + n.len()) == n;
        let a = h.take(i);
        let b = h.skip(i + n.len());
        assert(a + n + b =~= h);
    }
    if occurs(h, n) {
        let (a, b) = choose|a: Seq<char>, b: Seq<char>| #[trigger] (a + n + b) == h;
        let i = a.len() as int;
        assert(h.subrange(i, i + n.len()) =~= n);
    }
}

/// An error message is classed `param` exactly when it mentions (in any ASCII case) a parameter
/// error, a missing field or an invalid type; otherwise `not_found` exactly when it mentions
/// "not found"; otherwise `valence_build` exactly when it mentions both "valence" and "build";
/// every other message is `internal`.
pub proof fn lemma_classify_law(m: Seq<char>)
    ensures
        ({
            let l = folded(m);
            let param = occurs(l, "parameter error"@) || occurs(l, "missing field"@) || occurs(
                l,
                "invalid type"@,
            );
            let not_found = occurs(l, "not found"@);
            let valence_build = occurs(l, "valence"@) && occurs(l, "build"@);
            &&& (classify(m) == ErrorClass::Param) == param
            &&& (classify(m) == ErrorClass::NotFound) == (!param && not_found)
            &&& (classify(m) == ErrorClass::ValenceBuild) == (!param && !not_found && valence_build)
            &&& (classify(m) == ErrorClass::Internal) == (!param && !not_found && !valence_build)
        }),
{
    let l = folded(m);
    assert(lower(m) =~= l);
    lemma_occurs_contains(l, "parameter error"@);
    lemma_occurs_contains(l, "missing field"@);
    lemma_occurs_contains(l, "invalid type"@);
    lemma_occurs_contains(l, "not found"@);
    lemma_occurs_contains(l, "valence"@);
    lemma_occurs_contains(l, "build"@);
}

/// A job name maps to `unknown` exactly when it is blank or `unknown` once trimmed; two other names
/// get the same label exactly when the std hashes of their whole trimmed texts agree.
pub proof fn lemma_bounded_job_label_law(a: Seq<char>, b: Seq<char>)
    ensures
        (bounded_job_label(a) == "unknown"@) == (trim(a).len() == 0 || trim(a) == "unknown"@),
        !(trim(a).len() == 0 || trim(a) == "unknown"@) && !(trim(b).len() == 0 || trim(b)
            == "unknown"@) ==> ((bounded_job_label(a) == bounded_job_label(b)) == (std_default_hash(
            trim(a),
        ) == std_default_hash(trim(b)))),
{
    reveal_strlit("unknown");
    let ta = trim(a);
    if !(ta.len() == 0 || ta == "unknown"@) {
        lemma_hex_digits_shape(std_default_hash(ta) as nat, 16);
        assert(bounded_job_label(a).len() == 17);
    }
    lemma_hashed_label_injective(std_default_hash(trim(a)), std_default_hash(trim(b)));
}

/// An explicit `error_class` whose trimmed, lowercased text is an allowed class is kept as that
/// text; any other explicit value becomes `internal`.
pub proof fn lemma_normalized_error_class_law(v: Seq<char>)
    ensures
        is_error_class_label(folded(trim(v))) ==> normalized_error_class(v) == folded(trim(v)),
        !is_error_class_label(folded(trim(v))) ==> normalized_error_class(v) == "internal"@,
{
    assert(lower(trim(v)) =~= folded(trim(v)));
}

/// A configured shape is kept (trimmed, lowercased) when allowlisted and is `unknown` otherwise.
pub proof fn lemma_deployment_shape_label_law(v: Seq<char>)
    ensures
        is_deployment_shape(folded(trim(v))) ==> deployment_shape_label(v) == folded(trim(v)),
        !is_deployment_shape(folded(trim(v))) ==> deployment_shape_label(v) == "unknown"@,
{
    assert(lower(trim(v)) =~= folded(trim(v)));
}

/// Precedence of the deployment settings: a set `CHRONON_DEPLOYMENT_SHAPE` decides alone; else a
/// set `CHRONON_INSTANCE_ROLE` decides alone; else a set `CHRONON_REMOTE_BASE_URL` gives
/// `remote_client`, and nothing set gives `embedded`.
pub proof fn lemma_deployment_shape_precedence(
    shape: Option<Seq<char>>,
    role: Option<Seq<char>>,
    url: Option<Seq<char>>,
    role2: Option<Seq<char>>,
    url2: Option<Seq<char>>,
)
    ensures
        is_set(shape) ==> deployment_shape_of(shape, role, url) == deployment_shape_of(
            shape,
            role2,
            url2,
        ),
        is_set(shape) ==> deployment_shape_of(shape, role, url) == deployment_shape_label(
            shape->0,
        ),
        !is_set(shape) && is_set(role) ==> deployment_shape_of(shape, role, url)
            == deployment_shape_of(None, role, url2),
        !is_set(shape) && !is_set(role) ==> deployment_shape_of(shape, role, url) == if is_set(
            url,
        ) {
            "remote_client"@
        } else {
            "embedded"@
        },
{
    if is_set(shape) {
        lemma_trim_idempotent(shape->0);
        assert(lower(trim(trim(shape->0))) == lower(trim(shape->0)));
    }
}

} // verus!
