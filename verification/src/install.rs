//! The Spectra-backed telemetry sink and the choice of sink from `CHRONON_TELEMETRY`.
use vstd::prelude::*;

use crate::metrics::opt_view;
use crate::labels::folded;
use crate::text::{chars_of, lower, lower_range_is, trim, trim_bounds};

verus! {

/// Spectra-backed Chronon telemetry sink: each `record_counter` / `record_gauge` / `log_event`
/// call is remapped by [`crate::metrics`] onto this crate's typed Spectra schemas.
#[derive(Debug, Clone, Copy)]
pub struct SpectraTelemetrySink;

impl SpectraTelemetrySink {
    /// Build a Spectra-backed sink.
    pub fn new() -> (r: Self)
        ensures
            r == SpectraTelemetrySink,
    {
        SpectraTelemetrySink
    }
}

impl Default for SpectraTelemetrySink {
    fn default() -> (r: Self)
        ensures
            r == SpectraTelemetrySink,
    {
        SpectraTelemetrySink
    }
}

/// Which telemetry sink a process installs.
#[derive(Debug, Clone, Copy, PartialEq, Eq, Structural)]
pub enum SinkChoice {
    /// Discard all telemetry.
    NoOp,
    /// Log telemetry through `tracing`.
    Console,
    /// Forward telemetry to Spectra.
    Spectra,
}

/// The sink for a `CHRONON_TELEMETRY` value (`None` when unset): `off`, `0`, `false` and `none`
/// turn telemetry off, `console` logs it, anything else (and unset) uses Spectra; the value is
/// trimmed and compared without regard to ASCII case.
pub open spec fn sink_choice_of(setting: Option<Seq<char>>) -> SinkChoice {
    match setting {
        Some(v) => {
            let n = lower(trim(v));
            if n == "off"@ || n == "0"@ || n == "false"@ || n == "none"@ {
                SinkChoice::NoOp
            } else if n == "console"@ {
                SinkChoice::Console
            } else {
                SinkChoice::Spectra
            }
        },
        None => SinkChoice::Spectra,
    }
}

/// Resolve the sink to install from the value of `CHRONON_TELEMETRY`.
pub fn sink_choice_from_setting(setting: Option<&str>) -> (r: SinkChoice)
    ensures
        r == sink_choice_of(opt_view(setting)),
{
    match setting {
        Some(s) => {
            let v = chars_of(s);
            let (lo, hi) = trim_bounds(&v);
            if lower_range_is(&v, lo, hi, "off") || lower_range_is(&v, lo, hi, "0")
                || lower_range_is(&v, lo, hi, "false") || lower_range_is(&v, lo, hi, "none") {
                SinkChoice::NoOp
            } else if lower_range_is(&v, lo, hi, "console") {
                SinkChoice::Console
            } else {
                SinkChoice::Spectra
            }
        },
        None => SinkChoice::Spectra,
    }
}

/// The sink depends only on the setting's trimmed, ASCII-lowercased text: `off`, `0`, `false`
/// and `none` give no telemetry, `console` the console sink, everything else (and no setting)
/// Spectra.
pub proof fn lemma_sink_choice_law(a: Seq<char>, b: Seq<char>)
    ensures
        folded(trim(a)) == folded(trim(b)) ==> sink_choice_of(Some(a)) == sink_choice_of(Some(b)),
        (sink_choice_of(Some(a)) == SinkChoice::NoOp) == (folded(trim(a)) == "off"@ || folded(
            trim(a),
        ) == "0"@ || folded(trim(a)) == "false"@ || folded(trim(a)) == "none"@),
        (sink_choice_of(Some(a)) == SinkChoice::Console) == (folded(trim(a)) == "console"@),
        sink_choice_of(None) == SinkChoice::Spectra,
{
    assert(lower(trim(a)) =~= folded(trim(a)));
    assert(lower(trim(b)) =~= folded(trim(b)));
    reveal_strlit("off");
    reveal_strlit("0");
    reveal_strlit("false");
    reveal_strlit("none");
    reveal_strlit("console");
}

} // verus!
