use chronon_spectra_telemetry::install::{sink_choice_from_setting, SinkChoice, SpectraTelemetrySink};

#[test]
fn sink_choice_aliases() {
    for off in ["off", "0", "false", "none", " OFF ", "None", "\tFalse\n"] {
        assert_eq!(sink_choice_from_setting(Some(off)), SinkChoice::NoOp, "{off:?}");
    }
    assert_eq!(sink_choice_from_setting(Some("console")), SinkChoice::Console);
    assert_eq!(sink_choice_from_setting(Some(" Console ")), SinkChoice::Console);
    assert_eq!(sink_choice_from_setting(Some("spectra")), SinkChoice::Spectra);
    assert_eq!(sink_choice_from_setting(Some("")), SinkChoice::Spectra);
    assert_eq!(sink_choice_from_setting(Some("offline")), SinkChoice::Spectra);
    assert_eq!(sink_choice_from_setting(None), SinkChoice::Spectra);
    let _sink = SpectraTelemetrySink::new();
    let _default: SpectraTelemetrySink = Default::default();
}
