use seqterm::plugin_au::{scan_system, AuInstrument};

#[test]
fn scan_returns_empty_on_non_macos() {
    assert!(scan_system().is_empty());
}

#[test]
fn au_instrument_presets_and_stop() {
    let mut inst = AuInstrument::new("Alchemy".to_string());
    assert!(inst.is_active());
    assert_eq!(inst.backend_name(), "Audio Unit (stub)");
    let p = inst.list_presets();
    assert_eq!(p.len(), 1);
    assert_eq!(p[0].name, "Alchemy");
    assert_eq!(p[0].bank, 0);
    inst.stop();
    assert!(!inst.is_active());
}
