use seqterm::musicxml::musicxml_document;
use seqterm::note::Note;
use seqterm::pattern::Pattern;

fn lead(len: usize) -> Pattern {
    let mut p = Pattern::new("Lead".to_string(), len);
    p.set_step(0, Note::from_midi(61, 100).unwrap());
    p
}

#[test]
fn musicxml_writes_parts_measures_and_notes() {
    let x = musicxml_document(&vec![("k1".to_string(), lead(16))], "120");
    assert!(x.starts_with("<?xml version=\"1.0\" encoding=\"UTF-8\"?>\n"));
    assert!(x.contains("    <score-part id=\"P1\"><part-name>Lead</part-name></score-part>\n"));
    assert!(x.contains("  <part id=\"P1\">\n    <measure number=\"1\">\n"));
    assert!(x.contains("<per-minute>120</per-minute>"));
    assert!(x.contains("          <step>C</step>\n          <alter>1</alter>\n          <octave>4</octave>\n"));
    assert!(x.contains("        <dynamics><f/></dynamics>\n"));
    assert_eq!(x.matches("<rest/>").count(), 15);
    assert!(x.ends_with("    </measure>\n  </part>\n</score-partwise>\n"));
}

#[test]
fn musicxml_pads_the_last_measure_and_names_unnamed_parts_by_key() {
    let mut p = lead(20);
    p.name = String::new();
    let x = musicxml_document(&vec![("bass".to_string(), p)], "90");
    assert!(x.contains("<part-name>bass</part-name>"));
    assert!(x.contains("<measure number=\"2\">"));
    assert!(!x.contains("<measure number=\"3\">"));
    assert_eq!(x.matches("<rest/>").count(), 31);
    assert_eq!(x.matches("<attributes>").count(), 1);
}
