//! A MusicXML partwise score of a session's patterns: one part per
//! pattern, sixteen 16th-note steps per 4/4 measure (one division each),
//! empty steps as rests, chords as one note per voice.

use crate::note::{all_note_ons_spec, decimal, is_rest, note_value_fits, Note};
use crate::pattern::Pattern;
use crate::sched::str_eq;
use crate::text::append_decimal;
use vstd::prelude::*;
use vstd::string::*;

verus! {

/// A rest of one step.
pub open spec fn rest_xml() -> Seq<char> {
    "      <note><rest/><duration>1</duration><type>16th</type></note>\n"@
}

/// The letter of pitch class `pc` (sharps written on the letter below).
pub open spec fn pitch_letter(pc: int) -> Seq<char> {
    if pc == 0 || pc == 1 {
        "C"@
    } else if pc == 2 || pc == 3 {
        "D"@
    } else if pc == 4 {
        "E"@
    } else if pc == 5 || pc == 6 {
        "F"@
    } else if pc == 7 || pc == 8 {
        "G"@
    } else if pc == 9 || pc == 10 {
        "A"@
    } else {
        "B"@
    }
}

/// Pitch class `pc` is a sharp.
pub open spec fn is_sharp(pc: int) -> bool {
    pc == 1 || pc == 3 || pc == 6 || pc == 8 || pc == 10
}

/// The octave of MIDI note `midi` (note 60 is in octave 4).
pub open spec fn octave_xml(midi: u8) -> Seq<char> {
    if midi < 12 {
        "-1"@
    } else {
        decimal((midi / 12 - 1) as nat)
    }
}

/// The dynamic marking of a velocity.
pub open spec fn dynamic_of(vel: u8) -> Seq<char> {
    if vel <= 31 {
        "pp"@
    } else if vel <= 63 {
        "p"@
    } else if vel <= 79 {
        "mp"@
    } else if vel <= 95 {
        "mf"@
    } else if vel <= 111 {
        "f"@
    } else {
        "ff"@
    }
}

/// The direction line an effect command writes before its note (dynamics
/// or a wedge), or nothing.
pub open spec fn direction_of(fx: Seq<char>) -> Seq<char> {
    if fx == "V10"@ {
        "      <direction placement=\"below\"><direction-type><dynamics><pp/></dynamics></direction-type></direction>\n"@
    } else if fx == "V20"@ {
        "      <direction placement=\"below\"><direction-type><dynamics><p/></dynamics></direction-type></direction>\n"@
    } else if fx == "V40"@ {
        "      <direction placement=\"below\"><direction-type><dynamics><mf/></dynamics></direction-type></direction>\n"@
    } else if fx == "V7F"@ {
        "      <direction placement=\"below\"><direction-type><dynamics><ff/></dynamics></direction-type></direction>\n"@
    } else if fx == "C01"@ {
        "      <direction placement=\"below\"><direction-type><wedge type=\"crescendo\" number=\"1\"/></direction-type></direction>\n"@
    } else if fx == "D10"@ || fx == "D20"@ || fx == "D40"@ {
        "      <direction placement=\"below\"><direction-type><wedge type=\"diminuendo\" number=\"1\"/></direction-type></direction>\n"@
    } else {
        Seq::empty()
    }
}

/// The articulation line an effect command writes inside its note, or nothing.
pub open spec fn articulation_of(fx: Seq<char>) -> Seq<char> {
    if fx == "S01"@ {
        "            <staccatissimo/>\n"@
    } else if fx == "S04"@ || fx == "S08"@ {
        "            <staccato/>\n"@
    } else if fx == "R01"@ {
        "            <accent/>\n"@
    } else if fx == "G01"@ {
        "            <other-articulation>glissando</other-articulation>\n"@
    } else {
        Seq::empty()
    }
}

/// The notations block of a note with effects `fx1` and `fx2`: their
/// articulations, or nothing when neither has one.
pub open spec fn notations_xml(fx1: Seq<char>, fx2: Seq<char>) -> Seq<char> {
    let arts = articulation_of(fx1) + articulation_of(fx2);
    if arts.len() == 0 {
        Seq::empty()
    } else {
        "        <notations>\n"@ + "          <articulations>\n"@ + arts + "          </articulations>\n"@ + "        </notations>\n"@
    }
}

/// One voice of a step: its pitch, a 16th-note duration, its dynamic and
/// its notations.
pub open spec fn voice_xml(midi: u8, dynamic: Seq<char>, notations: Seq<char>) -> Seq<char> {
    "      <note>\n"@ + "        <pitch>\n"@ + "          <step>"@ + pitch_letter((midi % 12) as int) + "</step>\n"@ + (if is_sharp(
        (midi % 12) as int,
    ) {
        "          <alter>1</alter>\n"@
    } else {
        Seq::empty()
    }) + "          <octave>"@ + octave_xml(midi) + "</octave>\n"@ + "        </pitch>\n"@ + "        <duration>1</duration>\n"@
        + "        <type>16th</type>\n"@ + "        <dynamics><"@ + dynamic + "/></dynamics>\n"@ + notations + "      </note>\n"@
}

/// The voices `vs[..k]` of a step.
pub open spec fn voices_xml(vs: Seq<(u8, u8)>, dynamic: Seq<char>, notations: Seq<char>, k: int) -> Seq<char>
    decreases k,
{
    if k <= 0 {
        Seq::empty()
    } else {
        voices_xml(vs, dynamic, notations, k - 1) + voice_xml(vs[k - 1].0, dynamic, notations)
    }
}

/// A step holding note `n`: a rest when it is empty or sounds nothing,
/// else its effects' directions and then one note per voice.
pub open spec fn step_xml(n: Note) -> Seq<char> {
    if is_rest(n.note@) {
        rest_xml()
    } else {
        let vs = all_note_ons_spec(n);
        direction_of(n.fx1@) + direction_of(n.fx2@) + if vs.len() == 0 {
            rest_xml()
        } else {
            voices_xml(vs, dynamic_of(n.velocity), notations_xml(n.fx1@, n.fx2@), vs.len() as int)
        }
    }
}

/// The measure count of a pattern of `len` steps: one per 16 steps begun.
pub open spec fn measure_count(len: int) -> int {
    (if len + 15 < 1 { 1 } else { len + 15 }) / 16
}

/// Entries `16 * m .. 16 * m + k` of measure `m`: the pattern's steps
/// (a missing step is a rest) up to its length, then rests.
pub open spec fn measure_steps(p: Pattern, m: int, k: int) -> Seq<char>
    decreases k,
{
    if k <= 0 {
        Seq::empty()
    } else {
        let idx = 16 * m + k - 1;
        let end = if p.length < 1 { 1 } else { p.length as int };
        measure_steps(p, m, k - 1) + if idx < end && idx < p.steps@.len() {
            step_xml(p.steps@[idx])
        } else {
            rest_xml()
        }
    }
}

/// The first measure's attributes (16th-note divisions, C major, 4/4,
/// treble clef) and tempo `bpm`.
pub open spec fn attributes_xml(bpm: Seq<char>) -> Seq<char> {
    "      <attributes>\n        <divisions>4</divisions>\n        <key><fifths>0</fifths></key>\n        <time><beats>4</beats><beat-type>4</beat-type></time>\n        <clef><sign>G</sign><line>2</line></clef>\n      </attributes>\n      <direction placement=\"above\">\n        <direction-type>\n          <metronome parentheses=\"no\"><beat-unit>quarter</beat-unit><per-minute>"@
        + bpm + "</per-minute></metronome>\n        </direction-type>\n        <sound tempo=\""@ + bpm + "\"/>\n      </direction>\n"@
}

/// Measure `m` of a pattern.
pub open spec fn measure_xml(p: Pattern, m: int, bpm: Seq<char>) -> Seq<char> {
    "    <measure number=\""@ + decimal((m + 1) as nat) + "\">\n"@ + (if m == 0 {
        attributes_xml(bpm)
    } else {
        Seq::empty()
    }) + measure_steps(p, m, 16) + "    </measure>\n"@
}

/// Measures `..k` of a pattern.
pub open spec fn measures_xml(p: Pattern, bpm: Seq<char>, k: int) -> Seq<char>
    decreases k,
{
    if k <= 0 {
        Seq::empty()
    } else {
        measures_xml(p, bpm, k - 1) + measure_xml(p, k - 1, bpm)
    }
}

/// The part-list entries of parts `..k`: each named after its pattern, or
/// its key when the pattern has no name.
pub open spec fn part_list_xml(parts: Seq<(String, Pattern)>, k: int) -> Seq<char>
    decreases k,
{
    if k <= 0 {
        Seq::empty()
    } else {
        let (key, p) = parts[k - 1];
        part_list_xml(parts, k - 1) + "    <score-part id=\"P"@ + decimal(k as nat) + "\"><part-name>"@ + (if p.name@.len()
            == 0 {
            key@
        } else {
            p.name@
        }) + "</part-name></score-part>\n"@
    }
}

/// The parts `..k`.
pub open spec fn parts_xml(parts: Seq<(String, Pattern)>, bpm: Seq<char>, k: int) -> Seq<char>
    decreases k,
{
    if k <= 0 {
        Seq::empty()
    } else {
        let p = parts[k - 1].1;
        parts_xml(parts, bpm, k - 1) + "  <part id=\"P"@ + decimal(k as nat) + "\">\n"@ + measures_xml(
            p,
            bpm,
            measure_count(p.length as int),
        ) + "  </part>\n"@
    }
}

/// The whole score of `parts` (in the given order) at tempo `bpm`.
pub open spec fn score_xml(parts: Seq<(String, Pattern)>, bpm: Seq<char>) -> Seq<char> {
    "<?xml version=\"1.0\" encoding=\"UTF-8\"?>\n<!DOCTYPE score-partwise PUBLIC \"-//Recordare//DTD MusicXML 4.0 Partwise//EN\" \"http://www.musicxml.org/dtds/partwise.dtd\">\n<score-partwise version=\"4.0\">\n"@
        + "  <part-list>\n"@ + part_list_xml(parts, parts.len() as int) + "  </part-list>\n"@ + parts_xml(
        parts,
        bpm,
        parts.len() as int,
    ) + "</score-partwise>\n"@
}


/// Append the direction line of effect command `fx`.
fn push_direction(xml: &mut String, fx: &String)
    ensures
        final(xml)@ == old(xml)@ + direction_of(fx@),
{
    let f = fx.as_str();
    if str_eq(f, "V10") {
        xml.append("      <direction placement=\"below\"><direction-type><dynamics><pp/></dynamics></direction-type></direction>\n");
    } else if str_eq(f, "V20") {
        xml.append("      <direction placement=\"below\"><direction-type><dynamics><p/></dynamics></direction-type></direction>\n");
    } else if str_eq(f, "V40") {
        xml.append("      <direction placement=\"below\"><direction-type><dynamics><mf/></dynamics></direction-type></direction>\n");
    } else if str_eq(f, "V7F") {
        xml.append("      <direction placement=\"below\"><direction-type><dynamics><ff/></dynamics></direction-type></direction>\n");
    } else if str_eq(f, "C01") {
        xml.append("      <direction placement=\"below\"><direction-type><wedge type=\"crescendo\" number=\"1\"/></direction-type></direction>\n");
    } else if str_eq(f, "D10") || str_eq(f, "D20") || str_eq(f, "D40") {
        xml.append("      <direction placement=\"below\"><direction-type><wedge type=\"diminuendo\" number=\"1\"/></direction-type></direction>\n");
    } else {
        proof {
            assert(old(xml)@ + direction_of(fx@) =~= old(xml)@);
        }
    }
}

/// Append the articulation line of effect command `fx`.
fn push_articulation(xml: &mut String, fx: &String)
    ensures
        final(xml)@ == old(xml)@ + articulation_of(fx@),
{
    let f = fx.as_str();
    if str_eq(f, "S01") {
        xml.append("            <staccatissimo/>\n");
    } else if str_eq(f, "S04") || str_eq(f, "S08") {
        xml.append("            <staccato/>\n");
    } else if str_eq(f, "R01") {
        xml.append("            <accent/>\n");
    } else if str_eq(f, "G01") {
        xml.append("            <other-articulation>glissando</other-articulation>\n");
    } else {
        proof {
            assert(old(xml)@ + articulation_of(fx@) =~= old(xml)@);
        }
    }
}

/// The notations block of a note with effects `fx1` and `fx2`.
fn notations(fx1: &String, fx2: &String) -> (r: String)
    ensures
        r@ == notations_xml(fx1@, fx2@),
{
    let mut arts = String::new();
    push_articulation(&mut arts, fx1);
    push_articulation(&mut arts, fx2);
    proof {
        assert(arts@ =~= articulation_of(fx1@) + articulation_of(fx2@));
    }
    if arts.as_str().unicode_len() == 0 {
        return String::new();
    }
    let mut r = String::new();
    r.append("        <notations>\n");
    r.append("          <articulations>\n");
    r.append(arts.as_str());
    r.append("          </articulations>\n");
    r.append("        </notations>\n");
    proof {
        assert(r@ =~= notations_xml(fx1@, fx2@));
    }
    r
}

/// The dynamic marking of a velocity.
fn dynamic_text(vel: u8) -> (r: &'static str)
    ensures
        r@ == dynamic_of(vel),
{
    if vel <= 31 {
        "pp"
    } else if vel <= 63 {
        "p"
    } else if vel <= 79 {
        "mp"
    } else if vel <= 95 {
        "mf"
    } else if vel <= 111 {
        "f"
    } else {
        "ff"
    }
}

/// Append the letter of pitch class `pc`.
fn push_letter(xml: &mut String, pc: u8)
    ensures
        final(xml)@ == old(xml)@ + pitch_letter(pc as int),
{
    if pc == 0 || pc == 1 {
        xml.append("C");
    } else if pc == 2 || pc == 3 {
        xml.append("D");
    } else if pc == 4 {
        xml.append("E");
    } else if pc == 5 || pc == 6 {
        xml.append("F");
    } else if pc == 7 || pc == 8 {
        xml.append("G");
    } else if pc == 9 || pc == 10 {
        xml.append("A");
    } else {
        xml.append("B");
    }
}

/// The pitch lines of MIDI note `midi`.
pub open spec fn pitch_xml(midi: u8) -> Seq<char> {
    "        <pitch>\n"@ + "          <step>"@ + pitch_letter((midi % 12) as int) + "</step>\n"@ + (if is_sharp(
        (midi % 12) as int,
    ) {
        "          <alter>1</alter>\n"@
    } else {
        Seq::empty()
    }) + "          <octave>"@ + octave_xml(midi) + "</octave>\n"@ + "        </pitch>\n"@
}

/// Append the pitch lines of MIDI note `midi`.
fn push_pitch(xml: &mut String, midi: u8)
    ensures
        final(xml)@ == old(xml)@ + pitch_xml(midi),
{
    xml.append("        <pitch>\n");
    xml.append("          <step>");
    let pc = midi % 12;
    push_letter(xml, pc);
    xml.append("</step>\n");
    let ghost a = xml@;
    if pc == 1 || pc == 3 || pc == 6 || pc == 8 || pc == 10 {
        xml.append("          <alter>1</alter>\n");
    }
    let ghost b = xml@;
    xml.append("          <octave>");
    if midi < 12 {
        xml.append("-1");
    } else {
        append_decimal(xml, (midi / 12 - 1) as u64);
    }
    xml.append("</octave>\n");
    xml.append("        </pitch>\n");
    proof {
        assert(b =~= a + (if is_sharp((midi % 12) as int) {
            "          <alter>1</alter>\n"@
        } else {
            Seq::empty()
        }));
        assert(final(xml)@ =~= old(xml)@ + pitch_xml(midi));
    }
}

/// Append one voice of a step.
fn push_voice(xml: &mut String, midi: u8, dynamic: &str, notes: &str)
    ensures
        final(xml)@ == old(xml)@ + voice_xml(midi, dynamic@, notes@),
{
    xml.append("      <note>\n");
    let ghost a = xml@;
    push_pitch(xml, midi);
    let ghost b = xml@;
    xml.append("        <duration>1</duration>\n");
    xml.append("        <type>16th</type>\n");
    xml.append("        <dynamics><");
    xml.append(dynamic);
    xml.append("/></dynamics>\n");
    xml.append(notes);
    xml.append("      </note>\n");
    proof {
        assert(b == a + pitch_xml(midi));
        assert(voice_xml(midi, dynamic@, notes@) =~= "      <note>\n"@ + pitch_xml(midi) + "        <duration>1</duration>\n"@
            + "        <type>16th</type>\n"@ + "        <dynamics><"@ + dynamic@ + "/></dynamics>\n"@ + notes@ + "      </note>\n"@);
        assert(final(xml)@ =~= old(xml)@ + voice_xml(midi, dynamic@, notes@));
    }
}

/// The step's notes can be read as MIDI note numbers.
pub open spec fn step_writable(n: Note) -> bool {
    &&& note_value_fits(n.note@)
    &&& forall|i: int| 0 <= i < n.chord_notes@.len() ==> note_value_fits(#[trigger] n.chord_notes@[i]@)
}

/// Append a step holding `n`.
fn push_step(xml: &mut String, n: &Note)
    requires
        step_writable(*n),
    ensures
        final(xml)@ == old(xml)@ + step_xml(*n),
{
    if n.is_empty() {
        xml.append("      <note><rest/><duration>1</duration><type>16th</type></note>\n");
        return;
    }
    let ghost start = xml@;
    push_direction(xml, &n.fx1);
    push_direction(xml, &n.fx2);
    let ghost after_dirs = xml@;
    let vs = n.all_note_ons();
    if vs.len() == 0 {
        xml.append("      <note><rest/><duration>1</duration><type>16th</type></note>\n");
        proof {
            assert(final(xml)@ =~= old(xml)@ + step_xml(*n));
        }
        return;
    }
    let dynamic = dynamic_text(n.velocity);
    let notes = notations(&n.fx1, &n.fx2);
    let mut k: usize = 0;
    while k < vs.len()
        invariant
            k <= vs@.len(),
            xml@ == after_dirs + voices_xml(vs@, dynamic@, notes@, k as int),
        decreases vs@.len() - k,
    {
        push_voice(xml, vs[k].0, dynamic, notes.as_str());
        proof {
            assert(xml@ =~= after_dirs + voices_xml(vs@, dynamic@, notes@, k as int + 1));
        }
        k = k + 1;
    }
    proof {
        assert(final(xml)@ =~= old(xml)@ + step_xml(*n));
    }
}

/// Every step of every part can be read as MIDI note numbers, and each
/// pattern's length leaves room to count its measures.
pub open spec fn score_writable(parts: Seq<(String, Pattern)>) -> bool {
    forall|j: int|
        0 <= j < parts.len() ==> {
            &&& (#[trigger] parts[j]).1.length + 15 <= usize::MAX
            &&& forall|i: int| 0 <= i < parts[j].1.steps@.len() ==> step_writable(#[trigger] parts[j].1.steps@[i])
        }
}

/// Append measure `m` of pattern `p`.
fn push_measure(xml: &mut String, p: &Pattern, m: usize, bpm: &str)
    requires
        forall|i: int| 0 <= i < p.steps@.len() ==> step_writable(#[trigger] p.steps@[i]),
        16 * m + 16 <= usize::MAX,
        m + 1 <= u64::MAX,
    ensures
        final(xml)@ == old(xml)@ + measure_xml(*p, m as int, bpm@),
{
    xml.append("    <measure number=\"");
    append_decimal(xml, (m + 1) as u64);
    xml.append("\">\n");
    if m == 0 {
        xml.append("      <attributes>\n        <divisions>4</divisions>\n        <key><fifths>0</fifths></key>\n        <time><beats>4</beats><beat-type>4</beat-type></time>\n        <clef><sign>G</sign><line>2</line></clef>\n      </attributes>\n      <direction placement=\"above\">\n        <direction-type>\n          <metronome parentheses=\"no\"><beat-unit>quarter</beat-unit><per-minute>");
        xml.append(bpm);
        xml.append("</per-minute></metronome>\n        </direction-type>\n        <sound tempo=\"");
        xml.append(bpm);
        xml.append("\"/>\n      </direction>\n");
    }
    let ghost head = xml@;
    let end: usize = if p.length < 1 {
        1
    } else {
        p.length
    };
    let mut k: usize = 0;
    while k < 16
        invariant
            k <= 16,
            16 * m + 16 <= usize::MAX,
            end == (if p.length < 1 { 1 } else { p.length as int }),
            forall|i: int| 0 <= i < p.steps@.len() ==> step_writable(#[trigger] p.steps@[i]),
            xml@ == head + measure_steps(*p, m as int, k as int),
        decreases 16 - k,
    {
        let idx = 16 * m + k;
        if idx < end && idx < p.steps.len() {
            push_step(xml, &p.steps[idx]);
        } else {
            xml.append("      <note><rest/><duration>1</duration><type>16th</type></note>\n");
        }
        proof {
            assert(xml@ =~= head + measure_steps(*p, m as int, k as int + 1));
        }
        k = k + 1;
    }
    xml.append("    </measure>\n");
    proof {
        assert(final(xml)@ =~= old(xml)@ + measure_xml(*p, m as int, bpm@));
    }
}

/// A MusicXML 4.0 partwise score of `parts` (each a pattern under its key,
/// in the given order) at tempo `bpm` (as written in the metronome mark):
/// a part per pattern, named after it (or its key when unnamed), of 4/4
/// measures of sixteen 16th-note steps, the first carrying the clef, time
/// and tempo; an empty step is a rest, a sounding one its effects'
/// directions and a note per voice with its velocity's dynamic and its
/// effects' articulations; a measure past the pattern's end is filled with
/// rests.
pub fn musicxml_document(parts: &Vec<(String, Pattern)>, bpm: &str) -> (r: String)
    requires
        score_writable(parts@),
        parts@.len() < u64::MAX,
    ensures
        r@ == score_xml(parts@, bpm@),
{
    let mut xml = String::new();
    xml.append("<?xml version=\"1.0\" encoding=\"UTF-8\"?>\n<!DOCTYPE score-partwise PUBLIC \"-//Recordare//DTD MusicXML 4.0 Partwise//EN\" \"http://www.musicxml.org/dtds/partwise.dtd\">\n<score-partwise version=\"4.0\">\n");
    xml.append("  <part-list>\n");
    let ghost h1 = xml@;
    let mut i: usize = 0;
    while i < parts.len()
        invariant
            i <= parts@.len(),
            parts@.len() < u64::MAX,
            xml@ == h1 + part_list_xml(parts@, i as int),
        decreases parts@.len() - i,
    {
        let (key, p) = (&parts[i].0, &parts[i].1);
        xml.append("    <score-part id=\"P");
        append_decimal(&mut xml, (i + 1) as u64);
        xml.append("\"><part-name>");
        if p.name.as_str().unicode_len() == 0 {
            xml.append(key.as_str());
        } else {
            xml.append(p.name.as_str());
        }
        xml.append("</part-name></score-part>\n");
        proof {
            assert(xml@ =~= h1 + part_list_xml(parts@, i as int + 1));
        }
        i = i + 1;
    }
    xml.append("  </part-list>\n");
    let ghost h2 = xml@;
    let mut j: usize = 0;
    while j < parts.len()
        invariant
            j <= parts@.len(),
            parts@.len() < u64::MAX,
            score_writable(parts@),
            xml@ == h2 + parts_xml(parts@, bpm@, j as int),
        decreases parts@.len() - j,
    {
        let p = &parts[j].1;
        proof {
            assert(parts@[j as int].1.length + 15 <= usize::MAX);
            assert(forall|s: int| 0 <= s < p.steps@.len() ==> step_writable(#[trigger] p.steps@[s])) by {
                assert forall|s: int| 0 <= s < p.steps@.len() implies step_writable(#[trigger] p.steps@[s]) by {
                    assert(step_writable(parts@[j as int].1.steps@[s]));
                }
            }
        }
        xml.append("  <part id=\"P");
        append_decimal(&mut xml, (j + 1) as u64);
        xml.append("\">\n");
        let ghost h3 = xml@;
        let total = p.length + 15;
        let n = (if total < 1 { 1 } else { total }) / 16;
        let mut m: usize = 0;
        while m < n
            invariant
                m <= n,
                n == measure_count(p.length as int),
                forall|s: int| 0 <= s < p.steps@.len() ==> step_writable(#[trigger] p.steps@[s]),
                p.length + 15 <= usize::MAX,
                xml@ == h3 + measures_xml(*p, bpm@, m as int),
            decreases n - m,
        {
            proof {
                assert(16 * m + 16 <= usize::MAX) by (nonlinear_arith)
                    requires
                        m < n,
                        n == (if p.length + 15 < 1 { 1 } else { p.length + 15 }) / 16,
                        p.length + 15 <= usize::MAX,
                ;
            }
            push_measure(&mut xml, p, m, bpm);
            proof {
                assert(xml@ =~= h3 + measures_xml(*p, bpm@, m as int + 1));
            }
            m = m + 1;
        }
        xml.append("  </part>\n");
        proof {
            assert(xml@ =~= h2 + parts_xml(parts@, bpm@, j as int + 1));
        }
        j = j + 1;
    }
    xml.append("</score-partwise>\n");
    proof {
        assert(xml@ =~= score_xml(parts@, bpm@));
    }
    xml
}

} // verus!
