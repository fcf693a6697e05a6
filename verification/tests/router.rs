use seqterm::fluid::FluidSynthBackend;
use seqterm::midi::MidiMessage;
use seqterm::router::{MidiOutput, MidiRouter};
use std::cell::RefCell;
use std::rc::Rc;

struct Recorder {
    log: Rc<RefCell<Vec<(String, MidiMessage)>>>,
    name: String,
    fail: bool,
}

impl MidiOutput for Recorder {
    fn send(&mut self, msg: &MidiMessage) -> Result<(), String> {
        if self.fail {
            return Err("port closed".to_string());
        }
        self.log.borrow_mut().push((self.name.clone(), msg.clone()));
        Ok(())
    }
    fn name(&self) -> &str {
        &self.name
    }
}

#[test]
fn router_flushes_queue_to_every_output() {
    let log = Rc::new(RefCell::new(Vec::new()));
    let mut r = MidiRouter::new();
    r.add_output(Recorder { log: log.clone(), name: "a".into(), fail: false });
    r.add_output(Recorder { log: log.clone(), name: "bad".into(), fail: true });
    r.add_output(Recorder { log: log.clone(), name: "b".into(), fail: false });
    r.send(MidiMessage::Clock);
    r.send(MidiMessage::NoteOn { channel: 0, note: 60, velocity: 100 });
    r.set_channel_filter(Some(3));
    r.flush();
    let got = log.borrow().clone();
    assert_eq!(
        got,
        vec![
            ("a".to_string(), MidiMessage::Clock),
            ("b".to_string(), MidiMessage::Clock),
            ("a".to_string(), MidiMessage::NoteOn { channel: 0, note: 60, velocity: 100 }),
            ("b".to_string(), MidiMessage::NoteOn { channel: 0, note: 60, velocity: 100 }),
        ]
    );
    r.flush();
    assert_eq!(log.borrow().len(), 4);
}

#[test]
fn stub_creates_and_renders_silence() {
    let mut b = FluidSynthBackend::new("nonexistent.sf2".to_string(), &[(0, 0, 0)], 48000).expect("stub construction");
    assert!(!b.is_real());
    b.note_on(0, 60, 100);
    b.note_off(0, 60);
    b.select_preset(0, 1);
    assert!(b.list_presets().is_empty());
}
