use seqterm::project::ChainEntry;
use seqterm::rational::RationalTime;
use seqterm::sched::{
    advance_chain, automation_target, bend_reset_message, cc_for_destination, clip_key, dispatch_note_off,
    dispatch_note_on, ev_offset_ticks, euclid_allows, gate_ticks, hit_offset_ticks, humanize_jitter, note_channel,
    note_on_messages, prob_allows, prob_seed, route_of, AutomationTarget, ChainPos, Clock, ClockOut, Emit, Expression,
    NoteOut, PendingNoteOff, PendingNoteOn, Route, TransportCommand,
};

fn on(dest: &str, at: u64) -> PendingNoteOn {
    PendingNoteOn {
        dest_name: dest.to_string(),
        ch: 2,
        note: 60,
        vel: 100,
        at_tick: at,
        gate_ticks: 10,
        clip_key: None,
        pitch_bend: 0,
        pressure: 0,
        timbre: 64,
        use_mpe: false,
    }
}

fn off(dest: &str, at: u64, key: Option<&str>) -> PendingNoteOff {
    PendingNoteOff { dest_name: dest.to_string(), ch: 2, note: 60, at_tick: at, clip_key: key.map(|k| k.to_string()) }
}

#[test]
fn offsets_floor_to_ticks() {
    assert_eq!(ev_offset_ticks(RationalTime::new(1, 4), 480), 120);
    assert_eq!(ev_offset_ticks(RationalTime::new(1, 3), 480), 160);
    assert_eq!(ev_offset_ticks(RationalTime::new(1, 7), 480), 68);
    assert_eq!(ev_offset_ticks(RationalTime::new(-1, 7), 480), -69);
    assert_eq!(gate_ticks(0), 1);
    assert_eq!(gate_ticks(-5), 1);
    assert_eq!(gate_ticks(120), 120);
}

#[test]
fn destination_ccs() {
    assert_eq!(cc_for_destination("volume"), Some(7));
    assert_eq!(cc_for_destination("pan"), Some(10));
    assert_eq!(cc_for_destination("cutoff"), Some(74));
    assert_eq!(cc_for_destination("resonance"), Some(71));
    assert_eq!(cc_for_destination("reverb"), Some(91));
    assert_eq!(cc_for_destination("send_b"), Some(93));
    assert_eq!(cc_for_destination("cc21"), Some(21));
    assert_eq!(cc_for_destination("cc300"), None);
    assert_eq!(cc_for_destination("gain"), None);
}

#[test]
fn routes_and_dispatch() {
    assert_eq!(route_of("__audio__7"), Route::Audio(7));
    assert_eq!(route_of("__audio__x"), Route::Unroutable);
    assert_eq!(route_of("Port 1"), Route::Midi);
    match dispatch_note_on(&on("__audio__3", 0)) {
        NoteOut::AudioOn { slot_id, channel, note, velocity } => {
            assert_eq!((slot_id, channel, note, velocity), (3, 2, 60, 100));
        }
        other => panic!("unexpected {:?}", other),
    }
    match dispatch_note_on(&on("Port", 0)) {
        NoteOut::Midi { messages } => assert_eq!(messages, vec![vec![0x92, 60, 100]]),
        other => panic!("unexpected {:?}", other),
    }
    match dispatch_note_off(&off("Port", 0, None)) {
        NoteOut::Midi { messages } => assert_eq!(messages, vec![vec![0x82, 60, 0]]),
        other => panic!("unexpected {:?}", other),
    }
    assert!(matches!(dispatch_note_off(&off("__audio__", 0, None)), NoteOut::Nothing));
}

#[test]
fn mpe_note_on_messages() {
    let m = note_on_messages(1, 64, 90, 100, 20, 70, true);
    // bend 100 + 8192 = 8292 = 64*128 + 100
    assert_eq!(m, vec![vec![0xE1, 100, 64], vec![0xD1, 20], vec![0xB1, 74, 70], vec![0x91, 64, 90]]);
    let plain = note_on_messages(0, 60, 100, 0, 0, 64, false);
    assert_eq!(plain, vec![vec![0x90, 60, 100]]);
    let clamped = note_on_messages(0, 60, 100, -9000, 0, 64, false);
    assert_eq!(clamped[0], vec![0xE0, 0, 0]);
    assert_eq!(bend_reset_message(false, 5, 3), Some(vec![0xE3, 0, 0x40]));
    assert_eq!(bend_reset_message(true, 5, 3), None);
}

#[test]
fn gates_and_channels() {
    let mask = vec![true, false, true];
    assert!(euclid_allows(&mask, 0));
    assert!(!euclid_allows(&mask, 4));
    assert!(euclid_allows(&[], 5));
    assert!(prob_allows(100, 99));
    assert!(prob_allows(50, 149));
    assert!(!prob_allows(50, 150));
    assert_eq!(prob_seed(true, 3, 999), 3u64.wrapping_mul(2246822519).wrapping_add(7));
    assert_eq!(prob_seed(false, 3, 999), 999);
    assert_eq!(note_channel(true, 5), 9);
    assert_eq!(note_channel(false, 1), 0);
    assert_eq!(note_channel(false, 0), 0);
    assert_eq!(note_channel(false, 17), 0);
    assert_eq!(clip_key(0, 3), "A3");
    assert_eq!(clip_key(7, 12), "H12");
    assert_eq!(clip_key(26, 1), "[1");
    assert_eq!(clip_key(190, 0), "\u{ff}0");
}

#[test]
fn humanize_and_offsets() {
    let h = 5u64.wrapping_mul(2654435761).wrapping_add(2).wrapping_mul(40503);
    let expected = (h % 11) as i64 - 5;
    assert_eq!(humanize_jitter(5, 2, 5), expected);
    assert_eq!(humanize_jitter(5, 2, 0), 0);
    for b in 0..50u64 {
        let j = humanize_jitter(b, b * 3, 4);
        assert!((-4..=4).contains(&j));
    }
    assert_eq!(hit_offset_ticks(0, 12, -3, 0), 9);
    assert_eq!(hit_offset_ticks(0, 0, -3, -1), 0);
}

#[test]
fn automation_target_names() {
    assert_eq!(automation_target("bpm"), AutomationTarget::Bpm);
    assert_eq!(automation_target("project.bpm"), AutomationTarget::Bpm);
    assert_eq!(
        automation_target("slot.3.fx.1.param.7"),
        AutomationTarget::SlotFx { slot_id: 3, fx_idx: 1, param_idx: 7 }
    );
    assert_eq!(automation_target("slot.3.fx.1.param.7.8"), AutomationTarget::Unknown);
    assert_eq!(automation_target("slot.3.fy.1.param.7"), AutomationTarget::Unknown);
    assert_eq!(automation_target("channel.2.cc74"), AutomationTarget::ChannelCc { port_idx: 2, cc: 74 });
    assert_eq!(automation_target("channel.2.ccxx"), AutomationTarget::ChannelCc { port_idx: 2, cc: 74 });
    assert_eq!(automation_target("channel.0.send_a"), AutomationTarget::ChannelCc { port_idx: 0, cc: 91 });
    assert_eq!(automation_target("channel.0.send_b"), AutomationTarget::ChannelCc { port_idx: 0, cc: 92 });
    assert_eq!(automation_target("channel.0.gain"), AutomationTarget::Unknown);
    assert_eq!(automation_target("tempo"), AutomationTarget::Unknown);
}

#[test]
fn chain_advances_after_its_bars() {
    let chain = vec![ChainEntry::new(4, 2), ChainEntry::new(7, 1)];
    let at = ChainPos { pos: 0, bars: 0 };
    let (p1, ev1) = advance_chain(&chain, at);
    assert_eq!(p1, ChainPos { pos: 0, bars: 1 });
    assert_eq!(ev1, None);
    let (p2, ev2) = advance_chain(&chain, p1);
    assert_eq!(p2, ChainPos { pos: 1, bars: 0 });
    assert_eq!(ev2, Some((1, 7)));
    let (p3, ev3) = advance_chain(&chain, p2);
    assert_eq!(p3, ChainPos { pos: 0, bars: 0 });
    assert_eq!(ev3, Some((0, 4)));
    assert_eq!(advance_chain(&[], at), (at, None));
}

#[test]
fn clock_transport_commands() {
    let mut c = Clock::new();
    c.midi_clock_out = true;
    let out = c.handle_command(TransportCommand::Play);
    assert!(c.transport.playing);
    assert!(matches!(&out[..], [ClockOut::Clock(b)] if b == &vec![0xFA]));
    c.pending_note_offs.push(off("Port", 50, None));
    c.pending_note_ons.push(on("Port", 50));
    c.transport.current_step = 5;
    let out = c.handle_command(TransportCommand::Pause);
    assert!(c.transport.paused && !c.transport.playing);
    assert_eq!(c.transport.current_step, 5);
    assert!(c.pending_note_offs.is_empty() && c.pending_note_ons.is_empty());
    assert!(matches!(&out[..], [ClockOut::Port { dest, bytes }] if dest == "Port" && bytes == &vec![0x82, 60, 0]));
    let out = c.handle_command(TransportCommand::Stop);
    assert_eq!(c.transport.current_step, 0);
    assert!(matches!(&out[..], [ClockOut::Clock(b)] if b == &vec![0xFC]));
    c.handle_command(TransportCommand::Record);
    assert!(c.transport.recording);
    c.handle_command(TransportCommand::SetChainMode(true));
    assert_eq!(c.chain, ChainPos { pos: 0, bars: 0 });
    c.handle_command(TransportCommand::SeekChain(3));
    assert_eq!(c.chain, ChainPos { pos: 3, bars: 0 });
}

#[test]
fn clock_ticks_fire_due_notes_and_steps() {
    let mut c = Clock::new();
    c.pending_note_ons.push(on("__audio__1", 1));
    c.pending_note_ons.push(on("Port", 5));
    c.pending_note_offs.push(off("Port", 1, Some("A0")));
    let start = c.begin_tick();
    assert_eq!(c.transport.elapsed_ticks, 1);
    assert_eq!(start.fired.len(), 2);
    assert!(matches!(start.fired[0].out, NoteOut::AudioOn { slot_id: 1, .. }));
    assert_eq!(start.fired[1].release_mpe, Some(("A0".to_string(), 60)));
    assert_eq!(c.pending_note_ons.len(), 1);
    assert_eq!(start.step, None);
    // 480 ppqn → a step every 120 ticks.
    let mut step = None;
    for _ in 1..120 {
        step = c.begin_tick().step;
    }
    assert_eq!(step, Some(0));
    let end = c.end_step(&[]);
    assert_eq!(end.bar, None);
    assert_eq!(c.transport.current_step, 1);
    assert_eq!(c.transport.current_tick, 0);
    assert_eq!(c.absolute_step, 1);
    for _ in 1..16 {
        c.end_step(&[]);
    }
    assert_eq!(c.transport.current_bar, 1);
    assert!(c.loop_arrangement(0, 4));
    assert_eq!(c.absolute_step, 0);
    assert!(!c.loop_arrangement(4, 4));
}

#[test]
fn clock_fires_audio_and_midi_notes() {
    let mut c = Clock::new();
    c.transport.elapsed_ticks = 100;
    let e = Expression { pitch_bend: 5, pressure: 3, timbre: 70 };
    let now = c.fire_audio_note(2, 0, 60, 90, 0, 30, true, e);
    assert_eq!(now.len(), 4);
    assert!(matches!(now[3], Emit::AudioNoteOn { slot_id: 2, note: 60, .. }));
    assert_eq!(c.pending_note_offs[0].at_tick, 130);
    assert_eq!(c.pending_note_offs[0].dest_name, "__audio__2");
    let later = c.fire_audio_note(2, 0, 62, 90, 10, 30, false, e);
    assert!(later.is_empty());
    assert_eq!(c.pending_note_ons[0].at_tick, 110);
    assert_eq!(c.pending_note_offs[1].at_tick, 140);
    let m = c.fire_midi_note("Port", true, 1, 60, 90, 0, 20, false, "A0", Expression { pitch_bend: 0, pressure: 0, timbre: 64 });
    assert_eq!(m.len(), 3);
    assert!(matches!(&m[2], Emit::Send(b) if b == &vec![0x91, 60, 90]));
    let m = c.fire_midi_note("Port", false, 1, 60, 90, 0, 20, false, "A0", Expression { pitch_bend: 0, pressure: 0, timbre: 64 });
    assert_eq!(m.len(), 2);
    let n = c.pending_note_offs.len();
    c.fire_midi_note("Port", true, 4, 61, 90, 5, 20, true, "B1", Expression { pitch_bend: 0, pressure: 0, timbre: 64 });
    assert_eq!(c.pending_note_offs.len(), n + 1);
    assert_eq!(c.pending_note_offs[n].clip_key.as_deref(), Some("B1"));
}
