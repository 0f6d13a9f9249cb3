use mds::message::{Message, Polled};
use mds::port::{check_grid, check_range, ConfigError, Port, PortWrite};
use mds::sequencer::{GridKey, KeyDirection, DEFAULT_TEMPO};
use mds::track::Moment;
use mds::grid::{MDSAction, MDSIntent};
use mds::stepbuf::MAX_STEPS;
use mds::{MDSRenderer, MDS};
use std::sync::mpsc::channel;

fn pair() -> (MDS, MDSRenderer) {
    match MDS::new((Port::Digital(0), Port::Digital(7)), 16, 8) {
        Ok(pair) => pair,
        Err(e) => panic!("refused: {:?}", e),
    }
}

fn refusal(ports: (Port, Port), width: usize, height: usize) -> Option<ConfigError> {
    match MDS::new(ports, width, height) {
        Ok(_) => None,
        Err(e) => Some(e),
    }
}

fn down(x: usize, y: usize) -> GridKey {
    GridKey { x, y, direction: KeyDirection::Down }
}

fn up(x: usize, y: usize) -> GridKey {
    GridKey { x, y, direction: KeyDirection::Up }
}

fn same_patterns(control: &MDS, renderer: &MDSRenderer) -> bool {
    if control.tracks() != renderer.tracks() {
        return false;
    }
    for track in 0..control.tracks() {
        if control.pattern(track) != renderer.pattern(track) {
            return false;
        }
    }
    true
}

fn at(sixteenth: usize) -> Moment {
    Moment { beat: sixteenth / 4, sixteenth, gate: true }
}

#[test]
fn new_pair_starts_silent() {
    let (control, renderer) = pair();
    assert_eq!(control.width(), 16);
    assert_eq!(control.height(), 8);
    assert_eq!(control.tracks(), 7);
    assert_eq!(renderer.tracks(), 7);
    assert_eq!(control.tempo(), DEFAULT_TEMPO);
    assert_eq!(f32::from_bits(control.tempo()), 120.0);
    assert_eq!(renderer.tempo(), 0);
    assert_eq!(
        renderer.port_range(),
        (Port::Digital(0), Port::Digital(7))
    );
    for track in 0..7 {
        assert_eq!(control.pattern(track), vec![0u8; 16]);
        assert_eq!(renderer.pattern(track), vec![0u8; 16]);
    }
    for y in 0..8 {
        for x in 0..16 {
            assert_eq!(control.intent(x, y), MDSIntent::Nothing);
        }
    }
}

#[test]
fn port_range_narrower_than_the_tracks_is_refused() {
    assert_eq!(
        refusal((Port::Digital(0), Port::Digital(6)), 16, 8),
        Some(ConfigError::PortCount)
    );
    assert_eq!(
        refusal((Port::AnalogOut(2), Port::AnalogOut(2)), 16, 8),
        Some(ConfigError::PortCount)
    );
    let (_sender, receiver) = channel::<Message>();
    assert!(matches!(
        MDSRenderer::new(7, receiver, (Port::Digital(0), Port::Digital(6))),
        Err(ConfigError::PortCount)
    ));
}

#[test]
fn port_range_wider_or_backwards_is_refused() {
    assert_eq!(
        refusal((Port::Digital(0), Port::Digital(8)), 16, 8),
        Some(ConfigError::PortCount)
    );
    assert_eq!(
        refusal((Port::Digital(7), Port::Digital(0)), 16, 8),
        Some(ConfigError::PortCount)
    );
    assert_eq!(
        refusal((Port::Digital(usize::MAX), Port::Digital(6)), 16, 8),
        Some(ConfigError::PortCount)
    );
}

#[test]
fn mixed_port_kinds_are_refused() {
    assert_eq!(
        refusal((Port::Digital(0), Port::AnalogOut(7)), 16, 8),
        Some(ConfigError::MixedPorts)
    );
    assert_eq!(
        refusal((Port::AnalogOut(0), Port::Digital(7)), 16, 8),
        Some(ConfigError::MixedPorts)
    );
}

#[test]
fn port_ranges_that_serve_are_accepted() {
    assert_eq!(refusal((Port::Digital(0), Port::Digital(7)), 16, 8), None);
    assert_eq!(refusal((Port::AnalogOut(1), Port::AnalogOut(8)), 16, 8), None);
    assert_eq!(refusal((Port::Digital(3), Port::Digital(3)), 16, 1), None);
    assert_eq!(check_range((Port::Digital(4), Port::Digital(6)), 2), Ok(()));
    assert_eq!(
        check_range((Port::Digital(4), Port::Digital(6)), 3),
        Err(ConfigError::PortCount)
    );
    assert_eq!(
        check_range((Port::Digital(4), Port::AnalogOut(6)), 2),
        Err(ConfigError::MixedPorts)
    );
}

#[test]
fn grids_of_any_size_are_accepted_with_the_right_ports() {
    assert_eq!(refusal((Port::AnalogOut(0), Port::AnalogOut(15)), 16, 16), None);
    assert_eq!(refusal((Port::Digital(0), Port::Digital(8)), 17, 9), None);
    assert_eq!(refusal((Port::Digital(0), Port::Digital(7)), 0, 8), None);
    assert_eq!(refusal((Port::Digital(2), Port::Digital(2)), 1, 1), None);
    assert_eq!(
        refusal((Port::Digital(0), Port::Digital(7)), 17, 9),
        Some(ConfigError::PortCount)
    );
    assert_eq!(
        refusal((Port::Digital(0), Port::AnalogOut(8)), 17, 9),
        Some(ConfigError::MixedPorts)
    );
    let (control, renderer) = match MDS::new((Port::AnalogOut(0), Port::AnalogOut(15)), 16, 16) {
        Ok(pair) => pair,
        Err(e) => panic!("refused: {:?}", e),
    };
    assert_eq!(control.width(), 16);
    assert_eq!(control.height(), 16);
    assert_eq!(control.tracks(), 15);
    assert_eq!(renderer.tracks(), 15);
    for track in 0..15 {
        assert_eq!(control.pattern(track), vec![0u8; 16]);
        assert_eq!(renderer.pattern(track), vec![0u8; 16]);
    }
    for y in 0..16 {
        for x in 0..16 {
            assert_eq!(control.intent(x, y), MDSIntent::Nothing);
        }
    }
    assert_eq!(
        renderer.port_range(),
        (Port::AnalogOut(0), Port::AnalogOut(15))
    );
}

#[test]
fn grids_that_the_display_can_show() {
    assert!(check_grid(16, 8));
    assert!(check_grid(1, 128));
    assert!(check_grid(8, 16));
    assert!(check_grid(1, 1));
    assert!(!check_grid(1, 129));
    assert!(!check_grid(16, 9));
    assert!(!check_grid(17, 1));
    assert!(!check_grid(0, 1));
    assert!(!check_grid(16, 0));
    assert!(!check_grid(usize::MAX, usize::MAX));
}

#[test]
fn events_that_can_be_taken() {
    let (mut control, _renderer) = pair();
    assert!(control.accepts(down(15, 7)));
    assert!(control.accepts(up(15, 7)));
    assert!(!control.accepts(down(16, 7)));
    assert!(!control.accepts(up(0, 8)));
    control.input(down(15, 7));
    assert!(control.accepts(up(15, 7)));
    control.input(down(0, 7));
    assert!(control.accepts(up(0, 7)));
}

#[test]
fn a_wide_grid_takes_what_its_patterns_can_do() {
    let (mut control, mut renderer) = match MDS::new((Port::Digital(0), Port::Digital(2)), 20, 3) {
        Ok(pair) => pair,
        Err(e) => panic!("refused: {:?}", e),
    };
    // a tick beyond the sixteenth column cannot be done
    assert!(control.accepts(down(17, 1)));
    control.input(down(17, 1));
    assert_eq!(control.intent(17, 1), MDSIntent::Tick);
    assert!(!control.accepts(up(17, 1)));
    // with a second key to its right it is a rhythm of twenty steps
    assert!(control.accepts(down(19, 1)));
    control.input(down(19, 1));
    assert!(control.accepts(up(19, 1)));
    assert_eq!(
        control.input(up(19, 1)),
        (MDSAction::Euclidian { track: 0, steps: 20, pulses: 18 }, Some(true))
    );
    assert_eq!(control.pattern(0).len(), 20);
    assert_eq!(control.pattern(0).iter().filter(|f| **f == 1).count(), 18);
    assert!(control.accepts(up(17, 1)));
    assert_eq!(control.input(up(17, 1)), (MDSAction::Nothing, None));
    // a tick within the sixteen steps is taken
    control.input(down(15, 2));
    assert!(control.accepts(up(15, 2)));
    assert_eq!(
        control.input(up(15, 2)),
        (MDSAction::Tick { col: 15, track: 1 }, Some(true))
    );
    assert!(matches!(renderer.poll(), Polled::Message(_)));
    assert!(matches!(renderer.poll(), Polled::Message(_)));
    assert!(same_patterns(&control, &renderer));
}

#[test]
fn input_tells_whether_the_edit_was_delivered() {
    let (mut control, renderer) = pair();
    control.input(down(3, 1));
    assert_eq!(
        control.input(up(3, 1)),
        (MDSAction::Tick { col: 3, track: 0 }, Some(true))
    );
    drop(renderer);
    control.input(down(4, 1));
    assert_eq!(
        control.input(up(4, 1)),
        (MDSAction::Tick { col: 4, track: 0 }, Some(false))
    );
    assert_eq!(control.pattern(0)[4], 1);
    assert_eq!(control.input(up(9, 1)), (MDSAction::Nothing, None));
}

#[test]
fn message_check() {
    assert!(Message::Key { col: 15, track: 6 }.check(7));
    assert!(!Message::Key { col: 16, track: 6 }.check(7));
    assert!(!Message::Key { col: 0, track: 7 }.check(7));
    assert!(Message::TempoChange { tempo: 5 }.check(0));
    assert!(Message::Euclidian { track: 0, steps: 1, pulses: 0 }.check(1));
    assert!(Message::Euclidian { track: 0, steps: MAX_STEPS, pulses: MAX_STEPS }.check(1));
    assert!(!Message::Euclidian { track: 0, steps: MAX_STEPS + 1, pulses: 1 }.check(1));
    assert!(!Message::Euclidian { track: 0, steps: 0, pulses: 0 }.check(1));
    assert!(!Message::Euclidian { track: 0, steps: 4, pulses: 5 }.check(1));
    assert!(!Message::Euclidian { track: 1, steps: 4, pulses: 2 }.check(1));
    assert!(Message::Loop { track: 0, start: 9, end: 2 }.check(1));
    assert!(!Message::Loop { track: 1, start: 0, end: 2 }.check(1));
}

#[test]
fn draining_an_empty_queue_changes_nothing() {
    let (control, mut renderer) = pair();
    renderer.apply(Message::Key { col: 4, track: 2 });
    renderer.apply(Message::TempoChange { tempo: 77 });
    let before: Vec<Vec<u8>> = (0..7).map(|t| renderer.pattern(t)).collect();
    for _ in 0..3 {
        assert_eq!(renderer.poll(), Polled::Empty);
    }
    let after: Vec<Vec<u8>> = (0..7).map(|t| renderer.pattern(t)).collect();
    assert_eq!(before, after);
    assert_eq!(renderer.tempo(), 77);
    assert_eq!(control.tracks(), 7);
}

#[test]
fn a_queue_without_sender_changes_nothing() {
    let (control, mut renderer) = pair();
    renderer.apply(Message::Key { col: 4, track: 2 });
    drop(control);
    assert_eq!(renderer.poll(), Polled::Disconnected);
    assert_eq!(renderer.poll(), Polled::Disconnected);
    assert_eq!(renderer.pattern(2)[4], 1);
    assert_eq!(renderer.tempo(), 0);
}

#[test]
fn what_was_sent_before_the_sender_left_still_arrives() {
    let (mut control, mut renderer) = pair();
    assert!(control.press(1, 0));
    drop(control);
    assert_eq!(
        renderer.poll(),
        Polled::Message(Message::Key { col: 1, track: 0 })
    );
    assert_eq!(renderer.pattern(0)[1], 1);
    assert_eq!(renderer.poll(), Polled::Disconnected);
}

#[test]
fn edits_without_a_receiver_stay_done_on_the_control_side() {
    let (mut control, renderer) = pair();
    drop(renderer);
    assert!(!control.press(3, 1));
    assert_eq!(control.pattern(1)[3], 1);
    assert!(!control.set_tempo(9));
    assert_eq!(control.tempo(), 9);
    assert!(!control.euclidian(0, 8, 3));
    assert_eq!(control.pattern(0), vec![1, 0, 0, 1, 0, 0, 1, 0]);
    assert!(!control.looop(0, 1, 2));
}

#[test]
fn a_message_that_does_not_fit_is_passed_over() {
    let (_control, mut renderer) = pair();
    renderer.absorb(Polled::Message(Message::Key { col: 16, track: 0 }));
    renderer.absorb(Polled::Message(Message::Key { col: 0, track: 7 }));
    renderer.absorb(Polled::Message(Message::Euclidian { track: 0, steps: 3, pulses: 4 }));
    renderer.absorb(Polled::Message(Message::Euclidian { track: 0, steps: 0, pulses: 0 }));
    renderer.absorb(Polled::Message(Message::Loop { track: 9, start: 0, end: 1 }));
    for track in 0..7 {
        assert_eq!(renderer.pattern(track), vec![0u8; 16]);
    }
    assert_eq!(renderer.tempo(), 0);
}

#[test]
fn absorb_applies_each_kind_of_message() {
    let (_control, mut renderer) = pair();
    renderer.absorb(Polled::Message(Message::Key { col: 2, track: 1 }));
    assert_eq!(renderer.pattern(1)[2], 1);
    renderer.absorb(Polled::Message(Message::TempoChange { tempo: 128.0f32.to_bits() }));
    assert_eq!(f32::from_bits(renderer.tempo()), 128.0);
    renderer.absorb(Polled::Message(Message::Euclidian { track: 3, steps: 5, pulses: 2 }));
    assert_eq!(renderer.pattern(3), vec![1, 0, 1, 0, 0]);
    renderer.absorb(Polled::Message(Message::Loop { track: 3, start: 1, end: 2 }));
    assert_eq!(renderer.pattern(3), vec![1, 0, 1, 0, 0]);
    renderer.absorb(Polled::Empty);
    renderer.absorb(Polled::Disconnected);
    assert_eq!(renderer.pattern(1)[2], 1);
    assert_eq!(renderer.pattern(3), vec![1, 0, 1, 0, 0]);
}

#[test]
fn both_sides_agree_after_as_many_polls_as_edits() {
    let (mut control, mut renderer) = pair();
    let mut edits = 0;
    assert!(control.set_tempo(128.0f32.to_bits()));
    edits += 1;
    assert!(control.press(3, 0));
    edits += 1;
    assert!(control.press(7, 0));
    edits += 1;
    assert!(control.euclidian(1, 5, 2));
    edits += 1;
    assert!(control.press(3, 0));
    edits += 1;
    assert!(control.looop(2, 1, 4));
    edits += 1;
    assert!(control.press(2, 1));
    edits += 1;
    assert!(control.euclidian(6, 16, 16));
    edits += 1;
    assert!(control.euclidian(5, 7, 0));
    edits += 1;
    assert!(!same_patterns(&control, &renderer));
    for _ in 0..edits {
        assert!(matches!(renderer.poll(), Polled::Message(_)));
    }
    assert!(same_patterns(&control, &renderer));
    assert_eq!(renderer.tempo(), control.tempo());
    assert_eq!(renderer.poll(), Polled::Empty);
    assert!(same_patterns(&control, &renderer));
    assert_eq!(control.pattern(0), vec![0, 0, 0, 0, 0, 0, 0, 1, 0, 0, 0, 0, 0, 0, 0, 0]);
    assert_eq!(
        control.pattern(1),
        vec![1, 0, 0, 0, 0, 1, 0, 1, 0, 0, 1, 0, 1, 0, 0, 1]
    );
    assert_eq!(control.pattern(5), vec![0u8; 7]);
    assert_eq!(control.pattern(6), vec![1u8; 16]);
}

#[test]
fn both_sides_agree_after_gestures() {
    let (mut control, mut renderer) = pair();
    let mut writes = Vec::new();
    let events = [
        down(3, 1),
        up(3, 1),
        down(2, 2),
        down(5, 2),
        up(5, 2),
        up(2, 2),
        down(9, 3),
        down(4, 3),
        up(4, 3),
        up(9, 3),
        down(0, 0),
        up(0, 0),
        down(1, 2),
        up(1, 2),
    ];
    for event in events {
        control.input(event);
    }
    for _ in 0..events.len() {
        renderer.render(at(0), 1, &mut writes);
    }
    assert!(same_patterns(&control, &renderer));
    assert_eq!(
        control.pattern(0),
        vec![0, 0, 0, 1, 0, 0, 0, 0, 0, 0, 0, 0, 0, 0, 0, 0]
    );
    // six steps with three pulses, frozen at beat zero, then step 1 toggled
    assert_eq!(
        control.pattern(1),
        vec![1, 1, 1, 0, 1, 0, 1, 0, 1, 0, 1, 0, 1, 0, 1, 0]
    );
    assert_eq!(control.pattern(2), vec![0u8; 16]);
}

#[test]
fn input_resolves_gestures() {
    let (mut control, mut renderer) = pair();
    assert_eq!(control.input(down(3, 1)), (MDSAction::Nothing, None));
    assert_eq!(control.intent(3, 1), MDSIntent::Tick);
    assert_eq!(control.pattern(0), vec![0u8; 16]);
    assert_eq!(
        control.input(up(3, 1)),
        (MDSAction::Tick { col: 3, track: 0 }, Some(true))
    );
    assert_eq!(control.intent(3, 1), MDSIntent::Nothing);
    assert_eq!(control.pattern(0)[3], 1);
    assert_eq!(
        renderer.poll(),
        Polled::Message(Message::Key { col: 3, track: 0 })
    );

    control.input(down(2, 1));
    control.input(down(5, 1));
    assert_eq!(
        control.input(up(5, 1)),
        (MDSAction::Euclidian { track: 0, steps: 6, pulses: 3 }, Some(true))
    );
    assert_eq!(control.pattern(0), vec![1, 0, 1, 0, 1, 0]);
    assert_eq!(control.input(up(2, 1)), (MDSAction::Nothing, None));
    assert_eq!(
        renderer.poll(),
        Polled::Message(Message::Euclidian { track: 0, steps: 6, pulses: 3 })
    );
    assert_eq!(renderer.poll(), Polled::Empty);

    control.input(down(5, 7));
    control.input(down(2, 7));
    assert_eq!(
        control.input(up(2, 7)),
        (MDSAction::Loop { track: 6, start: 2, end: 7 }, Some(true))
    );
    assert_eq!(control.pattern(6), vec![0u8; 16]);
    assert_eq!(
        renderer.poll(),
        Polled::Message(Message::Loop { track: 6, start: 2, end: 7 })
    );
    assert_eq!(control.input(up(5, 7)), (MDSAction::Nothing, None));
    assert_eq!(control.input(up(9, 4)), (MDSAction::Nothing, None));
    assert_eq!(renderer.poll(), Polled::Empty);
}

#[test]
fn set_tempo_reaches_the_audio_side() {
    let (mut control, mut renderer) = pair();
    assert!(control.set_tempo(90.5f32.to_bits()));
    assert_eq!(f32::from_bits(control.tempo()), 90.5);
    assert_eq!(renderer.tempo(), 0);
    assert_eq!(
        renderer.poll(),
        Polled::Message(Message::TempoChange { tempo: 90.5f32.to_bits() })
    );
    assert_eq!(f32::from_bits(renderer.tempo()), 90.5);
    for track in 0..7 {
        assert_eq!(renderer.pattern(track), vec![0u8; 16]);
    }
}

#[test]
fn render_takes_one_message_per_buffer() {
    let (mut control, mut renderer) = pair();
    let mut writes = Vec::new();
    control.press(0, 0);
    control.press(0, 1);
    assert_eq!(
        renderer.render(at(0), 1, &mut writes),
        Polled::Message(Message::Key { col: 0, track: 0 })
    );
    assert_eq!(renderer.pattern(0)[0], 1);
    assert_eq!(renderer.pattern(1)[0], 0);
    assert!(writes[0].high);
    assert!(!writes[1].high);
    assert_eq!(
        renderer.render(at(0), 1, &mut writes),
        Polled::Message(Message::Key { col: 0, track: 1 })
    );
    assert!(writes[0].high);
    assert!(writes[1].high);
    assert_eq!(renderer.render(at(0), 1, &mut writes), Polled::Empty);
    assert!(writes[0].high);
    assert!(writes[1].high);
    assert!(!writes[2].high);
}

#[test]
fn plan_writes_every_track_in_every_frame() {
    let (_control, mut renderer) = pair();
    renderer.apply(Message::Key { col: 2, track: 2 });
    renderer.apply(Message::Key { col: 2, track: 6 });
    let mut writes = vec![PortWrite { frame: 99, port: Port::Digital(99), high: true }];
    renderer.plan(at(2), 3, &mut writes);
    assert_eq!(writes.len(), 21);
    for frame in 0..3 {
        for track in 0..7 {
            assert_eq!(
                writes[frame * 7 + track],
                PortWrite { frame, port: Port::Digital(track), high: track == 2 || track == 6 }
            );
        }
    }
    renderer.plan(at(3), 3, &mut writes);
    assert_eq!(writes.len(), 21);
    assert!(writes.iter().all(|w| !w.high));
    renderer.plan(Moment { beat: 0, sixteenth: 2, gate: false }, 3, &mut writes);
    assert!(writes.iter().all(|w| !w.high));
    renderer.plan(at(18), 1, &mut writes);
    assert_eq!(writes.len(), 7);
    assert!(writes[2].high);
    renderer.plan(at(2), 0, &mut writes);
    assert!(writes.is_empty());
}

#[test]
fn plan_on_analog_outputs_starts_at_the_first_channel_of_the_range() {
    let (_control, mut renderer) =
        match MDS::new((Port::AnalogOut(1), Port::AnalogOut(4)), 16, 4) {
            Ok(pair) => pair,
            Err(e) => panic!("refused: {:?}", e),
        };
    renderer.apply(Message::Euclidian { track: 1, steps: 5, pulses: 2 });
    assert_eq!(renderer.port(0), Port::AnalogOut(1));
    assert_eq!(renderer.port(2), Port::AnalogOut(3));
    let mut writes = Vec::new();
    // second bar: the window of [1, 0, 1, 0, 0] starts at its step 1
    renderer.plan(Moment { beat: 4, sixteenth: 17, gate: true }, 2, &mut writes);
    assert_eq!(
        writes,
        vec![
            PortWrite { frame: 0, port: Port::AnalogOut(1), high: false },
            PortWrite { frame: 0, port: Port::AnalogOut(2), high: true },
            PortWrite { frame: 0, port: Port::AnalogOut(3), high: false },
            PortWrite { frame: 1, port: Port::AnalogOut(1), high: false },
            PortWrite { frame: 1, port: Port::AnalogOut(2), high: true },
            PortWrite { frame: 1, port: Port::AnalogOut(3), high: false },
        ]
    );
}

#[test]
fn renderer_without_tracks_plans_nothing() {
    let (_sender, receiver) = channel::<Message>();
    let mut renderer = match MDSRenderer::new(0, receiver, (Port::Digital(5), Port::Digital(5))) {
        Ok(renderer) => renderer,
        Err(e) => panic!("refused: {:?}", e),
    };
    let mut writes = Vec::new();
    assert_eq!(renderer.render(at(0), 64, &mut writes), Polled::Empty);
    assert!(writes.is_empty());
}

#[test]
fn display_shows_playhead_and_steps() {
    let (mut control, _renderer) = pair();
    control.press(3, 0);
    control.press(5, 2);
    let mut grid = [7u8; 128];
    control.render(at(5), &mut grid);
    for row in 0..8 {
        for col in 0..16 {
            let expected = if row == 1 && col == 3 {
                15
            } else if row == 3 && col == 5 {
                15
            } else if row >= 1 && col == 5 {
                4
            } else {
                0
            };
            assert_eq!(grid[row * 16 + col], expected, "row {} col {}", row, col);
        }
    }
}

#[test]
fn display_rolls_with_the_bar() {
    let (mut control, _renderer) = pair();
    control.euclidian(0, 5, 2);
    let mut grid = [0u8; 128];
    control.render(Moment { beat: 4, sixteenth: 16, gate: false }, &mut grid);
    assert_eq!(
        grid[16..32],
        [4, 15, 0, 0, 15, 0, 15, 0, 0, 15, 0, 15, 0, 0, 15, 0]
    );
    assert_eq!(grid[0..16], [0u8; 16]);
    assert_eq!(grid[32], 4);
    assert_eq!(grid[33], 0);
}

#[test]
fn display_of_a_narrow_grid() {
    let (mut control, _renderer) = match MDS::new((Port::Digital(0), Port::Digital(2)), 4, 3) {
        Ok(pair) => pair,
        Err(e) => panic!("refused: {:?}", e),
    };
    control.press(1, 1);
    let mut grid = [9u8; 128];
    // sixteenth 6: the playhead stands on column 6 % 4 = 2
    control.render(at(6), &mut grid);
    let mut expected = [0u8; 128];
    expected[4 + 2] = 4;
    expected[8 + 2] = 4;
    expected[8 + 1] = 15;
    assert_eq!(grid, expected);
}

#[test]
fn both_sides_agree_whenever_the_queue_is_drained() {
    let (mut control, mut renderer) = pair();
    assert_eq!(renderer.poll(), Polled::Empty);
    assert!(same_patterns(&control, &renderer));
    control.press(4, 3);
    control.euclidian(3, 9, 4);
    assert!(matches!(renderer.poll(), Polled::Message(_)));
    control.press(0, 3);
    assert!(!same_patterns(&control, &renderer));
    assert!(matches!(renderer.poll(), Polled::Message(_)));
    assert!(matches!(renderer.poll(), Polled::Message(_)));
    assert!(same_patterns(&control, &renderer));
    assert_eq!(renderer.poll(), Polled::Empty);
    assert_eq!(renderer.poll(), Polled::Empty);
    control.looop(3, 0, 4);
    control.press(15, 6);
    assert!(matches!(renderer.poll(), Polled::Message(_)));
    assert!(matches!(renderer.poll(), Polled::Message(_)));
    assert_eq!(renderer.poll(), Polled::Empty);
    assert!(same_patterns(&control, &renderer));
    // nine steps with four pulses, frozen at beat zero, then step 0 toggled
    assert_eq!(
        control.pattern(3),
        vec![0, 0, 1, 0, 1, 0, 1, 0, 0, 1, 0, 1, 0, 1, 0, 1]
    );
}
