use coin_dash::event::{command_for, AppEvent, Command, EventProducer, KeyCode, KeyInput, SourceEvent};

fn key(c: char) -> KeyInput {
    KeyInput { code: KeyCode::Char(c), ctrl: false }
}

fn chord() -> KeyInput {
    KeyInput { code: KeyCode::Char('c'), ctrl: true }
}

#[test]
fn earlier_keypress_comes_before_later_tick() {
    let mut p = EventProducer::new();
    let mut out = Vec::new();
    for ev in [SourceEvent::Key(key('x')), SourceEvent::TimerElapsed] {
        if let Some(e) = p.on_ready(ev) {
            out.push(e);
        }
    }
    assert_eq!(out, vec![AppEvent::Key(key('x')), AppEvent::Tick]);
}

#[test]
fn quit_chord_stops_producer_despite_pending_events() {
    let mut p = EventProducer::new();
    assert_eq!(p.on_ready(SourceEvent::TimerElapsed), Some(AppEvent::Tick));
    assert_eq!(p.on_ready(SourceEvent::Key(chord())), Some(AppEvent::Quit));
    assert!(!p.running);
    assert_eq!(p.on_ready(SourceEvent::Key(key('r'))), None);
    assert_eq!(p.on_ready(SourceEvent::TimerElapsed), None);
}

#[test]
fn plain_c_is_forwarded_as_a_key() {
    let mut p = EventProducer::new();
    assert_eq!(p.on_ready(SourceEvent::Key(key('c'))), Some(AppEvent::Key(key('c'))));
    assert!(p.running);
}

#[test]
fn input_error_and_end_stop_the_producer() {
    let mut p = EventProducer::new();
    assert_eq!(p.on_ready(SourceEvent::InputError), None);
    assert!(!p.running);
    let mut q = EventProducer::new();
    assert_eq!(q.on_ready(SourceEvent::InputClosed), None);
    assert_eq!(q.on_ready(SourceEvent::TimerElapsed), None);
}

#[test]
fn other_terminal_events_are_dropped() {
    let mut p = EventProducer::new();
    assert_eq!(p.on_ready(SourceEvent::NonKey), None);
    assert!(p.running);
}

#[test]
fn gone_receiver_stops_producer() {
    let mut p = EventProducer::new();
    p.receiver_gone();
    assert_eq!(p.on_ready(SourceEvent::TimerElapsed), None);
}

#[test]
fn commands_for_events() {
    assert_eq!(command_for(AppEvent::Quit), Command::Quit);
    assert_eq!(command_for(AppEvent::Tick), Command::Refresh);
    assert_eq!(command_for(AppEvent::Key(key('q'))), Command::Quit);
    assert_eq!(command_for(AppEvent::Key(key('r'))), Command::Refresh);
    assert_eq!(command_for(AppEvent::Key(KeyInput { code: KeyCode::Up, ctrl: false })), Command::ScrollUp);
    assert_eq!(command_for(AppEvent::Key(KeyInput { code: KeyCode::Down, ctrl: false })), Command::ScrollDown);
    assert_eq!(command_for(AppEvent::Key(key('z'))), Command::Ignore);
    assert_eq!(command_for(AppEvent::Key(KeyInput { code: KeyCode::Esc, ctrl: false })), Command::Ignore);
}
