use vstd::prelude::*;

verus! {

/// The keys the dashboard tells apart.
#[derive(Clone, Copy, Debug, PartialEq, Eq, Structural)]
pub enum KeyCode {
    Char(char),
    Up,
    Down,
    Enter,
    Esc,
    Other,
}

/// A key press: the key and whether the control modifier was held.
#[derive(Clone, Copy, Debug, PartialEq, Eq, Structural)]
pub struct KeyInput {
    pub code: KeyCode,
    pub ctrl: bool,
}

/// What the main loop receives.
#[derive(Clone, Copy, Debug, PartialEq, Eq, Structural)]
pub enum AppEvent {
    Key(KeyInput),
    Tick,
    Quit,
}

/// What became ready in the producer's wait: the timer, or the terminal
/// input stream with a key, another terminal event, an error, or its end.
#[derive(Clone, Copy, Debug, PartialEq, Eq, Structural)]
pub enum SourceEvent {
    TimerElapsed,
    Key(KeyInput),
    NonKey,
    InputError,
    InputClosed,
}

/// What the main loop does in answer to an event.
#[derive(Clone, Copy, Debug, PartialEq, Eq, Structural)]
pub enum Command {
    Quit,
    Refresh,
    ScrollUp,
    ScrollDown,
    Ignore,
}

/// The interrupt chord: control and `c`.
pub open spec fn is_quit_chord(k: KeyInput) -> bool {
    k.code == KeyCode::Char('c') && k.ctrl
}

/// One step of the producer: whether it still runs afterwards, and the event
/// it hands on, if any.
pub open spec fn producer_step(running: bool, ev: SourceEvent) -> (bool, Option<AppEvent>) {
    if !running {
        (false, None)
    } else {
        match ev {
            SourceEvent::TimerElapsed => (true, Some(AppEvent::Tick)),
            SourceEvent::Key(k) => if is_quit_chord(k) {
                (false, Some(AppEvent::Quit))
            } else {
                (true, Some(AppEvent::Key(k)))
            },
            SourceEvent::NonKey => (true, None),
            SourceEvent::InputError => (false, None),
            SourceEvent::InputClosed => (false, None),
        }
    }
}

/// Whether the producer runs after the readiness events `evs`, in order.
pub open spec fn running_after(running: bool, evs: Seq<SourceEvent>) -> bool
    decreases evs.len(),
{
    if evs.len() == 0 {
        running
    } else {
        producer_step(running_after(running, evs.drop_last()), evs.last()).0
    }
}

/// The events handed on, in order, for the readiness events `evs`, in the
/// order the wait observed them.
pub open spec fn forwarded(running: bool, evs: Seq<SourceEvent>) -> Seq<AppEvent>
    decreases evs.len(),
{
    if evs.len() == 0 {
        Seq::empty()
    } else {
        let before = forwarded(running, evs.drop_last());
        match producer_step(running_after(running, evs.drop_last()), evs.last()).1 {
            Some(e) => before.push(e),
            None => before,
        }
    }
}

/// Events leave in the order their sources became ready: what two runs of
/// readiness produce, one after the other, is what the first produces
/// followed by what the second produces.
pub proof fn lemma_forwarding_keeps_order(running: bool, first: Seq<SourceEvent>, second: Seq<SourceEvent>)
    ensures
        forwarded(running, first + second) == forwarded(running, first) + forwarded(
            running_after(running, first),
            second,
        ),
        running_after(running, first + second) == running_after(running_after(running, first), second),
    decreases second.len(),
{
    if second.len() == 0 {
        assert(first + second =~= first);
        assert(forwarded(running, first) + Seq::empty() =~= forwarded(running, first));
    } else {
        lemma_forwarding_keeps_order(running, first, second.drop_last());
        assert((first + second).drop_last() =~= first + second.drop_last());
        assert((first + second).last() == second.last());
        let a = forwarded(running, first);
        let b = forwarded(running_after(running, first), second.drop_last());
        match producer_step(running_after(running, first + second.drop_last()), second.last()).1 {
            Some(e) => {
                assert((a + b).push(e) =~= a + b.push(e));
            },
            None => {},
        }
    }
}

/// A stopped producer hands on nothing more, whatever becomes ready.
pub proof fn lemma_stopped_stays_silent(evs: Seq<SourceEvent>)
    ensures
        forwarded(false, evs) == Seq::<AppEvent>::empty(),
        !running_after(false, evs),
    decreases evs.len(),
{
    if evs.len() > 0 {
        lemma_stopped_stays_silent(evs.drop_last());
    }
}

/// The interrupt chord stops the producer: it hands on `Quit` as its last
/// event, and nothing of what is still pending after it.
pub proof fn lemma_quit_chord_ends_stream(running: bool, before: Seq<SourceEvent>, k: KeyInput, pending: Seq<SourceEvent>)
    requires
        is_quit_chord(k),
    ensures
        !running_after(running, before + seq![SourceEvent::Key(k)] + pending),
        forwarded(running, before + seq![SourceEvent::Key(k)] + pending) == if running_after(running, before) {
            forwarded(running, before).push(AppEvent::Quit)
        } else {
            forwarded(running, before)
        },
{
    let q = seq![SourceEvent::Key(k)];
    lemma_forwarding_keeps_order(running, before, q);
    lemma_forwarding_keeps_order(running, before + q, pending);
    let r = running_after(running, before);
    assert(q.drop_last() =~= Seq::<SourceEvent>::empty());
    assert(q.last() == SourceEvent::Key(k));
    assert(forwarded(r, q.drop_last()) == Seq::<AppEvent>::empty());
    assert(running_after(r, q.drop_last()) == r);
    assert(!running_after(r, q));
    lemma_stopped_stays_silent(pending);
    let f = forwarded(running, before + q);
    assert(f + Seq::<AppEvent>::empty() =~= f);
    if r {
        assert(forwarded(r, q) =~= seq![AppEvent::Quit]);
        assert(forwarded(running, before) + seq![AppEvent::Quit] =~= forwarded(running, before).push(AppEvent::Quit));
    } else {
        assert(forwarded(r, q) =~= Seq::<AppEvent>::empty());
        assert(forwarded(running, before) + Seq::<AppEvent>::empty() =~= forwarded(running, before));
    }
}

/// The producer side of the event stream: it merges the timer and the
/// terminal input into one ordered stream until it stops.
pub struct EventProducer {
    pub running: bool,
}

impl EventProducer {
    /// A running producer.
    pub fn new() -> (r: EventProducer)
        ensures
            r.running,
    {
        EventProducer { running: true }
    }

    /// Takes the event that became ready and returns what is to be sent on.
    pub fn on_ready(&mut self, ev: SourceEvent) -> (r: Option<AppEvent>)
        ensures
            (final(self).running, r) == producer_step(old(self).running, ev),
    {
        if !self.running {
            return None;
        }
        match ev {
            SourceEvent::TimerElapsed => Some(AppEvent::Tick),
            SourceEvent::Key(k) => {
                if k.ctrl && k.code == KeyCode::Char('c') {
                    self.running = false;
                    Some(AppEvent::Quit)
                } else {
                    Some(AppEvent::Key(k))
                }
            },
            SourceEvent::NonKey => None,
            SourceEvent::InputError => {
                self.running = false;
                None
            },
            SourceEvent::InputClosed => {
                self.running = false;
                None
            },
        }
    }

    /// The receiving side is gone: the producer stops.
    pub fn receiver_gone(&mut self)
        ensures
            !final(self).running,
    {
        self.running = false;
    }
}

/// The main loop's answer to an event: `q` or the chord quits, a tick or `r`
/// refreshes, the arrow keys scroll, all else is ignored.
pub open spec fn command_spec(ev: AppEvent) -> Command {
    match ev {
        AppEvent::Quit => Command::Quit,
        AppEvent::Tick => Command::Refresh,
        AppEvent::Key(k) => match k.code {
            KeyCode::Char(c) => if c == 'q' {
                Command::Quit
            } else if c == 'r' {
                Command::Refresh
            } else {
                Command::Ignore
            },
            KeyCode::Up => Command::ScrollUp,
            KeyCode::Down => Command::ScrollDown,
            _ => Command::Ignore,
        },
    }
}

/// What the main loop does in answer to `ev`.
pub fn command_for(ev: AppEvent) -> (r: Command)
    ensures
        r == command_spec(ev),
{
    match ev {
        AppEvent::Quit => Command::Quit,
        AppEvent::Tick => Command::Refresh,
        AppEvent::Key(k) => match k.code {
            KeyCode::Char(c) => {
                if c == 'q' {
                    Command::Quit
                } else if c == 'r' {
                    Command::Refresh
                } else {
                    Command::Ignore
                }
            },
            KeyCode::Up => Command::ScrollUp,
            KeyCode::Down => Command::ScrollDown,
            _ => Command::Ignore,
        },
    }
}

} // verus!
