//! One reading of the sensor, as a state machine.
//!
//! The machine asks its driver for one thing at a time ([`Action`]) and is
//! told how it went ([`Event`]). It starts with the handshake: it drives the
//! line high for 5 µs, low for 20 ms, high again, and releases it to input.
//! (Sensor revisions differ here: some datasheets ask instead for 18 ms low,
//! then 20 to 40 µs high. This engine keeps to the first form throughout.)
//! It then follows the sensor's answer as a run of timed waits for the line
//! to leave a level: high, low, high for the acknowledgement, then low and
//! high for each of the 40 bits. A high pulse longer than 30 µs is a `1`.
//! The last wait ends with the frame's verdict; a driver fault or a wait past
//! its 250 ms ceiling ends the reading at once.
use crate::frame::{
    check_frame, checksum_of, frame_bits, frame_bytes, frame_value, lemma_checksum_invariant,
    lemma_frame_value_bound, split_frame, verdict,
};
use crate::line::{bit_of, elapsed, poll, Level, Mode, Poll, BIT_THRESHOLD_NS, WAIT_CEILING_NS};
use crate::measure::{Error, Measure};
use rppal::gpio::Error as GpioError;
use vstd::arithmetic::power2::{lemma2_to64_rest, lemma_pow2_strictly_increases, pow2};
use vstd::prelude::*;

verus! {

/// The number of actions in the handshake.
pub const HANDSHAKE_STEPS: u64 = 7;

/// The number of timed waits in a reading: three for the acknowledgement,
/// two for each of the 40 bits.
pub const WAITS: u64 = 83;

/// How long the handshake first holds the line high, in microseconds.
pub const START_HIGH_US: u64 = 5;

/// How long the handshake holds the line low, in microseconds.
pub const START_LOW_US: u64 = 20_000;

/// What the driver reports after carrying out an action. Times are in
/// nanoseconds on one monotonic clock.
#[derive(Debug)]
pub enum Event {
    /// The action was carried out; the clock then read this.
    Done(u64),
    /// The line was sampled at this level; the clock then read this.
    Sampled(Level, u64),
    /// The line driver failed.
    Fault(GpioError),
}

/// What the reading asks its driver to do next.
#[derive(Debug)]
pub enum Action {
    /// Switch the line's direction.
    SetMode(Mode),
    /// Drive the line to a level.
    SetLevel(Level),
    /// Sleep for this many microseconds.
    Sleep(u64),
    /// Read the line's level, then the clock.
    Sample,
    /// The reading is over, with this outcome.
    Report(Result<Measure, Error>),
}

/// The `k`-th action of the handshake.
pub open spec fn script(k: nat) -> Action {
    if k == 0 {
        Action::SetMode(Mode::Output)
    } else if k == 1 {
        Action::SetLevel(Level::High)
    } else if k == 2 {
        Action::Sleep(START_HIGH_US)
    } else if k == 3 {
        Action::SetLevel(Level::Low)
    } else if k == 4 {
        Action::Sleep(START_LOW_US)
    } else if k == 5 {
        Action::SetLevel(Level::High)
    } else {
        Action::SetMode(Mode::Input)
    }
}

/// The level that the `w`-th wait waits for the line to leave: the waits
/// alternate, starting with high.
pub open spec fn wait_level(w: nat) -> Level {
    if w % 2 == 0 {
        Level::High
    } else {
        Level::Low
    }
}

/// Whether the `w`-th wait times the high pulse of a bit.
pub open spec fn is_bit_wait(w: nat) -> bool {
    w >= 4 && w % 2 == 0
}

/// The number of bits decoded before the `w`-th wait.
pub open spec fn bits_before(w: nat) -> nat {
    if w < 3 {
        0
    } else {
        ((w - 3) / 2) as nat
    }
}

/// The state of a reading, as seen from outside.
pub struct ReadingView {
    /// How many handshake actions have been asked for.
    pub issued: nat,
    /// Whether the handshake is over and the waits have begun.
    pub listening: bool,
    /// The index of the wait in progress.
    pub wait: nat,
    /// When the wait in progress began.
    pub since: u64,
    /// The bits decoded so far.
    pub bits: Seq<bool>,
    /// Whether the outcome has been reported.
    pub finished: bool,
}

/// The state of a reading that has not begun.
pub open spec fn initial() -> ReadingView {
    ReadingView {
        issued: 0,
        listening: false,
        wait: 0,
        since: 0,
        bits: Seq::empty(),
        finished: false,
    }
}

/// An acknowledgement during the handshake at time `at`: the next handshake
/// action, or, after the last, the first sample.
pub open spec fn acknowledge(s: ReadingView, at: u64) -> (ReadingView, Action) {
    if s.issued < HANDSHAKE_STEPS {
        (ReadingView { issued: s.issued + 1, ..s }, script(s.issued))
    } else {
        (ReadingView { listening: true, since: at, ..s }, Action::Sample)
    }
}

/// A sample of the line at level `seen` at time `at`, during the waits.
pub open spec fn sampled(s: ReadingView, seen: Level, at: u64) -> (ReadingView, Action) {
    let held = elapsed(s.since, at);
    if seen != wait_level(s.wait) {
        let bits = if is_bit_wait(s.wait) {
            s.bits.push(held > BIT_THRESHOLD_NS)
        } else {
            s.bits
        };
        if s.wait + 1 == WAITS {
            (
                ReadingView { wait: WAITS as nat, bits, finished: true, ..s },
                Action::Report(verdict(frame_bytes(frame_value(bits)))),
            )
        } else {
            (ReadingView { wait: s.wait + 1, since: at, bits, ..s }, Action::Sample)
        }
    } else if held > WAIT_CEILING_NS {
        (ReadingView { finished: true, ..s }, Action::Report(Err(Error::TimeOut)))
    } else {
        (s, Action::Sample)
    }
}

/// The state after `e` and the action it calls for.
pub open spec fn next(s: ReadingView, e: Event) -> (ReadingView, Action) {
    match e {
        Event::Fault(err) => (ReadingView { finished: true, ..s }, Action::Report(Err(Error::Gpio(err)))),
        Event::Done(at) => if !s.listening {
            acknowledge(s, at)
        } else {
            (s, Action::Sample)
        },
        Event::Sampled(seen, at) => if !s.listening {
            acknowledge(s, at)
        } else {
            sampled(s, seen, at)
        },
    }
}

/// The state after `events`, from `s`, and the actions they call for; the
/// events after the outcome is reported are not looked at.
pub open spec fn run(s: ReadingView, events: Seq<Event>) -> (ReadingView, Seq<Action>)
    decreases events.len(),
{
    if events.len() == 0 || s.finished {
        (s, Seq::empty())
    } else {
        let (t, a) = next(s, events[0]);
        let (u, rest) = run(t, events.drop_first());
        (u, seq![a] + rest)
    }
}

/// One reading of the sensor.
pub struct Reading {
    issued: u64,
    listening: bool,
    wait: u64,
    since: u64,
    frame: u64,
    bits: Ghost<Seq<bool>>,
    finished: bool,
}

impl View for Reading {
    type V = ReadingView;

    closed spec fn view(&self) -> ReadingView {
        ReadingView {
            issued: self.issued as nat,
            listening: self.listening,
            wait: self.wait as nat,
            since: self.since,
            bits: self.bits@,
            finished: self.finished,
        }
    }
}

/// The action that asks for the `k`-th step of the handshake.
fn script_action(k: u64) -> (r: Action)
    requires
        k < HANDSHAKE_STEPS,
    ensures
        r == script(k as nat),
{
    if k == 0 {
        Action::SetMode(Mode::Output)
    } else if k == 1 {
        Action::SetLevel(Level::High)
    } else if k == 2 {
        Action::Sleep(START_HIGH_US)
    } else if k == 3 {
        Action::SetLevel(Level::Low)
    } else if k == 4 {
        Action::Sleep(START_LOW_US)
    } else if k == 5 {
        Action::SetLevel(Level::High)
    } else {
        Action::SetMode(Mode::Input)
    }
}

impl Reading {
    /// The fields agree with one another.
    pub closed spec fn wf(&self) -> bool {
        &&& self.issued <= HANDSHAKE_STEPS
        &&& self.listening ==> self.issued == HANDSHAKE_STEPS
        &&& !self.listening ==> self.wait == 0
        &&& self.wait <= WAITS
        &&& !self.finished ==> self.wait < WAITS
        &&& self.bits@.len() == bits_before(self.wait as nat)
        &&& self.frame == frame_value(self.bits@)
    }

    /// A reading that has not begun; feed it an [`Event::Done`] to start it.
    pub fn new() -> (r: Reading)
        ensures
            r.wf(),
            r@ == initial(),
    {
        let r = Reading {
            issued: 0,
            listening: false,
            wait: 0,
            since: 0,
            frame: 0,
            bits: Ghost(Seq::empty()),
            finished: false,
        };
        assert(r@ =~= initial());
        r
    }

    /// Whether the outcome has been reported.
    pub fn is_finished(&self) -> (r: bool)
        ensures
            r == self@.finished,
    {
        self.finished
    }

    /// Takes in what the driver reports and says what it is to do next.
    pub fn step(&mut self, event: Event) -> (r: Action)
        requires
            old(self).wf(),
            !old(self)@.finished,
        ensures
            final(self).wf(),
            (final(self)@, r) == next(old(self)@, event),
    {
        match event {
            Event::Fault(err) => {
                self.finished = true;
                Action::Report(Err(Error::Gpio(err)))
            },
            Event::Done(at) => {
                if !self.listening {
                    self.acknowledge(at)
                } else {
                    Action::Sample
                }
            },
            Event::Sampled(seen, at) => {
                if !self.listening {
                    self.acknowledge(at)
                } else {
                    self.sample(seen, at)
                }
            },
        }
    }

    fn acknowledge(&mut self, at: u64) -> (r: Action)
        requires
            old(self).wf(),
            !old(self)@.finished,
            !old(self)@.listening,
        ensures
            final(self).wf(),
            (final(self)@, r) == acknowledge(old(self)@, at),
    {
        if self.issued < HANDSHAKE_STEPS {
            let a = script_action(self.issued);
            self.issued = self.issued + 1;
            a
        } else {
            self.listening = true;
            self.since = at;
            Action::Sample
        }
    }

    fn sample(&mut self, seen: Level, at: u64) -> (r: Action)
        requires
            old(self).wf(),
            !old(self)@.finished,
            old(self)@.listening,
        ensures
            final(self).wf(),
            (final(self)@, r) == sampled(old(self)@, seen, at),
    {
        let level = if self.wait % 2 == 0 {
            Level::High
        } else {
            Level::Low
        };
        match poll(level, self.since, seen, at) {
            Poll::Changed(held) => {
                if self.wait >= 4 && self.wait % 2 == 0 {
                    let bit = bit_of(held);
                    proof {
                        let n = self.bits@.len();
                        lemma_frame_value_bound(self.bits@);
                        lemma2_to64_rest();
                        if n < 39 {
                            lemma_pow2_strictly_increases(n, 39);
                        }
                        assert(self.bits@.push(bit).drop_last() =~= self.bits@);
                    }
                    self.frame = self.frame * 2 + if bit {
                        1
                    } else {
                        0
                    };
                    self.bits = Ghost(self.bits@.push(bit));
                }
                self.wait = self.wait + 1;
                if self.wait == WAITS {
                    self.finished = true;
                    Action::Report(check_frame(split_frame(self.frame)))
                } else {
                    self.since = at;
                    Action::Sample
                }
            },
            Poll::TimedOut => {
                self.finished = true;
                Action::Report(Err(Error::TimeOut))
            },
            Poll::Pending => Action::Sample,
        }
    }
}


/// A reading `k` actions into its handshake.
pub open spec fn handshaking(k: nat) -> ReadingView {
    ReadingView { issued: k, ..initial() }
}

/// A reading whose handshake is over and whose first wait began at `at`.
pub open spec fn listening_at(at: u64) -> ReadingView {
    ReadingView { issued: HANDSHAKE_STEPS as nat, listening: true, since: at, ..initial() }
}

/// The driver's acknowledgements of actions, at the times `times`.
pub open spec fn acks(times: Seq<u64>) -> Seq<Event> {
    Seq::new(times.len(), |i: int| Event::Done(times[i]))
}

/// Samples of the line at `level`, at the times `times`.
pub open spec fn samples(level: Level, times: Seq<u64>) -> Seq<Event> {
    Seq::new(times.len(), |i: int| Event::Sampled(level, times[i]))
}

/// The handshake's actions from the `k`-th on, then the first sample.
pub open spec fn handshake_actions(k: nat) -> Seq<Action> {
    Seq::new((HANDSHAKE_STEPS - k) as nat, |i: int| script((k + i) as nat)).push(Action::Sample)
}

/// `run` takes one event at a time.
proof fn lemma_run_cons(s: ReadingView, e: Event, rest: Seq<Event>)
    requires
        !s.finished,
    ensures
        run(s, seq![e] + rest) == ({
            let (t, a) = next(s, e);
            (run(t, rest).0, seq![a] + run(t, rest).1)
        }),
{
    assert((seq![e] + rest).drop_first() =~= rest);
}

/// From `k` actions into the handshake, acknowledgements at `times` finish
/// it, and the waits begin at the last of them.
proof fn lemma_handshake(k: nat, times: Seq<u64>, rest: Seq<Event>)
    requires
        k <= HANDSHAKE_STEPS,
        times.len() == HANDSHAKE_STEPS + 1 - k,
    ensures
        run(handshaking(k), acks(times) + rest) == (
            run(listening_at(times.last()), rest).0,
            handshake_actions(k) + run(listening_at(times.last()), rest).1,
        ),
    decreases HANDSHAKE_STEPS - k,
{
    let e = Event::Done(times[0]);
    assert(acks(times) + rest =~= seq![e] + (acks(times.drop_first()) + rest));
    lemma_run_cons(handshaking(k), e, acks(times.drop_first()) + rest);
    if k < HANDSHAKE_STEPS {
        assert(next(handshaking(k), e).0 == handshaking(k + 1));
        lemma_handshake(k + 1, times.drop_first(), rest);
        assert(handshake_actions(k) =~= seq![script(k)] + handshake_actions(k + 1));
    } else {
        assert(times.drop_first().len() == 0);
        assert(acks(times.drop_first()) + rest =~= rest);
        assert(next(handshaking(k), e).0 == listening_at(times.last()));
        assert(handshake_actions(k) =~= seq![Action::Sample]);
    }
}

/// Samples that find the line still at the awaited level within the ceiling
/// change nothing, and each asks for another sample.
proof fn lemma_pending(s: ReadingView, times: Seq<u64>, rest: Seq<Event>)
    requires
        s.listening,
        !s.finished,
        forall|i: int| 0 <= i < times.len() ==> elapsed(s.since, #[trigger] times[i]) <= WAIT_CEILING_NS,
    ensures
        run(s, samples(wait_level(s.wait), times) + rest) == (
            run(s, rest).0,
            Seq::new(times.len(), |i: int| Action::Sample) + run(s, rest).1,
        ),
    decreases times.len(),
{
    if times.len() > 0 {
        let e = Event::Sampled(wait_level(s.wait), times[0]);
        let tail = times.drop_first();
        assert(samples(wait_level(s.wait), times) + rest =~= seq![e] + (samples(wait_level(s.wait), tail) + rest));
        lemma_run_cons(s, e, samples(wait_level(s.wait), tail) + rest);
        lemma_pending(s, tail, rest);
        assert(Seq::new(times.len(), |i: int| Action::Sample) =~= seq![Action::Sample] + Seq::new(
            tail.len(),
            |i: int| Action::Sample,
        ));
    } else {
        assert(samples(wait_level(s.wait), times) + rest =~= rest);
        assert(Seq::new(times.len(), |i: int| Action::Sample) + run(s, rest).1 =~= run(s, rest).1);
    }
}

/// A timed wait never blocks for good: whatever wait is in progress, if
/// every sample finds the line still at the awaited level, the samples
/// within 250 ms of the wait's start each ask for another, and the first one
/// past that ends the reading with a time-out.
pub proof fn lemma_wait_times_out(s: ReadingView, early: Seq<u64>, late: u64)
    requires
        s.listening,
        !s.finished,
        forall|i: int| 0 <= i < early.len() ==> elapsed(s.since, #[trigger] early[i]) <= WAIT_CEILING_NS,
        elapsed(s.since, late) > WAIT_CEILING_NS,
    ensures
        ({
            let (end, actions) = run(
                s,
                samples(wait_level(s.wait), early) + seq![Event::Sampled(wait_level(s.wait), late)],
            );
            &&& end == ReadingView { finished: true, ..s }
            &&& actions == Seq::new(early.len(), |i: int| Action::Sample).push(
                Action::Report(Err(Error::TimeOut)),
            )
        }),
{
    let last = seq![Event::Sampled(wait_level(s.wait), late)];
    lemma_pending(s, early, last);
    assert(last =~= seq![Event::Sampled(wait_level(s.wait), late)] + Seq::<Event>::empty());
    lemma_run_cons(s, Event::Sampled(wait_level(s.wait), late), Seq::empty());
    assert(seq![Action::Report(Err(Error::TimeOut))] + Seq::<Action>::empty() =~= seq![
        Action::Report(Err(Error::TimeOut)),
    ]);
    assert(Seq::new(early.len(), |i: int| Action::Sample) + seq![Action::Report(Err(Error::TimeOut))]
        =~= Seq::new(early.len(), |i: int| Action::Sample).push(Action::Report(Err(Error::TimeOut))));
}

/// A sensor that never answers leaves the line high once the handshake has
/// released it. Whenever the driver acknowledges the handshake (`times`) and
/// samples the line (`early`, then `late`), a reading that still sees it
/// high more than 250 ms after it began listening reports a time-out and
/// asks for nothing more. Every new reading starts from the same state, so a
/// retry against the same sensor ends the same way.
pub proof fn lemma_silent_sensor_times_out(times: Seq<u64>, early: Seq<u64>, late: u64)
    requires
        times.len() == HANDSHAKE_STEPS + 1,
        forall|i: int| 0 <= i < early.len() ==> elapsed(times.last(), #[trigger] early[i]) <= WAIT_CEILING_NS,
        elapsed(times.last(), late) > WAIT_CEILING_NS,
    ensures
        ({
            let (end, actions) = run(
                initial(),
                acks(times) + samples(Level::High, early) + seq![Event::Sampled(Level::High, late)],
            );
            &&& end.finished
            &&& actions.len() == HANDSHAKE_STEPS + 1 + early.len() + 1
            &&& actions.last() == Action::Report(Err(Error::TimeOut))
        }),
{
    let s = listening_at(times.last());
    let last = seq![Event::Sampled(Level::High, late)];
    assert(initial() == handshaking(0));
    assert(acks(times) + samples(Level::High, early) + last =~= acks(times) + (samples(Level::High, early) + last));
    lemma_handshake(0, times, samples(Level::High, early) + last);
    lemma_wait_times_out(s, early, late);
}

/// A driver fault ends a reading at once: the fault is reported, and no
/// event after it leads to any further action.
pub proof fn lemma_fault_ends_reading(s: ReadingView, err: GpioError, rest: Seq<Event>)
    requires
        !s.finished,
    ensures
        run(s, seq![Event::Fault(err)] + rest) == (
            ReadingView { finished: true, ..s },
            seq![Action::Report(Err(Error::Gpio(err)))],
        ),
{
    lemma_run_cons(s, Event::Fault(err), rest);
    assert(seq![Action::Report(Err(Error::Gpio(err)))] + Seq::<Action>::empty() =~= seq![
        Action::Report(Err(Error::Gpio(err))),
    ]);
}

/// The level that ends the `w`-th wait.
pub open spec fn edge_level(w: nat) -> Level {
    if w % 2 == 0 {
        Level::Low
    } else {
        Level::High
    }
}

/// Samples that each find the line just past an edge, at the times `edges`,
/// from the `w`-th wait on.
pub open spec fn edges_from(w: nat, edges: Seq<u64>) -> Seq<Event> {
    Seq::new(edges.len(), |j: int| Event::Sampled(edge_level((w + j) as nat), edges[j]))
}

/// From the `s.wait`-th wait on, samples that each see the next edge end
/// the reading with the verdict on the bits that the high pulses spell.
proof fn lemma_edges(s: ReadingView, edges: Seq<u64>, bits: Seq<bool>)
    requires
        s.listening,
        !s.finished,
        s.wait < WAITS,
        edges.len() == WAITS - s.wait,
        bits.len() == 40,
        s.bits == bits.take(bits_before(s.wait) as int),
        forall|j: int|
            #![trigger edges[j]]
            0 <= j < edges.len() && is_bit_wait((s.wait + j) as nat) ==> (elapsed(
                if j == 0 {
                    s.since
                } else {
                    edges[j - 1]
                },
                edges[j],
            ) > BIT_THRESHOLD_NS) == bits[bits_before((s.wait + j) as nat) as int],
    ensures
        run(s, edges_from(s.wait, edges)).0.finished,
        run(s, edges_from(s.wait, edges)).1.len() == edges.len(),
        run(s, edges_from(s.wait, edges)).1.last() == Action::Report(
            verdict(frame_bytes(frame_value(bits))),
        ),
    decreases edges.len(),
{
    let w = s.wait;
    let e = Event::Sampled(edge_level(w), edges[0]);
    let tail = edges.drop_first();
    assert(edges_from(w, edges) =~= seq![e] + edges_from(w + 1, tail));
    lemma_run_cons(s, e, edges_from(w + 1, tail));
    let (t, a) = next(s, e);
    let b = bits_before(w);
    if is_bit_wait(w) {
        assert(bits_before(w + 1) == b + 1);
        assert(bits.take(b + 1int) =~= bits.take(b as int).push(bits[b as int]));
    } else {
        assert(bits_before(w + 1) == b);
    }
    assert(t.bits == bits.take(bits_before(w + 1) as int));
    if w + 1 == WAITS {
        assert(bits.take(40) =~= bits);
        assert(tail.len() == 0);
        assert(edges_from(w + 1, tail) =~= Seq::<Event>::empty());
    } else {
        assert forall|j: int|
            #![trigger tail[j]]
            0 <= j < tail.len() && is_bit_wait((t.wait + j) as nat) implies (elapsed(
                if j == 0 {
                    t.since
                } else {
                    tail[j - 1]
                },
                tail[j],
            ) > BIT_THRESHOLD_NS) == bits[bits_before((t.wait + j) as nat) as int] by {
            assert(edges[j + 1] == tail[j]);
        }
        lemma_edges(t, tail, bits);
    }
}

/// Whatever the times of the handshake's acknowledgements (`times`) and of
/// the 83 edges of the sensor's answer (`edges`), a reading that samples the
/// line just past each edge, and whose high pulses are longer than 30 µs
/// exactly for the `1` bits of the frame `f`, ends by reporting the
/// measurement of humidity `f[0]` and temperature `f[2]` when `f[4]` is the
/// sum of the four data bytes modulo 256, and a checksum error otherwise.
pub proof fn lemma_reading_decodes_frame(times: Seq<u64>, edges: Seq<u64>, f: Seq<u8>)
    requires
        times.len() == HANDSHAKE_STEPS + 1,
        edges.len() == WAITS,
        f.len() == 5,
        forall|i: int|
            0 <= i < 40 ==> (elapsed(edges[3 + 2 * i], #[trigger] edges[4 + 2 * i]) > BIT_THRESHOLD_NS)
                == frame_bits(f)[i],
    ensures
        ({
            let (end, actions) = run(initial(), acks(times) + edges_from(0, edges));
            &&& end.finished
            &&& actions.len() == HANDSHAKE_STEPS + 1 + WAITS
            &&& actions.last() == Action::Report(verdict(f))
            &&& f[4] == checksum_of(f) ==> actions.last() == Action::Report(
                Ok(Measure { temperature: f[2], humidity: f[0] }),
            )
            &&& f[4] != checksum_of(f) ==> actions.last() == Action::Report(Err(Error::CheckSum))
        }),
{
    let s = listening_at(times.last());
    let bits = frame_bits(f);
    lemma_checksum_invariant(f[0], f[1], f[2], f[3], f[4]);
    assert(f =~= seq![f[0], f[1], f[2], f[3], f[4]]);
    assert(initial() == handshaking(0));
    lemma_handshake(0, times, edges_from(0, edges));
    assert(s.bits == bits.take(0));
    assert forall|j: int|
        #![trigger edges[j]]
        0 <= j < edges.len() && is_bit_wait((s.wait + j) as nat) implies (elapsed(
            if j == 0 {
                s.since
            } else {
                edges[j - 1]
            },
            edges[j],
        ) > BIT_THRESHOLD_NS) == bits[bits_before((s.wait + j) as nat) as int] by {
        let i = (j - 4) / 2;
        assert(j == 4 + 2 * i);
        assert(edges[j - 1] == edges[3 + 2 * i]);
    }
    lemma_edges(s, edges, bits);
}

} // verus!
