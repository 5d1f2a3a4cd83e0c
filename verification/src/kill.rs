//! Getting rid of a process: it is interrupted a few times, and killed if that does not help.

use vstd::prelude::*;
use vstd::string::*;

use crate::text::{decimal_text, views};
#[allow(unused_imports)]
use crate::text::decimal;

verus! {

/// How often a process is interrupted before it is killed.
pub const ATTEMPTS: u64 = 5;

/// By how much the pause after an interrupt grows from one to the next.
pub const PAUSE_MILLIS: u64 = 200;

/// The signals that are sent to a process.
#[derive(PartialEq, Eq, Clone, Copy, Debug, Structural)]
pub enum Signal {
    /// `SIGINT`, which a process may handle.
    Interrupt,
    /// `SIGKILL`, which no process survives.
    Kill,
}

/// Something to be done about a process.
pub enum KillAction {
    /// Run `ps` with these arguments. Whether it succeeds is the reply.
    Ps { arguments: Vec<String> },
    /// Send a signal to the process. Errors are ignored.
    Send { pid: i32, signal: Signal },
    /// Wait for some milliseconds.
    Pause { millis: u64 },
}

/// The contents of a [`KillAction`].
#[verifier::ext_equal]
pub enum KillDeed {
    Ps { arguments: Seq<Seq<char>> },
    Send { pid: i32, signal: Signal },
    Pause { millis: u64 },
}

impl View for KillAction {
    type V = KillDeed;

    open spec fn view(&self) -> KillDeed {
        match self {
            KillAction::Ps { arguments } => KillDeed::Ps { arguments: views(arguments@) },
            KillAction::Send { pid, signal } => KillDeed::Send { pid: *pid, signal: *signal },
            KillAction::Pause { millis } => KillDeed::Pause { millis: *millis },
        }
    }
}

/// The contents of several actions.
pub open spec fn deeds(actions: Seq<KillAction>) -> Seq<KillDeed> {
    Seq::new(actions.len(), |i: int| actions[i]@)
}

/// `n` in decimal, behind a minus sign if it is negative.
pub open spec fn signed_decimal(n: int) -> Seq<char> {
    if n < 0 {
        "-"@ + decimal((-n) as nat)
    } else {
        decimal(n as nat)
    }
}

/// Asks `ps` for the process, which it finds exactly if it succeeds.
pub open spec fn look_up(pid: i32) -> KillDeed {
    KillDeed::Ps { arguments: seq!["-p"@, signed_decimal(pid as int)] }
}

/// What is done from the point where the process has been interrupted `attempt` times and `ps` has
/// been asked for it once more. Each of `found` tells whether `ps` found the process.
pub open spec fn kill_from(pid: i32, attempt: u64, found: Seq<bool>) -> Seq<KillDeed>
    decreases found.len(),
{
    if found.len() == 0 || !found[0] {
        Seq::empty()
    } else {
        let interrupt = seq![
            KillDeed::Send { pid, signal: Signal::Interrupt },
            KillDeed::Pause { millis: (PAUSE_MILLIS * attempt) as u64 },
        ];
        if attempt + 1 >= ATTEMPTS {
            interrupt.push(KillDeed::Send { pid, signal: Signal::Kill })
        } else {
            interrupt.push(look_up(pid)) + kill_from(pid, (attempt + 1) as u64, found.drop_first())
        }
    }
}

/// All that is done to get rid of a process.
pub open spec fn kill_trace(pid: i32, found: Seq<bool>) -> Seq<KillDeed> {
    seq![look_up(pid)] + kill_from(pid, 0, found)
}

/// A process that is being got rid of, while `ps` is asked for it.
pub struct Killer {
    pid: i32,
    attempt: u64,
}

/// The decimal representation of `n`.
fn signed_decimal_text(n: i32) -> (text: String)
    ensures
        text@ == signed_decimal(n as int),
{
    if n < 0 {
        let mut text = "-".to_owned();
        text.append(decimal_text((-(n as i64)) as u64).as_str());
        text
    } else {
        decimal_text(n as u64)
    }
}

/// The arguments with which `ps` is asked for a process. It succeeds if the process exists.
pub fn ps_arguments(raw_pid: i32) -> (arguments: Vec<String>)
    ensures
        views(arguments@) == seq!["-p"@, signed_decimal(raw_pid as int)],
{
    let arguments = vec!["-p".to_owned(), signed_decimal_text(raw_pid)];
    assert(views(arguments@) =~= seq!["-p"@, signed_decimal(raw_pid as int)]);
    arguments
}

/// Whether a process is gone, if `ps` was asked for it. `ps -p` has a success exit code if the pid
/// exists.
pub fn process_gone(ps_success: bool) -> (gone: bool)
    ensures
        gone == !ps_success,
{
    !ps_success
}

/// Starts to get rid of a process.
pub fn kill_process(raw_pid: i32) -> (start: (Killer, Vec<KillAction>))
    ensures
        start.0.wf(),
        deeds(start.1@) == kill_trace(raw_pid, Seq::empty()),
        forall|found: Seq<bool>|
            deeds(start.1@) + #[trigger] start.0.resume(found) == kill_trace(raw_pid, found),
{
    let actions = vec![KillAction::Ps { arguments: ps_arguments(raw_pid) }];
    assert(deeds(actions@) =~= seq![look_up(raw_pid)]);
    assert(kill_trace(raw_pid, Seq::empty()) =~= seq![look_up(raw_pid)]);
    (Killer { pid: raw_pid, attempt: 0 }, actions)
}

impl Killer {
    /// The process has not been interrupted as often as it may be.
    pub closed spec fn wf(self) -> bool {
        self.attempt < ATTEMPTS
    }

    /// What is still to be done, depending on what `ps` finds.
    pub closed spec fn resume(self, found: Seq<bool>) -> Seq<KillDeed> {
        kill_from(self.pid, self.attempt, found)
    }

    /// Goes on after `ps` has succeeded, or not, to find the process: with what is to be done now,
    /// and, unless that is all, with the process for the next time.
    pub fn next(self, ps_success: bool) -> (next: (Option<Killer>, Vec<KillAction>))
        requires
            self.wf(),
        ensures
            match next.0 {
                Some(killer) => {
                    &&& killer.wf()
                    &&& forall|found: Seq<bool>|
                        deeds(next.1@) + #[trigger] killer.resume(found) == self.resume(
                            seq![ps_success] + found,
                        )
                },
                None => forall|found: Seq<bool>|
                    deeds(next.1@) == #[trigger] self.resume(seq![ps_success] + found),
            },
            deeds(next.1@) == self.resume(seq![ps_success]),
    {
        let mut actions: Vec<KillAction> = Vec::new();
        assert forall|found: Seq<bool>| true implies (#[trigger] (seq![ps_success]
            + found)).drop_first() == found by {
            assert((seq![ps_success] + found).drop_first() =~= found);
        }
        assert(seq![ps_success] + Seq::<bool>::empty() =~= seq![ps_success]);
        if process_gone(ps_success) {
            assert(deeds(actions@) =~= Seq::empty());
            return (None, actions);
        }
        actions.push(KillAction::Send { pid: self.pid, signal: Signal::Interrupt });
        actions.push(KillAction::Pause { millis: PAUSE_MILLIS * self.attempt });
        let ghost interrupt = seq![
            KillDeed::Send { pid: self.pid, signal: Signal::Interrupt },
            KillDeed::Pause { millis: (PAUSE_MILLIS * self.attempt) as u64 },
        ];
        let attempt = self.attempt + 1;
        if attempt == ATTEMPTS {
            actions.push(KillAction::Send { pid: self.pid, signal: Signal::Kill });
            assert(deeds(actions@) =~= interrupt.push(
                KillDeed::Send { pid: self.pid, signal: Signal::Kill },
            ));
            (None, actions)
        } else {
            actions.push(KillAction::Ps { arguments: ps_arguments(self.pid) });
            assert(deeds(actions@) =~= interrupt.push(look_up(self.pid)));
            let killer = Killer { pid: self.pid, attempt };
            assert(deeds(actions@) + killer.resume(Seq::empty()) =~= deeds(actions@));
            (Some(killer), actions)
        }
    }
}

/// How often a signal is sent.
pub open spec fn times_sent(signal: Signal, deeds: Seq<KillDeed>) -> nat
    decreases deeds.len(),
{
    if deeds.len() == 0 {
        0
    } else {
        times_sent(signal, deeds.drop_last()) + match deeds.last() {
            KillDeed::Send { signal: sent, .. } => if sent == signal {
                1nat
            } else {
                0
            },
            _ => 0,
        }
    }
}

/// How often the process was found, until it was gone or had been found often enough.
pub open spec fn times_found(found: Seq<bool>, attempt: u64) -> nat
    decreases found.len(),
{
    if attempt >= ATTEMPTS || found.len() == 0 || !found[0] {
        0
    } else {
        1 + times_found(found.drop_first(), (attempt + 1) as u64)
    }
}

/// Signals are counted across what is done first and what is done afterwards.
proof fn lemma_times_sent(signal: Signal, first: Seq<KillDeed>, second: Seq<KillDeed>)
    ensures
        times_sent(signal, first + second) == times_sent(signal, first) + times_sent(
            signal,
            second,
        ),
    decreases second.len(),
{
    if second.len() == 0 {
        assert(first + second =~= first);
    } else {
        assert((first + second).drop_last() =~= first + second.drop_last());
        lemma_times_sent(signal, first, second.drop_last());
    }
}

/// Signals sent from some attempt on.
proof fn lemma_signals_from(pid: i32, attempt: u64, found: Seq<bool>)
    requires
        attempt < ATTEMPTS,
    ensures
        times_sent(Signal::Interrupt, kill_from(pid, attempt, found)) == times_found(
            found,
            attempt,
        ),
        times_found(found, attempt) <= ATTEMPTS - attempt,
        times_sent(Signal::Kill, kill_from(pid, attempt, found)) == if times_found(found, attempt)
            == ATTEMPTS - attempt {
            1nat
        } else {
            0
        },
    decreases found.len(),
{
    reveal_with_fuel(times_sent, 4);
    if found.len() > 0 && found[0] {
        let interrupt = seq![
            KillDeed::Send { pid, signal: Signal::Interrupt },
            KillDeed::Pause { millis: (PAUSE_MILLIS * attempt) as u64 },
        ];
        let last = KillDeed::Send { pid, signal: Signal::Kill };
        assert(interrupt.drop_last() =~= seq![interrupt[0]]);
        assert(seq![interrupt[0]].drop_last() =~= Seq::empty());
        assert(interrupt.push(last).drop_last() =~= interrupt);
        assert(interrupt.push(look_up(pid)).drop_last() =~= interrupt);
        if attempt + 1 < ATTEMPTS {
            let rest = kill_from(pid, (attempt + 1) as u64, found.drop_first());
            lemma_signals_from(pid, (attempt + 1) as u64, found.drop_first());
            lemma_times_sent(Signal::Interrupt, interrupt.push(look_up(pid)), rest);
            lemma_times_sent(Signal::Kill, interrupt.push(look_up(pid)), rest);
        } else {
            assert(times_found(found.drop_first(), (attempt + 1) as u64) == 0);
        }
    }
}

/// A process is interrupted each time that it is found, and [`ATTEMPTS`] times at most. It is
/// killed, once, exactly if it was found as often as that.
pub proof fn killed_only_after_all_interrupts(pid: i32, found: Seq<bool>)
    ensures
        times_sent(Signal::Interrupt, kill_trace(pid, found)) == times_found(found, 0),
        times_found(found, 0) <= ATTEMPTS,
        times_sent(Signal::Kill, kill_trace(pid, found)) == if times_found(found, 0) == ATTEMPTS {
            1nat
        } else {
            0
        },
{
    reveal_with_fuel(times_sent, 2);
    lemma_signals_from(pid, 0, found);
    let first = seq![look_up(pid)];
    assert(first.drop_last() =~= Seq::empty());
    lemma_times_sent(Signal::Interrupt, first, kill_from(pid, 0, found));
    lemma_times_sent(Signal::Kill, first, kill_from(pid, 0, found));
}

/// A process that is gone already is not sent any signal.
pub proof fn a_gone_process_is_left_alone(pid: i32, found: Seq<bool>)
    requires
        found.len() > 0,
        !found[0],
    ensures
        kill_trace(pid, found) == seq![look_up(pid)],
{
    assert(kill_trace(pid, found) =~= seq![look_up(pid)]);
}

/// The process was found that many times in a row from the start, and five times at most; unless it
/// was five times or there is no more to tell, it was not found the next time.
pub proof fn found_in_a_row(found: Seq<bool>)
    ensures
        ({
            let times = times_found(found, 0) as int;
            &&& times <= 5
            &&& times <= found.len()
            &&& forall|i: int| 0 <= i < times ==> found[i]
            &&& times < 5 && times < found.len() ==> !found[times]
        }),
{
    lemma_found_from(found, 0);
}

/// The same, from some attempt on.
proof fn lemma_found_from(found: Seq<bool>, attempt: u64)
    requires
        attempt <= ATTEMPTS,
    ensures
        ({
            let times = times_found(found, attempt) as int;
            &&& times <= ATTEMPTS - attempt
            &&& times <= found.len()
            &&& forall|i: int| 0 <= i < times ==> found[i]
            &&& times < ATTEMPTS - attempt && times < found.len() ==> !found[times]
        }),
    decreases found.len(),
{
    if attempt < ATTEMPTS && found.len() > 0 && found[0] {
        let rest = found.drop_first();
        lemma_found_from(rest, (attempt + 1) as u64);
        let times = times_found(found, attempt) as int;
        assert forall|i: int| 0 <= i < times implies found[i] by {
            if i > 0 {
                assert(found[i] == rest[i - 1]);
            }
        }
        if times < ATTEMPTS - attempt && times < found.len() {
            assert(found[times] == rest[times - 1]);
        }
    }
}

/// Each time that the process is found, it is interrupted, and a pause is made which is 200
/// milliseconds longer than the one before, none the first time. Before that, `ps` is asked for the
/// process. After the last pause the process is killed if it was found five times, and `ps` is
/// asked once more otherwise.
pub proof fn interrupts_come_at_growing_distances(pid: i32, found: Seq<bool>)
    ensures
        ({
            let deeds = kill_trace(pid, found);
            let times = times_found(found, 0) as int;
            let ps = KillDeed::Ps { arguments: seq!["-p"@, signed_decimal(pid as int)] };
            &&& deeds.len() == 3 * times + 1
            &&& forall|i: int|
                0 <= i < times ==> {
                    &&& #[trigger] deeds[3 * i] == ps
                    &&& deeds[3 * i + 1] == (KillDeed::Send { pid, signal: Signal::Interrupt })
                    &&& deeds[3 * i + 2] == (KillDeed::Pause { millis: (200 * i) as u64 })
                }
            &&& deeds[3 * times] == if times == 5 {
                KillDeed::Send { pid, signal: Signal::Kill }
            } else {
                ps
            }
        }),
{
    lemma_deeds_from(pid, 0, found);
    lemma_found_from(found, 0);
    let deeds = kill_trace(pid, found);
    let rest = kill_from(pid, 0, found);
    let times = times_found(found, 0) as int;
    assert forall|i: int| 0 <= i < times implies {
        &&& #[trigger] deeds[3 * i] == look_up(pid)
        &&& deeds[3 * i + 1] == (KillDeed::Send { pid, signal: Signal::Interrupt })
        &&& deeds[3 * i + 2] == (KillDeed::Pause { millis: (200 * i) as u64 })
    } by {
        assert(is_round(rest, pid, 0, i));
        if i > 0 {
            assert(is_round(rest, pid, 0, i - 1));
            assert(rest[3 * (i - 1) + 2] == look_up(pid));
        }
    }
    if times > 0 {
        assert(is_round(rest, pid, 0, times - 1));
        assert(deeds[3 * times] == rest[3 * (times - 1) + 2]);
    }
}

/// The process is interrupted, a pause is made, and `ps` is asked again, or the process is killed.
spec fn is_round(deeds: Seq<KillDeed>, pid: i32, attempt: u64, i: int) -> bool {
    &&& deeds[3 * i] == (KillDeed::Send { pid, signal: Signal::Interrupt })
    &&& deeds[3 * i + 1] == (KillDeed::Pause { millis: (PAUSE_MILLIS * (attempt + i)) as u64 })
    &&& deeds[3 * i + 2] == if attempt + i + 1 == ATTEMPTS {
        KillDeed::Send { pid, signal: Signal::Kill }
    } else {
        look_up(pid)
    }
}

/// What is done from some attempt on.
proof fn lemma_deeds_from(pid: i32, attempt: u64, found: Seq<bool>)
    requires
        attempt < ATTEMPTS,
    ensures
        ({
            let deeds = kill_from(pid, attempt, found);
            let times = times_found(found, attempt) as int;
            &&& deeds.len() == 3 * times
            &&& forall|i: int| 0 <= i < times ==> #[trigger] is_round(deeds, pid, attempt, i)
        }),
    decreases found.len(),
{
    if found.len() > 0 && found[0] {
        let deeds = kill_from(pid, attempt, found);
        let times = times_found(found, attempt) as int;
        if attempt + 1 < ATTEMPTS {
            let next = (attempt + 1) as u64;
            let rest = kill_from(pid, next, found.drop_first());
            lemma_deeds_from(pid, next, found.drop_first());
            assert forall|i: int| 0 <= i < times implies #[trigger] is_round(
                deeds,
                pid,
                attempt,
                i,
            ) by {
                if i > 0 {
                    assert(is_round(rest, pid, next, i - 1));
                    assert(deeds[3 * i] == rest[3 * (i - 1)]);
                    assert(deeds[3 * i + 1] == rest[3 * (i - 1) + 1]);
                    assert(deeds[3 * i + 2] == rest[3 * (i - 1) + 2]);
                }
            }
        } else {
            assert(times_found(found.drop_first(), (attempt + 1) as u64) == 0);
        }
    }
}

/// A number below zero is written like the one above zero, behind a minus sign.
pub proof fn signs_stand_before_the_digits(n: int)
    ensures
        n >= 0 ==> signed_decimal(n) == decimal(n as nat),
        n < 0 ==> signed_decimal(n) == seq!['-'] + decimal((-n) as nat),
{
    reveal_strlit("-");
    assert("-"@ =~= seq!['-']);
}

} // verus!
