//! A watch over the panel: what an onlooker who sees every action, and every answer of
//! the BUSY pin, can say of the conduct of an operation.
use crate::operation::{
    after, answers, busy_wait, command_ops, fill_ops, next_poll, pause_ops, poll_limit,
    probe_ops, round_ops, signal, start, status_ops, BusyWait, Op, Reply, Signal, State,
};
use crate::runs::{completed, found_busy, lemma_left, run, timed_out, trace, Act};
use crate::script::{
    band_ops, bands_ops, block_ops, burst_ops, chunks, data_ops, data_parts, inverted_ops,
    inverted_parts, reset_ops, script_ops, writes, Block, Link,
};
use crate::timing::{law_undisturbed_end, lemma_script_fresh, undisturbed};
use vstd::prelude::*;

verus! {

/// How an operation waits: the status query, the level on BUSY that means busy, the poll
/// period, the time cap on each wait, and whether the cancel hook is asked at every busy
/// poll and before every band of an image.
pub ghost struct Habits {
    pub status: u8,
    pub low: bool,
    pub delay_us: u32,
    pub cap_us: Option<u32>,
    pub asks: bool,
}

/// What the onlooker knows.
pub ghost struct Watch {
    /// The level of the data/command pin.
    pub dc: bool,
    /// Whether data would belong to a command other than the status query.
    pub named: bool,
    /// Whether the panel can be trusted to be idle: the last BUSY read has found it so,
    /// and no command that makes it busy has been sent since.
    pub ready: bool,
    /// How many BUSY reads in a row have found the pin asserted, since the last transfer
    /// other than a status query.
    pub streak: nat,
    /// How far the preparation of a BUSY read has come: the pin low for a command, the
    /// status query sent, the poll period slept through.
    pub probe: nat,
    /// Whether the cancel hook is to be asked next.
    pub owes: bool,
    /// Whether power-on has just been sent.
    pub hot: bool,
    /// Whether data would belong to an image.
    pub image: bool,
    /// Whether the cancel hook was asked since the last command or BUSY read.
    pub asked: bool,
    /// How many BUSY reads have found the panel idle.
    pub idle_reads: nat,
    /// How often the cancel hook was asked, but for once at each busy poll where it is to
    /// be asked there.
    pub spare: int,
    /// The number of transfers other than status queries.
    pub sent: nat,
    /// How often the reset pin was driven.
    pub rst: nat,
    /// The microseconds slept, but for one poll period for each BUSY read.
    pub spent: int,
    /// How often the data/command pin was driven and the status was queried, but for once
    /// each for every BUSY read.
    pub asides: int,
    /// Nothing but status queries was sent while the panel was not known to be idle, and
    /// no data after a status query.
    pub gentle: bool,
    /// Every BUSY read was of the right polarity and came right after a status query and
    /// one poll period.
    pub probed: bool,
    /// The cancel hook was asked right after every read that has found the panel busy,
    /// where it is to be asked.
    pub polite: bool,
    /// Power-on was followed by a pause of 100 milliseconds at once.
    pub warmed: bool,
    /// No image data was sent, where the cancel hook is to be asked, before it was asked
    /// once more after the command that the data belongs to.
    pub offered: bool,
}

/// Commands that start the transfer of an image.
pub open spec fn starts_image(address: u8) -> bool {
    address == 0x10 || address == 0x13
}

/// Commands after which the panel is busy: power-off, power-on, refresh.
pub open spec fn keeps_busy(address: u8) -> bool {
    address == 0x02 || address == 0x04 || address == 0x12
}

/// What the onlooker knows after one more action.
pub open spec fn observe(w: Watch, act: Act, h: Habits) -> Watch {
    let v = Watch {
        polite: w.polite && (w.owes ==> act.signal is AskCancel),
        warmed: w.warmed && (w.hot ==> act.signal == Signal::DelayMs(100)),
        owes: false,
        hot: false,
        probe: 0,
        ..w
    };
    match act.signal {
        Signal::Dc(high) => Watch {
            dc: high,
            asides: v.asides + 1,
            probe: if high {
                0
            } else {
                1
            },
            ..v
        },
        Signal::Rst(_) => Watch { rst: v.rst + 1, ..v },
        Signal::DelayUs(us) => Watch {
            spent: v.spent + us,
            probe: if w.probe == 2 && us == h.delay_us {
                3
            } else {
                0
            },
            ..v
        },
        Signal::DelayMs(ms) => Watch { spent: v.spent + 1000 * ms, ..v },
        Signal::Write(bytes) => if !v.dc && bytes.len() == 1 && bytes[0] == h.status {
            Watch {
                named: false,
                image: false,
                asked: false,
                asides: v.asides + 1,
                probe: if w.probe != 1 {
                    0
                } else if h.delay_us == 0 {
                    3
                } else {
                    2
                },
                ..v
            }
        } else {
            Watch {
                named: v.dc ==> v.named,
                ready: v.ready && (v.dc || !(bytes.len() == 1 && keeps_busy(bytes[0]))),
                hot: !v.dc && bytes.len() == 1 && bytes[0] == 0x04,
                streak: 0,
                sent: v.sent + 1,
                gentle: v.gentle && v.ready && (v.dc ==> v.named),
                image: if v.dc {
                    v.image
                } else {
                    bytes.len() == 1 && starts_image(bytes[0])
                },
                asked: v.dc && v.asked,
                offered: v.offered && (v.dc && v.image && h.asks ==> v.asked),
                ..v
            }
        },
        Signal::ReadBusy(low) => {
            let u = Watch {
                probed: v.probed && low == h.low && w.probe == 3,
                spent: v.spent - h.delay_us,
                asides: v.asides - 2,
                asked: false,
                ..v
            };
            if act.busy {
                Watch {
                    ready: false,
                    streak: u.streak + 1,
                    owes: h.asks,
                    spare: if h.asks {
                        u.spare - 1
                    } else {
                        u.spare
                    },
                    ..u
                }
            } else {
                Watch { ready: true, streak: 0, idle_reads: u.idle_reads + 1, ..u }
            }
        },
        Signal::AskCancel => Watch { spare: v.spare + 1, asked: true, ..v },
    }
}

/// What the onlooker knows after some actions.
pub open spec fn observed(w: Watch, acts: Seq<Act>, h: Habits) -> Watch
    decreases acts.len(),
{
    if acts.len() == 0 {
        w
    } else {
        observed(observe(w, acts[0], h), acts.drop_first(), h)
    }
}

/// At first nothing has happened. The panel is known to be idle or not.
pub open spec fn first_look(dc: bool, ready: bool) -> Watch {
    Watch {
        dc,
        named: false,
        ready,
        streak: 0,
        probe: 0,
        owes: false,
        hot: false,
        image: false,
        asked: false,
        idle_reads: 0,
        spare: 0,
        sent: 0,
        rst: 0,
        spent: 0,
        asides: 0,
        gentle: true,
        probed: true,
        polite: true,
        warmed: true,
        offered: true,
    }
}

/// How many reads in a row make up the cap: the last one comes when more time than the
/// cap has been slept through, and the one before it did not. Without a poll period every
/// read counts as a microsecond.
pub open spec fn uses_up(reads: nat, delay_us: u32, cap_us: u32) -> bool {
    if delay_us == 0 {
        reads == cap_us + 1
    } else {
        (reads - 1) * delay_us <= cap_us < reads * delay_us
    }
}

/// No more reads in a row than make up the cap.
pub open spec fn within_cap(reads: nat, delay_us: u32, cap_us: u32) -> bool {
    if delay_us == 0 {
        reads <= cap_us + 1
    } else {
        (reads - 1) * delay_us <= cap_us
    }
}

// ---------------------------------------------------------------------------
// Plans under watch

spec fn wait_fits(wait: BusyWait, h: Habits) -> bool {
    wait == busy_wait(Some(h.status), h.low, h.delay_us, h.cap_us, h.asks)
}

spec fn most(h: Habits) -> nat {
    poll_limit(h.delay_us, h.cap_us->0) as nat
}

/// What the onlooker knows once a wait has gone another round and found the panel idle.
spec fn after_round(w: Watch) -> Watch {
    Watch {
        ready: true,
        streak: 0,
        probe: 0,
        asked: false,
        idle_reads: w.idle_reads + 1,
        ..w
    }
}

/// What the onlooker knows once an entry is done, however often a wait went round.
spec fn done(w: Watch, op: Op, h: Habits) -> Watch {
    let next = observe(w, Act { signal: signal(op), busy: false }, h);
    match op {
        Op::Hook(_, _) => after_round(next),
        _ => next,
    }
}

spec fn all_done(w: Watch, ops: Seq<Op>, h: Habits) -> Watch
    decreases ops.len(),
{
    if ops.len() == 0 {
        w
    } else {
        all_done(done(w, ops[0], h), ops.drop_first(), h)
    }
}

/// Whether a wait is one of the operation's, and finds its read prepared.
spec fn sound(w: Watch, op: Op, h: Habits) -> bool {
    match op {
        Op::Poll(wait, polls) => {
            &&& wait_fits(wait, h)
            &&& w.probe == 3 && !w.dc && !w.named && !w.image && !w.owes && !w.hot
            &&& h.cap_us is Some ==> polls <= most(h) && w.streak == polls
        },
        Op::Hook(wait, polls) => {
            &&& wait_fits(wait, h)
            &&& h.asks && w.owes && !w.dc && !w.named && !w.image && !w.hot && w.probe == 0
            &&& h.cap_us is Some ==> polls <= most(h) && w.streak == polls + 1
        },
        _ => true,
    }
}

spec fn all_sound(w: Watch, ops: Seq<Op>, h: Habits) -> bool
    decreases ops.len(),
{
    ops.len() == 0 || (sound(w, ops[0], h) && all_sound(
        done(w, ops[0], h),
        ops.drop_first(),
        h,
    ))
}

proof fn lemma_append(w: Watch, a: Seq<Op>, b: Seq<Op>, h: Habits)
    ensures
        all_done(w, a + b, h) == all_done(all_done(w, a, h), b, h),
        all_sound(w, a + b, h) == (all_sound(w, a, h) && all_sound(all_done(w, a, h), b, h)),
    decreases a.len(),
{
    if a.len() == 0 {
        assert(a + b =~= b);
    } else {
        assert((a + b).drop_first() =~= a.drop_first() + b);
        lemma_append(done(w, a[0], h), a.drop_first(), b, h);
    }
}

proof fn lemma_one(w: Watch, op: Op, h: Habits)
    ensures
        all_done(w, seq![op], h) == done(w, op, h),
        all_sound(w, seq![op], h) == sound(w, op, h),
{
    let none = seq![op].drop_first();
    assert(none =~= Seq::empty());
    assert(all_done(done(w, op, h), none, h) == done(w, op, h));
    assert(all_sound(done(w, op, h), none, h));
}

/// What was wrong before is wrong after, and the reset pin was not driven less.
spec fn no_better(w: Watch, end: Watch) -> bool {
    &&& end.gentle ==> w.gentle
    &&& end.probed ==> w.probed
    &&& end.polite ==> w.polite
    &&& end.warmed ==> w.warmed
    &&& end.offered ==> w.offered
    &&& w.rst <= end.rst
}

proof fn lemma_observe_no_better(w: Watch, act: Act, h: Habits)
    ensures
        no_better(w, observe(w, act, h)),
{
}

/// What was wrong once stays so.
proof fn lemma_never_better(w: Watch, ops: Seq<Op>, h: Habits)
    ensures
        no_better(w, all_done(w, ops, h)),
    decreases ops.len(),
{
    if ops.len() > 0 {
        lemma_observe_no_better(w, Act { signal: signal(ops[0]), busy: false }, h);
        lemma_never_better(done(w, ops[0], h), ops.drop_first(), h);
    }
}

/// The status query and the pause.
proof fn lemma_probe(w: Watch, wait: BusyWait, h: Habits)
    requires
        wait_fits(wait, h),
    ensures
        all_sound(w, probe_ops(wait), h),
        all_done(w, probe_ops(wait), h) == (Watch {
            dc: false,
            named: false,
            image: false,
            asked: false,
            probe: 3,
            owes: false,
            hot: false,
            polite: w.polite && !w.owes,
            warmed: w.warmed && !w.hot,
            spent: w.spent + h.delay_us,
            asides: w.asides + 2,
            ..w
        }),
{
    let write = Op::Write(seq![h.status]);
    let pause = Op::DelayUs(h.delay_us);
    let w1 = done(w, Op::Dc(false), h);
    let w2 = done(w1, write, h);
    assert(command_ops(h.status) =~= seq![Op::Dc(false)] + seq![write]);
    lemma_one(w, Op::Dc(false), h);
    lemma_one(w1, write, h);
    lemma_one(w2, pause, h);
    lemma_append(w, seq![Op::Dc(false)], seq![write], h);
    lemma_append(w, status_ops(wait), pause_ops(wait), h);
}

/// Another round of a wait leads to the same.
proof fn lemma_round(w: Watch, wait: BusyWait, polls: u32, rest: Seq<Op>, h: Habits)
    requires
        wait_fits(wait, h),
        !w.dc && !w.named && !w.image && !w.owes && !w.hot,
        h.cap_us is Some ==> polls < most(h) && w.streak == polls + 1,
        all_sound(
            after_round(w),
            rest,
            h,
        ),
    ensures
        all_sound(w, round_ops(wait, polls) + rest, h),
        all_done(w, round_ops(wait, polls) + rest, h) == all_done(
            after_round(w),
            rest,
            h,
        ),
{
    let poll = next_poll(wait, polls);
    lemma_probe(w, wait, h);
    let ready = all_done(w, probe_ops(wait), h);
    lemma_one(ready, poll, h);
    lemma_append(w, probe_ops(wait), seq![poll], h);
    lemma_append(w, round_ops(wait, polls), rest, h);
    assert(done(ready, poll, h) == after_round(w));
}

/// One step of a plan under watch.
proof fn lemma_step<E>(w: Watch, ops: Seq<Op>, h: Habits, reply: Reply<E>)
    requires
        ops.len() > 0,
        all_sound(w, ops, h),
        answers(ops[0], reply),
        h.cap_us is Some ==> w.streak <= most(h) + 1,
    ensures
        ({
            let e = observe(w, Act { signal: signal(ops[0]), busy: found_busy(reply) }, h);
            let end = all_done(w, ops, h);
            &&& h.cap_us is Some ==> e.streak <= most(h) + 1
            &&& match after(start(ops), reply) {
                State::Running(left) => all_sound(e, left, h) && all_done(e, left, h) == end,
                State::Ended(result) => {
                    &&& after(start(ops), reply) == completed::<E>() ==> e == end
                    &&& after(start(ops), reply) == timed_out::<E>() ==> h.cap_us is Some
                        && e.streak == most(h) + 1
                    &&& no_better(e, end)
                    &&& !e.owes
                },
            }
        }),
{
    let rest = ops.drop_first();
    let e = observe(w, Act { signal: signal(ops[0]), busy: found_busy(reply) }, h);
    lemma_left(ops, reply);
    lemma_never_better(done(w, ops[0], h), rest, h);
    match ops[0] {
        Op::Poll(wait, polls) => {
            if found_busy(reply) {
                if wait.cancellable {
                    let hook = Op::Hook(wait, polls);
                    lemma_one(e, hook, h);
                    lemma_append(e, seq![hook], rest, h);
                    assert(done(e, hook, h) == done(w, ops[0], h));
                } else if after(start(ops), reply) is Running {
                    assert(done(w, ops[0], h) == after_round(e));
                    lemma_round(e, wait, polls, rest, h);
                }
            }
        },
        Op::Hook(wait, polls) => {
            if after(start(ops), reply) is Running {
                assert(done(w, ops[0], h) == after_round(e));
                lemma_round(e, wait, polls, rest, h);
            }
        },
        _ => {},
    }
}

/// A plan under watch, whatever the replies.
proof fn lemma_watched<E>(w: Watch, ops: Seq<Op>, h: Habits, replies: Seq<Reply<E>>)
    requires
        all_sound(w, ops, h),
        h.cap_us is Some ==> w.streak <= most(h) + 1,
    ensures
        ({
            let e = observed(w, trace(start::<E>(ops), replies), h);
            let end = all_done(w, ops, h);
            let course = run(start::<E>(ops), replies);
            &&& course.end == completed::<E>() ==> e == end
            &&& course.end == timed_out::<E>() ==> h.cap_us is Some && e.streak == most(h) + 1
            &&& course.end is Ended && ops.len() > 0 ==> !e.owes
            &&& h.cap_us is Some ==> e.streak <= most(h) + 1
            &&& no_better(e, end)
        }),
    decreases replies.len(),
{
    lemma_never_better(w, ops, h);
    if ops.len() > 0 && replies.len() > 0 {
        let rest = replies.drop_first();
        let next = after(start(ops), replies[0]);
        let acts = trace(start::<E>(ops), replies);
        lemma_left(ops, replies[0]);
        if answers(ops[0], replies[0]) {
            lemma_step(w, ops, h, replies[0]);
            assert(acts.drop_first() =~= trace(next, rest));
            if let State::Running(left) = next {
                let e = observe(
                    w,
                    Act { signal: signal(ops[0]), busy: found_busy(replies[0]) },
                    h,
                );
                lemma_watched(e, left, h, rest);
            } else {
                assert(trace(next, rest) =~= Seq::empty());
                assert(observed(observe(w, acts[0], h), acts.drop_first(), h) == observe(
                    w,
                    acts[0],
                    h,
                ));
                assert(run(next, rest).end == next);
            }
        } else {
            lemma_watched(w, ops, h, rest);
        }
    } else {
        assert(trace(start::<E>(ops), replies) =~= Seq::empty());
    }
}

// ---------------------------------------------------------------------------
// Scripts under watch

/// What the entries of a script leave behind, while all goes well.
pub ghost struct Gauge {
    pub ready: bool,
    pub named: bool,
    pub hot: bool,
    pub image: bool,
    pub idle_reads: nat,
    pub spare: int,
    pub sent: nat,
    pub rst: nat,
    pub spent: int,
    pub asides: int,
}

/// All is well, and the onlooker knows this much.
spec fn shows(w: Watch, g: Gauge) -> bool {
    &&& w.gentle && w.probed && w.polite && w.warmed && w.offered
    &&& w.streak == 0 && !w.owes
    &&& g == (Gauge {
        ready: w.ready,
        named: w.named,
        hot: w.hot,
        image: w.image,
        idle_reads: w.idle_reads,
        spare: w.spare,
        sent: w.sent,
        rst: w.rst,
        spent: w.spent,
        asides: w.asides,
    })
}

/// How many pieces of `n` it takes.
#[verifier::opaque]
pub open spec fn pieces(len: nat, n: nat) -> nat {
    ((len + n - 1) / n as int) as nat
}

/// How many transfers it takes to send data.
pub open spec fn data_count(linux: bool, len: nat) -> nat {
    if linux {
        pieces(len, 4096)
    } else {
        1
    }
}

/// Whether data can be sent without asking the cancel hook.
pub open spec fn takes_data(g: Gauge, h: Habits) -> bool {
    g.ready && !g.hot && g.named && (h.asks ==> !g.image)
}

/// Whether all stays well in the course of an entry.
pub open spec fn block_fits(g: Gauge, block: Block, h: Habits) -> bool {
    match block {
        Block::Reset { initial_delay, duration } => !g.hot,
        Block::Command(address) => g.ready && !g.hot && address != h.status,
        Block::Data(bytes) => takes_data(g, h),
        Block::Setting(address, bytes) => {
            &&& g.ready && !g.hot && address != h.status && !keeps_busy(address)
            &&& h.asks ==> !starts_image(address)
        },
        Block::Inverted(bytes) => takes_data(g, h),
        Block::Fill(val, times) => takes_data(g, h),
        Block::Bands(bytes, invert) => g.ready && !g.hot && g.named,
        Block::DelayMs(ms) => g.hot ==> ms == 100,
        Block::Wait(wait) => !g.hot && wait == busy_wait(
            Some(h.status),
            h.low,
            h.delay_us,
            h.cap_us,
            h.asks,
        ),
        Block::CancelPoint => !g.hot,
    }
}

/// What an entry leaves behind.
pub open spec fn block_gauge(linux: bool, g: Gauge, block: Block) -> Gauge {
    match block {
        Block::Reset { initial_delay, duration } => Gauge {
            rst: g.rst + 3,
            spent: g.spent + initial_delay + duration + 200_000,
            ..g
        },
        Block::Command(address) => Gauge {
            ready: !keeps_busy(address),
            named: true,
            hot: address == 0x04,
            image: starts_image(address),
            sent: g.sent + 1,
            asides: g.asides + 1,
            ..g
        },
        Block::Data(bytes) => Gauge {
            sent: g.sent + data_count(linux, bytes.len()),
            asides: g.asides + 1,
            ..g
        },
        Block::Setting(address, bytes) => Gauge {
            named: true,
            image: starts_image(address),
            sent: g.sent + 1 + data_count(linux, bytes.len()),
            asides: g.asides + 2,
            ..g
        },
        Block::Inverted(bytes) => Gauge {
            sent: g.sent + pieces(bytes.len(), 256),
            asides: g.asides + 1,
            ..g
        },
        Block::Fill(val, times) => Gauge {
            sent: g.sent + times,
            asides: g.asides + 1,
            ..g
        },
        Block::Bands(bytes, invert) => Gauge {
            spare: g.spare + pieces(bytes.len(), 4096),
            asides: g.asides + pieces(bytes.len(), 4096),
            sent: g.sent + pieces(
                bytes.len(),
                if invert {
                    256
                } else {
                    4096
                },
            ),
            ..g
        },
        Block::DelayMs(ms) => Gauge { hot: false, spent: g.spent + 1000 * ms, ..g },
        Block::Wait(wait) => Gauge {
            ready: true,
            named: false,
            image: false,
            idle_reads: g.idle_reads + 1,
            ..g
        },
        Block::CancelPoint => Gauge { spare: g.spare + 1, ..g },
    }
}

proof fn lemma_chunk_count(s: Seq<u8>, n: nat)
    requires
        n == 256 || n == 4096,
    ensures
        chunks(s, n).len() == pieces(s.len(), n),
    decreases s.len(),
{
    reveal(pieces);
    if s.len() > n {
        lemma_chunk_count(s.skip(n as int), n);
    }
}

proof fn lemma_writes_watched(w: Watch, parts: Seq<Seq<u8>>, h: Habits)
    requires
        w.dc && w.ready && w.named && !w.owes && !w.hot && w.gentle && w.streak == 0,
        w.offered,
        w.image && h.asks ==> w.asked,
    ensures
        all_sound(w, writes(parts), h),
        all_done(w, writes(parts), h) == if parts.len() == 0 {
            w
        } else {
            Watch { sent: w.sent + parts.len(), probe: 0, ..w }
        },
    decreases parts.len(),
{
    if parts.len() > 0 {
        let rest = parts.drop_first();
        assert(writes(parts).drop_first() =~= writes(rest));
        lemma_writes_watched(done(w, Op::Write(parts[0]), h), rest, h);
    }
}

/// Data in parts, after a command.
proof fn lemma_burst_watched(w: Watch, parts: Seq<Seq<u8>>, h: Habits)
    requires
        w.ready && w.named && !w.owes && !w.hot && w.gentle && w.streak == 0,
        w.offered,
        w.image && h.asks ==> w.asked,
    ensures
        all_sound(w, burst_ops(parts), h),
        all_done(w, burst_ops(parts), h) == (Watch {
            dc: true,
            probe: 0,
            sent: w.sent + parts.len(),
            asides: w.asides + 1,
            ..w
        }),
{
    let high = Op::Dc(true);
    lemma_one(w, high, h);
    lemma_writes_watched(done(w, high, h), parts, h);
    lemma_append(w, seq![high], writes(parts), h);
}

proof fn lemma_command_watched(w: Watch, address: u8, h: Habits)
    requires
        w.ready && !w.owes && !w.hot && w.gentle && w.streak == 0,
        address != h.status,
    ensures
        all_sound(w, command_ops(address), h),
        all_done(w, command_ops(address), h) == (Watch {
            dc: false,
            named: true,
            ready: !keeps_busy(address),
            hot: address == 0x04,
            image: starts_image(address),
            asked: false,
            probe: 0,
            sent: w.sent + 1,
            asides: w.asides + 1,
            ..w
        }),
{
    let write = Op::Write(seq![address]);
    let w1 = done(w, Op::Dc(false), h);
    assert(command_ops(address) =~= seq![Op::Dc(false)] + seq![write]);
    lemma_one(w, Op::Dc(false), h);
    lemma_one(w1, write, h);
    lemma_append(w, seq![Op::Dc(false)], seq![write], h);
}

/// The transfers of a band.
spec fn band_count(band: Seq<u8>, invert: bool) -> nat {
    if invert {
        pieces(band.len(), 256)
    } else {
        1
    }
}

proof fn lemma_band_watched(w: Watch, link: Link, band: Seq<u8>, invert: bool, h: Habits)
    requires
        w.ready && w.named && !w.owes && !w.hot && w.gentle && w.streak == 0,
        w.offered,
        !link.single_byte_write,
        0 < band.len() <= 4096,
    ensures
        all_sound(w, band_ops(link, band, invert), h),
        all_done(w, band_ops(link, band, invert), h) == (Watch {
            dc: true,
            probe: 0,
            asked: true,
            spare: w.spare + 1,
            sent: w.sent + band_count(band, invert),
            asides: w.asides + 1,
            ..w
        }),
{
    let point = Op::CancelPoint;
    let w1 = done(w, point, h);
    lemma_one(w, point, h);
    lemma_chunk_count(band, 256);
    lemma_chunk_count(band, 4096);
    if invert {
        lemma_burst_watched(w1, inverted_parts(band), h);
        lemma_append(w, seq![point], inverted_ops(band), h);
    } else {
        lemma_burst_watched(w1, data_parts(link, band), h);
        lemma_append(w, seq![point], data_ops(link, band), h);
    }
}

proof fn lemma_bands_watched(w: Watch, link: Link, bytes: Seq<u8>, invert: bool, h: Habits)
    requires
        w.ready && w.named && !w.owes && !w.hot && w.gentle && w.streak == 0,
        w.offered,
        !link.single_byte_write,
        bytes.len() > 0,
    ensures
        ({
            let ops = bands_ops(link, chunks(bytes, 4096), invert);
            &&& all_sound(w, ops, h)
            &&& all_done(w, ops, h) == (Watch {
                dc: true,
                probe: 0,
                asked: true,
                spare: w.spare + pieces(bytes.len(), 4096),
                asides: w.asides + pieces(bytes.len(), 4096),
                sent: w.sent + pieces(
                    bytes.len(),
                    if invert {
                        256
                    } else {
                        4096
                    },
                ),
                ..w
            })
        }),
    decreases bytes.len(),
{
    reveal(pieces);
    let bands = chunks(bytes, 4096);
    let first = bands[0];
    let ops = bands_ops(link, bands, invert);
    lemma_band_watched(w, link, first, invert, h);
    lemma_append(
        w,
        band_ops(link, first, invert),
        bands_ops(link, bands.drop_first(), invert),
        h,
    );
    if bytes.len() > 4096 {
        let more = bytes.skip(4096);
        assert(bands.drop_first() =~= chunks(more, 4096));
        lemma_bands_watched(all_done(w, band_ops(link, first, invert), h), link, more, invert, h);
    } else {
        assert(bands.drop_first() =~= Seq::empty());
        assert(bands_ops(link, bands.drop_first(), invert) =~= Seq::empty());
        assert(ops =~= band_ops(link, first, invert));
    }
}

proof fn lemma_reset_watched(w: Watch, initial_delay: u32, duration: u32, h: Habits)
    requires
        !w.hot && !w.owes,
    ensures
        all_sound(w, reset_ops(initial_delay, duration), h),
        ({
            let e = all_done(w, reset_ops(initial_delay, duration), h);
            e == (Watch {
                rst: w.rst + 3,
                spent: w.spent + initial_delay + duration + 200_000,
                probe: 0,
                ..w
            })
        }),
{
    reveal_with_fuel(all_done, 7);
    reveal_with_fuel(all_sound, 7);
    let ops = reset_ops(initial_delay, duration);
    let a = ops.drop_first();
    let b = a.drop_first();
    let c = b.drop_first();
    let d = c.drop_first();
    let e = d.drop_first();
    assert(a[0] == ops[1] && b[0] == ops[2] && c[0] == ops[3] && d[0] == ops[4] && e[0] == ops[5]);
    assert(e.drop_first() =~= Seq::empty());
}

proof fn lemma_block_watched(w: Watch, g: Gauge, link: Link, block: Block, h: Habits)
    requires
        shows(w, g),
        block_fits(g, block, h),
        !link.single_byte_write,
    ensures
        all_sound(w, block_ops(link, block), h),
        shows(all_done(w, block_ops(link, block), h), block_gauge(link.linux, g, block)),
{
    match block {
        Block::Reset { initial_delay, duration } => {
            lemma_reset_watched(w, initial_delay, duration, h);
        },
        Block::Command(address) => {
            lemma_command_watched(w, address, h);
        },
        Block::Data(bytes) => {
            lemma_chunk_count(bytes, 4096);
            lemma_burst_watched(w, data_parts(link, bytes), h);
        },
        Block::Setting(address, bytes) => {
            lemma_chunk_count(bytes, 4096);
            lemma_command_watched(w, address, h);
            let named = all_done(w, command_ops(address), h);
            lemma_burst_watched(named, data_parts(link, bytes), h);
            lemma_append(w, command_ops(address), data_ops(link, bytes), h);
        },
        Block::Inverted(bytes) => {
            lemma_chunk_count(bytes, 256);
            lemma_burst_watched(w, inverted_parts(bytes), h);
        },
        Block::Fill(val, times) => {
            let parts = Seq::new(times, |i: int| seq![val]);
            assert(fill_ops(val, times) =~= writes(parts));
            lemma_burst_watched(w, parts, h);
        },
        Block::Bands(bytes, invert) => {
            if bytes.len() > 0 {
                lemma_bands_watched(w, link, bytes, invert, h);
            } else {
                reveal(pieces);
                assert(block_ops(link, block) =~= Seq::empty());
            }
        },
        Block::DelayMs(ms) => {
            lemma_one(w, Op::DelayMs(ms), h);
        },
        Block::Wait(wait) => {
            let poll = Op::Poll(wait, 0);
            lemma_probe(w, wait, h);
            lemma_one(all_done(w, probe_ops(wait), h), poll, h);
            lemma_append(w, probe_ops(wait), seq![poll], h);
        },
        Block::CancelPoint => {
            lemma_one(w, Op::CancelPoint, h);
        },
    }
}

/// What a script leaves behind.
pub open spec fn script_gauge(linux: bool, g: Gauge, script: Seq<Block>) -> Gauge
    decreases script.len(),
{
    if script.len() == 0 {
        g
    } else {
        block_gauge(linux, script_gauge(linux, g, script.drop_last()), script.last())
    }
}

/// Whether all stays well in the course of a script.
pub open spec fn script_fits(linux: bool, g: Gauge, script: Seq<Block>, h: Habits) -> bool
    decreases script.len(),
{
    script.len() == 0 || (script_fits(linux, g, script.drop_last(), h) && block_fits(
        script_gauge(linux, g, script.drop_last()),
        script.last(),
        h,
    ))
}

pub broadcast proof fn lemma_gauge_push(linux: bool, g: Gauge, script: Seq<Block>, block: Block)
    ensures
        #[trigger] script_gauge(linux, g, script.push(block)) == block_gauge(
            linux,
            script_gauge(linux, g, script),
            block,
        ),
{
    assert(script.push(block).drop_last() =~= script);
}

pub broadcast proof fn lemma_fits_push(
    linux: bool,
    g: Gauge,
    script: Seq<Block>,
    block: Block,
    h: Habits,
)
    ensures
        #[trigger] script_fits(linux, g, script.push(block), h) == (script_fits(
            linux,
            g,
            script,
            h,
        ) && block_fits(script_gauge(linux, g, script), block, h)),
{
    assert(script.push(block).drop_last() =~= script);
}

pub broadcast proof fn lemma_one_piece(len: nat, n: nat)
    requires
        0 < len <= n,
    ensures
        #[trigger] pieces(len, n) == 1,
{
    reveal(pieces);
    assert((len + n - 1) / n as int == 1) by (nonlinear_arith)
        requires
            0 < len <= n,
    ;
}

pub broadcast group group_watch {
    lemma_one_piece,
    lemma_gauge_push,
    lemma_fits_push,
}

/// At first nothing is behind.
pub open spec fn blank(ready: bool) -> Gauge {
    Gauge {
        ready,
        named: false,
        hot: false,
        image: false,
        idle_reads: 0,
        spare: 0,
        sent: 0,
        rst: 0,
        spent: 0,
        asides: 0,
    }
}

proof fn lemma_script_watched(w: Watch, g: Gauge, link: Link, script: Seq<Block>, h: Habits)
    requires
        shows(w, g),
        script_fits(link.linux, g, script, h),
        !link.single_byte_write,
    ensures
        all_sound(w, script_ops(link, script), h),
        shows(all_done(w, script_ops(link, script), h), script_gauge(link.linux, g, script)),
    decreases script.len(),
{
    if script.len() > 0 {
        let init = script.drop_last();
        let a = script_ops(link, init);
        lemma_script_watched(w, g, link, init, h);
        lemma_block_watched(
            all_done(w, a, h),
            script_gauge(link.linux, g, init),
            link,
            script.last(),
            h,
        );
        lemma_append(w, a, block_ops(link, script.last()), h);
    }
}

/// Whether an operation ends in no other way than it may, and an onlooker has nothing to
/// complain of, at its end or at any time before.
pub open spec fn well_conducted<E>(
    link: Link,
    script: Seq<Block>,
    h: Habits,
    dc: bool,
    ready: bool,
    replies: Seq<Reply<E>>,
) -> bool {
    let course = run(start::<E>(script_ops(link, script)), replies);
    let w = observed(
        first_look(dc, ready),
        trace(start::<E>(script_ops(link, script)), replies),
        h,
    );
    &&& w.gentle
    &&& w.probed
    &&& w.polite
    &&& w.warmed
    &&& w.offered
    &&& course.end is Ended ==> !w.owes
    &&& h.cap_us matches Some(us) ==> within_cap(w.streak, h.delay_us, us)
    &&& course.end == timed_out::<E>() ==> (h.cap_us matches Some(us) && uses_up(
        w.streak,
        h.delay_us,
        us,
    ))
    &&& undisturbed(replies) && course.end is Ended ==> course.end == completed::<E>()
        || course.end == timed_out::<E>()
}

proof fn lemma_limit(delay_us: u32, cap_us: u32, reads: nat)
    ensures
        reads <= poll_limit(delay_us, cap_us) + 1 ==> within_cap(reads, delay_us, cap_us),
        reads == poll_limit(delay_us, cap_us) + 1 ==> uses_up(reads, delay_us, cap_us),
{
    if delay_us > 0 {
        let d = delay_us as int;
        let t = cap_us as int;
        let k = poll_limit(delay_us, cap_us) as int;
        let n = reads as int;
        assert(k * d <= t && t < (k + 1) * d) by (nonlinear_arith)
            requires
                d > 0,
                t >= 0,
                k == t / d,
        ;
        if n <= k + 1 {
            assert((n - 1) * d <= k * d) by (nonlinear_arith)
                requires
                    d > 0,
                    n <= k + 1,
            ;
        }
    }
}

/// A script that fits is well conducted, whatever the replies; and once it has completed,
/// it has left behind what its entries do.
pub proof fn law_well_conducted<E>(
    link: Link,
    script: Seq<Block>,
    h: Habits,
    dc: bool,
    ready: bool,
    replies: Seq<Reply<E>>,
)
    requires
        script_fits(link.linux, blank(ready), script, h),
        !link.single_byte_write,
    ensures
        well_conducted(link, script, h, dc, ready, replies),
        ({
            let course = run(start::<E>(script_ops(link, script)), replies);
            let w = observed(
                first_look(dc, ready),
                trace(start::<E>(script_ops(link, script)), replies),
                h,
            );
            let g = script_gauge(link.linux, blank(ready), script);
            &&& w.rst <= g.rst
            &&& course.end == completed::<E>() ==> {
                &&& w.ready == g.ready
                &&& w.idle_reads == g.idle_reads
                &&& w.spare == g.spare
                &&& w.sent == g.sent
                &&& w.rst == g.rst
                &&& w.spent == g.spent
                &&& w.asides == g.asides
            }
        }),
{
    let ops = script_ops(link, script);
    let w = first_look(dc, ready);
    lemma_script_watched(w, blank(ready), link, script, h);
    lemma_watched(w, ops, h, replies);
    lemma_script_fresh(link, script);
    law_undisturbed_end(ops, replies);
    if let Some(us) = h.cap_us {
        lemma_limit(h.delay_us, us, observed(w, trace(start::<E>(ops), replies), h).streak);
    }
}

} // verus!
