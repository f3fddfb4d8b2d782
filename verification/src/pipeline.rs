//! The batch pipeline of the GPU backend. The host keeps a fixed number of
//! batches queued, so that the GPU runs one while the host waits for another.
//! What the host has to do next is decided here; it does so and reports back.

use vstd::prelude::*;
#[allow(unused_imports)]
use vstd::arithmetic::div_mod::{lemma_add_mod_noop_right, lemma_fundamental_div_mod};

#[allow(unused_imports)]
use crate::pow::accepts;
use crate::pow::check_proof;
use crate::words::join_nonce_be;
#[allow(unused_imports)]
use crate::words::{word_values, words_to_bytes};

verus! {

/// How many batches are queued at a time.
pub const PIPELINE_DEPTH: usize = 2;

/// How far apart the nonce bases of successive launches lie, modulo 2^64.
pub const NONCE_STRIDE: u64 = 0x9E37_79B9_7F4A_7C15;

/// What the host has to do next.
#[derive(Clone, Copy)]
pub enum Action {
    /// Clear the buffers of `slot` and enqueue its kernel from `nonce_base` on.
    Launch { slot: usize, nonce_base: u64 },
    /// Look at the stop signal; the batch in `slot` is the next to be read.
    PollStop { slot: usize },
    /// Wait for the batch in `slot` and read its flag.
    ReadFlag { slot: usize },
    /// Read the nonce words that the batch in `slot` reports.
    ReadNonce { slot: usize },
    /// Wait until the queue is empty; `result` is what mining ends with.
    Drain { result: Option<[u8; 32]> },
    /// Mining is over.
    Finish { result: Option<[u8; 32]> },
}

/// What the host reports back.
#[derive(Clone, Copy)]
pub enum Event {
    /// The kernel is enqueued.
    Launched,
    /// Whether the stop signal is up.
    Stop(bool),
    /// The flag that was read.
    Flag(i32),
    /// The nonce words that were read.
    Nonce([u64; 4]),
    /// The queue is empty.
    Drained,
}

/// One step of mining: what to do next, how many attempts to count, and
/// whether a reported nonce was turned down.
pub struct Step {
    pub action: Action,
    pub attempts: u64,
    pub rejected: bool,
}

/// Where mining stands.
pub struct Pipeline {
    pub challenge: [u8; 32],
    pub difficulty: [u8; 32],
    pub batch_size: usize,
    /// The nonce base of the next launch.
    pub nonce_base: u64,
    /// Not every slot has had its first launch yet.
    pub priming: bool,
    /// What the host was last asked to do.
    pub pending: Action,
}

/// `event` reports on `action`.
pub open spec fn answers(action: Action, event: Event) -> bool {
    match action {
        Action::Launch { .. } => event is Launched,
        Action::PollStop { .. } => event is Stop,
        Action::ReadFlag { .. } => event is Flag,
        Action::ReadNonce { .. } => event is Nonce,
        Action::Drain { .. } => event is Drained,
        Action::Finish { .. } => false,
    }
}

/// The slot that `action` is about.
pub open spec fn slot_of(action: Action) -> Option<usize> {
    match action {
        Action::Launch { slot, .. } => Some(slot),
        Action::PollStop { slot } => Some(slot),
        Action::ReadFlag { slot } => Some(slot),
        Action::ReadNonce { slot } => Some(slot),
        _ => None,
    }
}

/// The nonce base that follows `base`.
pub open spec fn next_base(base: u64) -> u64 {
    ((base + NONCE_STRIDE) % 0x1_0000_0000_0000_0000) as u64
}

impl Pipeline {
    /// A pipeline that a host can go on with.
    pub open spec fn valid(self) -> bool {
        &&& slot_of(self.pending) matches Some(slot) ==> slot < PIPELINE_DEPTH
        &&& self.priming ==> self.pending is Launch
    }

    /// The nonce in `words` solves the challenge.
    pub open spec fn solved_by(self, words: [u64; 4]) -> bool {
        accepts(self.challenge@, words_to_bytes(word_values(words)), self.difficulty@)
    }

    /// When the host reports `event`, `action` is what it is asked to do next.
    pub open spec fn responds(self, event: Event, action: Action) -> bool {
        let relaunch = |slot: usize| Action::Launch { slot, nonce_base: self.nonce_base };
        match (self.pending, event) {
            (Action::Launch { slot, .. }, Event::Launched) => if self.priming && slot + 1
                < PIPELINE_DEPTH {
                action == relaunch((slot + 1) as usize)
            } else {
                action == Action::PollStop { slot: ((slot + 1) % PIPELINE_DEPTH as int) as usize }
            },
            (Action::PollStop { slot }, Event::Stop(stop)) => if stop {
                action == Action::Drain { result: None }
            } else {
                action == Action::ReadFlag { slot }
            },
            (Action::ReadFlag { slot }, Event::Flag(flag)) => if flag != 0 {
                action == Action::ReadNonce { slot }
            } else {
                action == relaunch(slot)
            },
            (Action::ReadNonce { slot }, Event::Nonce(words)) => if self.solved_by(words) {
                action matches Action::Drain { result: Some(nonce) } && nonce@ == words_to_bytes(
                    word_values(words),
                )
            } else {
                action == relaunch(slot)
            },
            (Action::Drain { result }, Event::Drained) => action == Action::Finish { result },
            _ => false,
        }
    }

    /// The pipeline once `action` is asked for: a launch uses up the nonce
    /// base, and the first action that is no launch ends the priming.
    pub open spec fn asking(self, action: Action) -> Pipeline {
        Pipeline {
            pending: action,
            priming: self.priming && action is Launch,
            nonce_base: if action is Launch {
                next_base(self.nonce_base)
            } else {
                self.nonce_base
            },
            ..self
        }
    }

    /// The pipeline that mining starts with: the first slot is to be launched from `seed` on.
    pub open spec fn begins(
        self,
        challenge: [u8; 32],
        difficulty: [u8; 32],
        batch_size: usize,
        seed: u64,
    ) -> bool {
        self == Pipeline {
            challenge,
            difficulty,
            batch_size,
            nonce_base: next_base(seed),
            priming: true,
            pending: Action::Launch { slot: 0, nonce_base: seed },
        }
    }

    /// Starts mining: every slot gets its first batch, from `seed` on.
    pub fn start(challenge: &[u8; 32], difficulty: &[u8; 32], batch_size: usize, seed: u64) -> (res: Pipeline)
        ensures
            res.begins(*challenge, *difficulty, batch_size, seed),
            res.valid(),
    {
        Pipeline {
            challenge: *challenge,
            difficulty: *difficulty,
            batch_size,
            nonce_base: seed.wrapping_add(NONCE_STRIDE),
            priming: true,
            pending: Action::Launch { slot: 0, nonce_base: seed },
        }
    }

    /// Whether `event` reports on what the host was last asked to do.
    pub fn awaits(&self, event: &Event) -> (res: bool)
        ensures
            res == answers(self.pending, *event),
    {
        match (&self.pending, event) {
            (Action::Launch { .. }, Event::Launched) => true,
            (Action::PollStop { .. }, Event::Stop(_)) => true,
            (Action::ReadFlag { .. }, Event::Flag(_)) => true,
            (Action::ReadNonce { .. }, Event::Nonce(_)) => true,
            (Action::Drain { .. }, Event::Drained) => true,
            _ => false,
        }
    }

    /// Asks the host for `action`.
    fn ask(&mut self, action: Action)
        ensures
            *final(self) == old(self).asking(action),
    {
        if let Action::Launch { .. } = action {
            self.nonce_base = self.nonce_base.wrapping_add(NONCE_STRIDE);
        } else {
            self.priming = false;
        }
        self.pending = action;
    }

    /// Takes the verdict of the CPU on the nonce that the host was asked to
    /// read: an accepted nonce ends mining, any other is passed over and its
    /// slot launched anew.
    pub fn settle(&mut self, nonce: [u8; 32], accepted: bool) -> (step: Step)
        requires
            old(self).valid(),
            old(self).pending is ReadNonce,
        ensures
            final(self).valid(),
            step.action == (if accepted {
                Action::Drain { result: Some(nonce) }
            } else {
                Action::Launch {
                    slot: old(self).pending->ReadNonce_slot,
                    nonce_base: old(self).nonce_base,
                }
            }),
            *final(self) == old(self).asking(step.action),
            step.attempts == 0,
            step.rejected == !accepted,
    {
        let mut action: Action = Action::Drain { result: Some(nonce) };
        if !accepted {
            if let Action::ReadNonce { slot } = self.pending {
                action = Action::Launch { slot, nonce_base: self.nonce_base };
            }
        }
        self.ask(action);
        Step { action, attempts: 0, rejected: !accepted }
    }

    /// Takes the report on the last action and decides on the next.
    pub fn next(&mut self, event: Event) -> (step: Step)
        requires
            old(self).valid(),
            answers(old(self).pending, event),
        ensures
            final(self).valid(),
            old(self).responds(event, step.action),
            *final(self) == old(self).asking(step.action),
            step.attempts == (if event is Flag {
                old(self).batch_size as int
            } else {
                0
            }),
            step.rejected == (event matches Event::Nonce(words) && !old(self).solved_by(words)),
            event matches Event::Nonce(words) ==> {
                let nonce = words_to_bytes(word_values(words));
                if accepts(old(self).challenge@, nonce, old(self).difficulty@) {
                    !step.rejected && (step.action matches Action::Drain { result: Some(hit) } && hit@
                        == nonce)
                } else {
                    step.rejected && step.action == (Action::Launch {
                        slot: old(self).pending->ReadNonce_slot,
                        nonce_base: old(self).nonce_base,
                    })
                }
            },
            !(event is Nonce) ==> !step.rejected,
    {
        let mut attempts: u64 = 0;
        let base: u64 = self.nonce_base;
        let action: Action = match (self.pending, event) {
            (Action::Launch { slot, .. }, Event::Launched) => {
                if self.priming && slot + 1 < PIPELINE_DEPTH {
                    Action::Launch { slot: slot + 1, nonce_base: base }
                } else {
                    Action::PollStop { slot: (slot + 1) % PIPELINE_DEPTH }
                }
            },
            (Action::PollStop { slot }, Event::Stop(stop)) => {
                if stop {
                    Action::Drain { result: None }
                } else {
                    Action::ReadFlag { slot }
                }
            },
            (Action::ReadFlag { slot }, Event::Flag(flag)) => {
                attempts = self.batch_size as u64;
                if flag != 0 {
                    Action::ReadNonce { slot }
                } else {
                    Action::Launch { slot, nonce_base: base }
                }
            },
            (Action::ReadNonce { .. }, Event::Nonce(words)) => {
                let nonce: [u8; 32] = join_nonce_be(&words);
                let accepted: bool = check_proof(&self.challenge, &nonce, &self.difficulty);
                return self.settle(nonce, accepted);
            },
            (Action::Drain { result }, Event::Drained) => Action::Finish { result },
            (pending, _) => pending,
        };
        self.ask(action);
        Step { action, attempts, rejected: false }
    }
}

/// The nonce base of launch number `k`, counted from zero, when mining starts from `seed`.
pub open spec fn launch_base(seed: u64, k: int) -> int {
    (seed + k * NONCE_STRIDE) % 0x1_0000_0000_0000_0000
}

/// The states that mining goes through: it starts at `seed`, and the host
/// answers each action in turn, with `events`.
pub open spec fn is_run(run: Seq<Pipeline>, events: Seq<Event>, seed: u64) -> bool {
    &&& run.len() == events.len() + 1
    &&& run[0].begins(run[0].challenge, run[0].difficulty, run[0].batch_size, seed)
    &&& forall|i: int|
        0 <= i < events.len() ==> {
            &&& #[trigger] run[i].responds(events[i], run[i + 1].pending)
            &&& run[i + 1] == run[i].asking(run[i + 1].pending)
        }
}

/// How many batches have been launched in a run.
pub open spec fn launched(run: Seq<Pipeline>) -> nat
    decreases run.len(),
{
    if run.len() == 0 {
        0
    } else {
        launched(run.drop_last()) + if run.last().pending is Launch {
            1nat
        } else {
            0nat
        }
    }
}

/// How many batches the host has waited for in a run.
pub open spec fn awaited(run: Seq<Pipeline>) -> nat
    decreases run.len(),
{
    if run.len() == 0 {
        0
    } else {
        awaited(run.drop_last()) + if run.last().pending is ReadFlag {
            1nat
        } else {
            0nat
        }
    }
}

/// `launch_base`, kept from the solver's view.
#[verifier::opaque]
spec fn base_at(seed: u64, k: int) -> int {
    launch_base(seed, k)
}

/// What holds of a state that mining reaches with `l` batches launched and
/// `r` of them waited for.
spec fn reached(state: Pipeline, seed: u64, l: int, r: int) -> bool {
    &&& state.nonce_base == base_at(seed, l)
    &&& state.priming ==> {
        &&& state.pending is Launch
        &&& l <= PIPELINE_DEPTH
        &&& r == 0
    }
    &&& match state.pending {
        Action::Launch { slot, nonce_base } => {
            &&& l >= 1
            &&& slot == (l - 1) % PIPELINE_DEPTH as int
            &&& nonce_base == base_at(seed, l - 1)
            &&& !state.priming ==> l == r + PIPELINE_DEPTH
        },
        Action::PollStop { slot } => {
            &&& slot == r % PIPELINE_DEPTH as int
            &&& l == r + PIPELINE_DEPTH
        },
        Action::ReadFlag { slot } | Action::ReadNonce { slot } => {
            &&& r >= 1
            &&& slot == (r - 1) % PIPELINE_DEPTH as int
            &&& l == r - 1 + PIPELINE_DEPTH
        },
        Action::Drain { result } | Action::Finish { result } => result matches Some(nonce)
            ==> accepts(state.challenge@, nonce@, state.difficulty@),
    }
}

/// Each step keeps to what holds of the states that mining reaches.
proof fn lemma_step(before: Pipeline, event: Event, after: Pipeline, seed: u64, l: int, r: int)
    requires
        l >= 0,
        r >= 0,
        reached(before, seed, l, r),
        before.responds(event, after.pending),
        after == before.asking(after.pending),
    ensures
        reached(
            after,
            seed,
            if after.pending is Launch {
                l + 1
            } else {
                l
            },
            if after.pending is ReadFlag {
                r + 1
            } else {
                r
            },
        ),
{
    lemma_base_step(seed, l, before.nonce_base);
}

proof fn lemma_base_step(seed: u64, k: int, base: u64)
    requires
        k >= 0,
        base == base_at(seed, k),
    ensures
        next_base(base) == base_at(seed, k + 1),
{
    reveal(base_at);
    let m = 0x1_0000_0000_0000_0000int;
    let g = NONCE_STRIDE as int;
    assert((k + 1) * g == k * g + g) by (nonlinear_arith);
    lemma_add_mod_noop_right(g, seed + k * g, m);
}

/// A run without its last step is a run.
proof fn lemma_shorter_run(run: Seq<Pipeline>, events: Seq<Event>, seed: u64)
    requires
        is_run(run, events, seed),
        run.len() > 1,
    ensures
        is_run(run.drop_last(), events.drop_last(), seed),
{
    let before = run.drop_last();
    assert forall|i: int| 0 <= i < events.drop_last().len() implies {
        &&& #[trigger] before[i].responds(events.drop_last()[i], before[i + 1].pending)
        &&& before[i + 1] == before[i].asking(before[i + 1].pending)
    } by {
        assert(run[i].responds(events[i], run[i + 1].pending));
    }
}

proof fn lemma_run(run: Seq<Pipeline>, events: Seq<Event>, seed: u64)
    requires
        is_run(run, events, seed),
    ensures
        reached(run.last(), seed, launched(run) as int, awaited(run) as int),
        run.last().challenge == run[0].challenge,
        run.last().difficulty == run[0].difficulty,
    decreases run.len(),
{
    let before = run.drop_last();
    if run.len() == 1 {
        assert(launched(before) == 0);
        assert(awaited(before) == 0);
        assert(base_at(seed, 0) == seed) by {
            reveal(base_at);
        }
        lemma_base_step(seed, 0, seed);
    } else {
        let n = run.len() - 2;
        lemma_shorter_run(run, events, seed);
        lemma_run(before, events.drop_last(), seed);
        assert(run[n].responds(events[n], run[n + 1].pending));
        assert(before.last() == run[n]);
        lemma_step(
            run[n],
            events[n],
            run[n + 1],
            seed,
            launched(before) as int,
            awaited(before) as int,
        );
    }
}

/// Launch number `k`, counted from zero, goes to slot `k` modulo the depth,
/// from the nonce base `k` strides after the seed.
pub proof fn law_launch_order(run: Seq<Pipeline>, events: Seq<Event>, seed: u64)
    requires
        is_run(run, events, seed),
    ensures
        run.last().pending matches Action::Launch { slot, nonce_base } ==> {
            let k = launched(run) - 1;
            slot == k % PIPELINE_DEPTH as int && nonce_base == launch_base(seed, k)
        },
{
    reveal(base_at);
    lemma_run(run, events, seed);
}

/// The pipeline stays full: whenever the host looks at the stop signal, the
/// full depth of batches is queued; when it waits for a batch, that batch is
/// the oldest and the full depth, it included, is queued.
pub proof fn law_pipeline_stays_full(run: Seq<Pipeline>, events: Seq<Event>, seed: u64)
    requires
        is_run(run, events, seed),
    ensures
        run.last().pending is PollStop ==> launched(run) - awaited(run) == PIPELINE_DEPTH,
        run.last().pending matches Action::ReadFlag { slot } ==> {
            let k = awaited(run) - 1;
            slot == k % PIPELINE_DEPTH as int && launched(run) - k == PIPELINE_DEPTH
        },
{
    lemma_run(run, events, seed);
}

/// How many flags the host has reported.
pub open spec fn flags(events: Seq<Event>) -> nat
    decreases events.len(),
{
    if events.len() == 0 {
        0
    } else {
        flags(events.drop_last()) + if events.last() is Flag {
            1nat
        } else {
            0nat
        }
    }
}

/// Attempts are counted once for each batch that was waited for: the reports
/// that count are as many as the batches awaited, but for one still awaited.
pub proof fn law_every_batch_is_counted_once(run: Seq<Pipeline>, events: Seq<Event>, seed: u64)
    requires
        is_run(run, events, seed),
    ensures
        awaited(run) == flags(events) + if run.last().pending is ReadFlag {
            1int
        } else {
            0int
        },
    decreases run.len(),
{
    reveal_with_fuel(awaited, 2);
    if run.len() > 1 {
        let n = run.len() - 2;
        lemma_shorter_run(run, events, seed);
        law_every_batch_is_counted_once(run.drop_last(), events.drop_last(), seed);
        assert(run[n].responds(events[n], run[n + 1].pending));
    }
}

/// Mining ends only once the queue has been drained, and only with a nonce
/// that solves the challenge, or with none.
pub proof fn law_mining_ends_drained_and_solved(run: Seq<Pipeline>, events: Seq<Event>, seed: u64)
    requires
        is_run(run, events, seed),
    ensures
        run.last().pending matches Action::Finish { result } ==> {
            &&& run.len() >= 2
            &&& run[run.len() - 2].pending == Action::Drain { result }
            &&& events.last() is Drained
            &&& result matches Some(nonce) ==> accepts(
                run[0].challenge@,
                nonce@,
                run[0].difficulty@,
            )
        },
{
    lemma_run(run, events, seed);
    if run.len() >= 2 {
        let n = run.len() - 2;
        assert(run[n].responds(events[n], run[n + 1].pending));
    }
}

/// Mining ends without a solution only because the stop signal was up.
pub proof fn law_mining_gives_up_only_when_stopped(run: Seq<Pipeline>, events: Seq<Event>, seed: u64)
    requires
        is_run(run, events, seed),
        run.last().pending == (Action::Finish { result: None }),
    ensures
        events.len() >= 2,
        events[events.len() - 2] == Event::Stop(true),
{
    lemma_run(run, events, seed);
    let n = run.len() - 2;
    assert(run[n].responds(events[n], run[n + 1].pending));
    let k = n - 1;
    assert(run[k].responds(events[k], run[k + 1].pending));
}

/// No two launches start from the same nonce base, until 2^64 of them have been made.
pub proof fn law_nonce_bases_do_not_repeat(seed: u64, i: int, j: int)
    requires
        0 <= i < j < i + 0x1_0000_0000_0000_0000,
    ensures
        launch_base(seed, i) != launch_base(seed, j),
{
    lemma_strides_differ(
        seed as int,
        i,
        j,
        NONCE_STRIDE as int,
        0x1_0000_0000_0000_0000,
        0xF1DE_83E1_9937_733D,
        0x957B_BF35_006E_D677int,
    );
}

/// Strides of `g` modulo `m` do not repeat within `m` of them when `g` has an inverse.
proof fn lemma_strides_differ(seed: int, i: int, j: int, g: int, m: int, inverse: int, p: int)
    requires
        m > 0,
        g * inverse == m * p + 1,
        0 < j - i < m,
    ensures
        (seed + i * g) % m != (seed + j * g) % m,
{
    let a = seed + i * g;
    let b = seed + j * g;
    let d = j - i;
    if a % m == b % m {
        assert(b - a == d * g) by (nonlinear_arith)
            requires
                a == seed + i * g,
                b == seed + j * g,
                d == j - i,
        ;
        lemma_fundamental_div_mod(a, m);
        lemma_fundamental_div_mod(b, m);
        let q = b / m - a / m;
        assert(d * g == m * q) by (nonlinear_arith)
            requires
                b - a == d * g,
                a == m * (a / m) + a % m,
                b == m * (b / m) + b % m,
                a % m == b % m,
                q == b / m - a / m,
        ;
        let r = q * inverse - d * p;
        assert(d == m * r) by (nonlinear_arith)
            requires
                d * g == m * q,
                g * inverse == m * p + 1,
                r == q * inverse - d * p,
        ;
        assert(!(0 < m * r < m)) by (nonlinear_arith)
            requires
                m > 0,
        ;
    }
}

/// A host can go on with any pipeline whose pending action, if it is about a
/// slot, is about one of the two, and which primes only while it launches.
pub proof fn law_pipelines_to_go_on_with(pipeline: Pipeline)
    ensures
        pipeline.valid() <==> (pipeline.priming ==> pipeline.pending is Launch) && match pipeline.pending {
            Action::Launch { slot, .. } => slot == 0 || slot == 1,
            Action::PollStop { slot } => slot == 0 || slot == 1,
            Action::ReadFlag { slot } => slot == 0 || slot == 1,
            Action::ReadNonce { slot } => slot == 0 || slot == 1,
            Action::Drain { .. } | Action::Finish { .. } => true,
        },
{
}

/// Each action has its own kind of report, which may hold anything; only the
/// end of mining has none.
pub proof fn law_each_action_has_its_report(action: Action, event: Event)
    ensures
        action is Launch ==> (answers(action, event) <==> event is Launched),
        action is PollStop ==> (answers(action, event) <==> event is Stop),
        action is ReadFlag ==> (answers(action, event) <==> event is Flag),
        action is ReadNonce ==> (answers(action, event) <==> event is Nonce),
        action is Drain ==> (answers(action, event) <==> event is Drained),
        action is Finish ==> !answers(action, event),
{
}

/// Mining starts with the first slot and the seed; the next launch is a stride further on.
pub proof fn law_mining_starts_at_the_seed(
    pipeline: Pipeline,
    challenge: [u8; 32],
    difficulty: [u8; 32],
    batch_size: usize,
    seed: u64,
)
    requires
        pipeline.begins(challenge, difficulty, batch_size, seed),
    ensures
        pipeline.challenge == challenge,
        pipeline.difficulty == difficulty,
        pipeline.batch_size == batch_size,
        pipeline.pending == (Action::Launch { slot: 0, nonce_base: seed }),
        pipeline.priming,
        pipeline.nonce_base == (seed + 0x9E37_79B9_7F4A_7C15) % 0x1_0000_0000_0000_0000,
{
}

/// Whatever the host is asked for, what is mined for stays as it is, and the
/// nonce base moves on by a stride with each launch and with nothing else.
pub proof fn law_only_launches_use_up_nonce_bases(pipeline: Pipeline, action: Action)
    ensures
        pipeline.asking(action).pending == action,
        pipeline.asking(action).challenge == pipeline.challenge,
        pipeline.asking(action).difficulty == pipeline.difficulty,
        pipeline.asking(action).batch_size == pipeline.batch_size,
        action is Launch ==> pipeline.asking(action).nonce_base == (pipeline.nonce_base
            + 0x9E37_79B9_7F4A_7C15) % 0x1_0000_0000_0000_0000,
        !(action is Launch) ==> pipeline.asking(action).nonce_base == pipeline.nonce_base,
        action is Launch ==> pipeline.asking(action).priming == pipeline.priming,
        !(action is Launch) ==> !pipeline.asking(action).priming,
{
}

/// After the first launch of the first slot comes that of the second, from the
/// next nonce base; after any other launch the other slot has its turn, once
/// the stop signal has been looked at.
pub proof fn law_launches_alternate(pipeline: Pipeline, slot: usize, nonce_base: u64, action: Action)
    requires
        slot == 0 || slot == 1,
        pipeline.pending == (Action::Launch { slot, nonce_base }),
        pipeline.responds(Event::Launched, action),
    ensures
        pipeline.priming && slot == 0 ==> action == (Action::Launch {
            slot: 1,
            nonce_base: pipeline.nonce_base,
        }),
        !pipeline.priming && slot == 0 ==> action == (Action::PollStop { slot: 1 }),
        slot == 1 ==> action == (Action::PollStop { slot: 0 }),
{
}

/// The stop signal ends mining without a nonce; without it the batch is waited for.
pub proof fn law_stop_signal_ends_mining(pipeline: Pipeline, slot: usize, stop: bool, action: Action)
    requires
        pipeline.pending == (Action::PollStop { slot }),
        pipeline.responds(Event::Stop(stop), action),
    ensures
        stop ==> action == (Action::Drain { result: None }),
        !stop ==> action == (Action::ReadFlag { slot }),
{
}

/// A batch whose flag is up is asked for its nonce; the slot of any other is
/// launched anew, from the next nonce base.
pub proof fn law_raised_flag_is_followed_up(pipeline: Pipeline, slot: usize, flag: i32, action: Action)
    requires
        pipeline.pending == (Action::ReadFlag { slot }),
        pipeline.responds(Event::Flag(flag), action),
    ensures
        flag != 0 ==> action == (Action::ReadNonce { slot }),
        flag == 0 ==> action == (Action::Launch { slot, nonce_base: pipeline.nonce_base }),
{
}

/// A reported nonce that solves the challenge ends mining, whichever slot
/// reports it, and mining ends with exactly that nonce. Any other is passed
/// over, and the slot that reported it is launched anew.
pub proof fn law_reported_solution_ends_mining(
    pipeline: Pipeline,
    slot: usize,
    words: [u64; 4],
    action: Action,
)
    requires
        pipeline.pending == (Action::ReadNonce { slot }),
        pipeline.responds(Event::Nonce(words), action),
    ensures
        pipeline.solved_by(words) <==> accepts(
            pipeline.challenge@,
            words_to_bytes(word_values(words)),
            pipeline.difficulty@,
        ),
        accepts(pipeline.challenge@, words_to_bytes(word_values(words)), pipeline.difficulty@) ==> (
        action matches Action::Drain { result: Some(nonce) } && nonce@ == words_to_bytes(
            word_values(words),
        )),
        !accepts(pipeline.challenge@, words_to_bytes(word_values(words)), pipeline.difficulty@) ==> action
            == (Action::Launch { slot, nonce_base: pipeline.nonce_base }),
{
}

/// Once the queue is empty, mining ends with what it was drained for.
pub proof fn law_drained_queue_ends_mining(pipeline: Pipeline, result: Option<[u8; 32]>, action: Action)
    requires
        pipeline.pending == (Action::Drain { result }),
        pipeline.responds(Event::Drained, action),
    ensures
        action == (Action::Finish { result }),
{
}

/// The first reported solution of a run is what the run ends with: the queue
/// is drained, then mining is over, and the result is that nonce.
pub proof fn law_run_ends_with_the_reported_solution(
    run: Seq<Pipeline>,
    events: Seq<Event>,
    seed: u64,
    i: int,
    words: [u64; 4],
)
    requires
        is_run(run, events, seed),
        0 <= i < events.len(),
        events[i] == Event::Nonce(words),
        accepts(run[0].challenge@, words_to_bytes(word_values(words)), run[0].difficulty@),
    ensures
        run.len() <= i + 3,
        run[i + 1].pending matches Action::Drain { result: Some(nonce) } && nonce@ == words_to_bytes(
            word_values(words),
        ),
        i + 2 < run.len() ==> run[i + 2].pending == (Action::Finish {
            result: run[i + 1].pending->Drain_result,
        }),
{
    lemma_prefix_run(run, events, seed, i);
    lemma_run(run.take(i + 1), events.take(i), seed);
    assert(run.take(i + 1).last() == run[i]);
    assert(run[i].responds(events[i], run[i + 1].pending));
    let k = i + 1;
    let l = i + 2;
    if k < events.len() {
        assert(run[k].responds(events[k], run[k + 1].pending));
    }
    if l < events.len() {
        assert(run[l].responds(events[l], run[l + 1].pending));
    }
}

/// The beginning of a run is a run.
proof fn lemma_prefix_run(run: Seq<Pipeline>, events: Seq<Event>, seed: u64, n: int)
    requires
        is_run(run, events, seed),
        0 <= n <= events.len(),
    ensures
        is_run(run.take(n + 1), events.take(n), seed),
{
    let before = run.take(n + 1);
    assert forall|i: int| 0 <= i < events.take(n).len() implies {
        &&& #[trigger] before[i].responds(events.take(n)[i], before[i + 1].pending)
        &&& before[i + 1] == before[i].asking(before[i + 1].pending)
    } by {
        assert(run[i].responds(events[i], run[i + 1].pending));
    }
}

} // verus!
