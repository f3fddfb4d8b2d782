//! CPU mining: workers that share one random start. Of `threads` workers the
//! one numbered `tid` starts `tid` nonces after it and goes on by `threads`
//! nonces at a time, so that no two of them try the same nonce.

use vstd::prelude::*;
#[allow(unused_imports)]
use vstd::arithmetic::div_mod::{lemma_fundamental_div_mod, lemma_mod_multiples_vanish, lemma_small_mod};
use rand::RngCore;

#[allow(unused_imports)]
use crate::bytes::{le_value, pow256};
use crate::nonce::advance;
#[allow(unused_imports)]
use crate::nonce::{
    law_every_nonce_is_reached, law_nonces_do_not_repeat, law_steps_add_up, lemma_nonce_at_value, nonce_at,
};
#[allow(unused_imports)]
use crate::pow::{accepts, keccak_digest, law_first_differing_byte_decides};
use crate::pow::check_proof;

verus! {

/// How many nonces a worker tries before it reports them.
pub const BATCH_SIZE: u64 = 100_000;

/// How many nonces a worker tries between two looks at the stop signal.
pub const ATTEMPTS_PER_TURN: u64 = 1;

/// The number of logical CPUs, from `num_cpus::get`. Nothing is claimed of it:
/// it rests on the machine.
#[verifier::external_body]
fn cpus() -> (count: usize) {
    num_cpus::get()
}

/// Thirty-two bytes filled by `fill_bytes` of `rand::thread_rng`. Nothing is
/// claimed of them: they rest on chance.
#[verifier::external_body]
fn random_nonce() -> (nonce: [u8; 32]) {
    let mut nonce = [0u8; 32];
    rand::thread_rng().fill_bytes(&mut nonce);
    nonce
}

/// How many workers run on a machine with `cpus` CPUs: as many as were asked
/// for, else one for each CPU but one; always at least one.
pub open spec fn workers_for(requested: Option<usize>, cpus: usize) -> int {
    let wanted = match requested {
        Some(count) => count as int,
        None => cpus - 1,
    };
    if wanted < 1 {
        1
    } else {
        wanted
    }
}

/// The number of workers for `requested` workers on `cpus` CPUs.
pub fn worker_count(requested: Option<usize>, cpus: usize) -> (count: usize)
    ensures
        count == workers_for(requested, cpus),
{
    let wanted: usize = match requested {
        Some(count) => count,
        None => cpus.saturating_sub(1),
    };
    if wanted < 1 {
        1
    } else {
        wanted
    }
}

/// The number of workers for `requested` workers on this machine.
pub fn machine_worker_count(requested: Option<usize>) -> (count: usize)
    ensures
        exists|cpus: usize| count == #[trigger] workers_for(requested, cpus),
{
    let cpus: usize = cpus();
    worker_count(requested, cpus)
}

/// The nonce that a worker of `threads` tries after `k` others, when it starts from `start`.
pub open spec fn try_at(start: Seq<u8>, threads: nat, k: nat) -> Seq<u8> {
    nonce_at(start, k * threads)
}

/// The first of the `count` nonces tried from `start` on that solves the
/// challenge is number `k`, counted from zero.
pub open spec fn first_hit(
    challenge: Seq<u8>,
    difficulty: Seq<u8>,
    start: Seq<u8>,
    threads: nat,
    count: nat,
    k: nat,
) -> bool {
    &&& k < count
    &&& accepts(challenge, try_at(start, threads, k), difficulty)
    &&& no_hit(challenge, difficulty, start, threads, k)
}

/// None of the `count` nonces tried from `start` on solves the challenge.
pub open spec fn no_hit(
    challenge: Seq<u8>,
    difficulty: Seq<u8>,
    start: Seq<u8>,
    threads: nat,
    count: nat,
) -> bool {
    forall|j: nat|
        j < count ==> !accepts(challenge, #[trigger] try_at(start, threads, j), difficulty)
}

/// A worker's tries add up: `j` tries on from try number `k` is try number `k + j`.
pub proof fn law_tries_add_up(start: Seq<u8>, threads: nat, k: nat, j: nat)
    ensures
        try_at(start, threads, 0) == start,
        try_at(start, threads, 1) == nonce_at(start, threads),
        try_at(try_at(start, threads, k), threads, j) == try_at(start, threads, k + j),
{
    assert(0 * threads == 0);
    assert(1 * threads == threads);
    assert((k + j) * threads == k * threads + j * threads) by (nonlinear_arith);
    law_steps_add_up(start, k * threads, j * threads);
}

/// Tries `count` nonces from `nonce` on, `threads` apart, and returns the
/// first that solves the challenge. Leaves `nonce` at that solution or,
/// without one, at the nonce to be tried next.
pub fn mine_batch(
    challenge: &[u8; 32],
    difficulty: &[u8; 32],
    nonce: &mut [u8; 32],
    threads: u64,
    count: u64,
) -> (found: Option<[u8; 32]>)
    ensures
        match found {
            Some(hit) => exists|k: nat| #[trigger]
                first_hit(challenge@, difficulty@, old(nonce)@, threads as nat, count as nat, k)
                    && hit@ == try_at(old(nonce)@, threads as nat, k) && final(nonce)@ == hit@,
            None => no_hit(challenge@, difficulty@, old(nonce)@, threads as nat, count as nat)
                && final(nonce)@ == try_at(old(nonce)@, threads as nat, count as nat),
        },
        found matches Some(hit) ==> accepts(challenge@, hit@, difficulty@),
{
    let ghost start = nonce@;
    let mut tried: u64 = 0;
    proof {
        law_tries_add_up(start, threads as nat, 0, 0);
    }
    while tried < count
        invariant
            tried <= count,
            start == old(nonce)@,
            nonce@ == try_at(start, threads as nat, tried as nat),
            no_hit(challenge@, difficulty@, start, threads as nat, tried as nat),
        decreases count - tried,
    {
        if check_proof(challenge, nonce, difficulty) {
            assert(first_hit(
                challenge@,
                difficulty@,
                start,
                threads as nat,
                count as nat,
                tried as nat,
            ));
            return Some(*nonce);
        }
        advance(nonce, threads);
        proof {
            law_tries_add_up(start, threads as nat, tried as nat, 1);
            law_tries_add_up(try_at(start, threads as nat, tried as nat), threads as nat, 0, 0);
        }
        tried = tried + 1;
    }
    None
}

/// What came of one turn of a worker.
pub enum Turn {
    /// The stop signal was up; nothing was tried.
    Stopped,
    /// The nonce solves the challenge.
    Found([u8; 32]),
    /// A nonce was tried and does not solve the challenge. `hashes` are to be
    /// counted: a whole batch when this nonce completes one, else none.
    Tried { hashes: u64 },
}

/// A worker: what it mines for, the nonce that it tries next, how many workers
/// share the search, and how many nonces of the current batch it has tried.
pub struct Worker {
    pub challenge: [u8; 32],
    pub difficulty: [u8; 32],
    pub nonce: [u8; 32],
    pub threads: u64,
    pub tried: u64,
}

impl Worker {
    /// A batch is not full: a full one is reported and a new one begun.
    pub open spec fn valid(self) -> bool {
        self.tried < BATCH_SIZE
    }

    /// The nonce to be tried next solves the challenge.
    pub open spec fn at_solution(self) -> bool {
        accepts(self.challenge@, self.nonce@, self.difficulty@)
    }

    /// The hashes to be counted when the next nonce is no solution.
    pub open spec fn hashes_due(self) -> u64 {
        if self.tried + 1 == BATCH_SIZE {
            BATCH_SIZE
        } else {
            0
        }
    }

    /// `after` is this worker once it has tried a nonce that is no solution.
    pub open spec fn goes_on_as(self, after: Worker) -> bool {
        &&& !self.at_solution()
        &&& after.challenge == self.challenge
        &&& after.difficulty == self.difficulty
        &&& after.threads == self.threads
        &&& after.nonce@ == nonce_at(self.nonce@, self.threads as nat)
        &&& after.tried == (self.tried + 1) % BATCH_SIZE as int
    }

    /// This worker is the one numbered `tid` of `threads` that share `start`, and has tried nothing.
    pub open spec fn is_fresh(
        self,
        challenge: [u8; 32],
        difficulty: [u8; 32],
        start: Seq<u8>,
        tid: nat,
        threads: nat,
    ) -> bool {
        &&& self.challenge == challenge
        &&& self.difficulty == difficulty
        &&& self.nonce@ == nonce_at(start, tid)
        &&& self.threads == threads
        &&& self.tried == 0
    }

    /// The worker numbered `tid` of `threads` that share `start`.
    pub fn for_thread(
        challenge: &[u8; 32],
        difficulty: &[u8; 32],
        start: &[u8; 32],
        tid: u64,
        threads: u64,
    ) -> (worker: Worker)
        requires
            tid < threads,
        ensures
            worker.valid(),
            worker.challenge == *challenge,
            worker.difficulty == *difficulty,
            worker.nonce@ == nonce_at(start@, tid as nat),
            worker.threads == threads,
            worker.tried == 0,
    {
        let mut nonce: [u8; 32] = *start;
        advance(&mut nonce, tid);
        Worker { challenge: *challenge, difficulty: *difficulty, nonce, threads, tried: 0 }
    }

    /// Takes one turn: tries the next nonce, unless `stop` is set.
    pub fn turn(&mut self, stop: bool) -> (turn: Turn)
        requires
            old(self).valid(),
        ensures
            final(self).valid(),
            match turn {
                Turn::Stopped => stop && *final(self) == *old(self),
                Turn::Found(hit) => !stop && old(self).at_solution() && hit == old(self).nonce
                    && *final(self) == *old(self),
                Turn::Tried { hashes } => !stop && old(self).goes_on_as(*final(self)) && hashes
                    == old(self).hashes_due(),
            },
            turn is Stopped <==> stop,
            turn matches Turn::Found(hit) ==> hit@ == old(self).nonce@ && accepts(
                old(self).challenge@,
                hit@,
                old(self).difficulty@,
            ),
            turn is Tried ==> !accepts(old(self).challenge@, old(self).nonce@, old(self).difficulty@),
            turn matches Turn::Tried { hashes } ==> {
                &&& final(self).challenge@ == old(self).challenge@
                &&& final(self).difficulty@ == old(self).difficulty@
                &&& final(self).threads == old(self).threads
                &&& final(self).nonce@ == nonce_at(old(self).nonce@, old(self).threads as nat)
                &&& hashes + final(self).tried == old(self).tried + 1
                &&& hashes == 0 || hashes == 100_000
            },
    {
        if stop {
            return Turn::Stopped;
        }
        let mut next: [u8; 32] = self.nonce;
        let found: Option<[u8; 32]> = mine_batch(
            &self.challenge,
            &self.difficulty,
            &mut next,
            self.threads,
            ATTEMPTS_PER_TURN,
        );
        proof {
            law_tries_add_up(self.nonce@, self.threads as nat, 0, 0);
            assert(found is None ==> !accepts(
                self.challenge@,
                try_at(self.nonce@, self.threads as nat, 0),
                self.difficulty@,
            ));
        }
        if found.is_some() {
            return Turn::Found(self.nonce);
        }
        self.nonce = next;
        self.tried = self.tried + 1;
        if self.tried == BATCH_SIZE {
            self.tried = 0;
            Turn::Tried { hashes: BATCH_SIZE }
        } else {
            Turn::Tried { hashes: 0 }
        }
    }
}

/// The workers that share `start`, one for each of `threads` threads.
pub fn crew_from(
    challenge: &[u8; 32],
    difficulty: &[u8; 32],
    start: &[u8; 32],
    threads: usize,
) -> (crew: Vec<Worker>)
    ensures
        is_crew(crew@, *challenge, *difficulty, start@, threads as nat),
{
    let mut crew: Vec<Worker> = Vec::new();
    let mut tid: usize = 0;
    while tid < threads
        invariant
            tid <= threads,
            crew@.len() == tid,
            forall|i: int|
                0 <= i < tid ==> (#[trigger] crew@[i]).is_fresh(
                    *challenge,
                    *difficulty,
                    start@,
                    i as nat,
                    threads as nat,
                ),
        decreases threads - tid,
    {
        crew.push(Worker::for_thread(challenge, difficulty, start, tid as u64, threads as u64));
        tid = tid + 1;
    }
    crew
}

/// `crew` holds the workers of `threads` threads that share `start`, in order.
pub open spec fn is_crew(
    crew: Seq<Worker>,
    challenge: [u8; 32],
    difficulty: [u8; 32],
    start: Seq<u8>,
    threads: nat,
) -> bool {
    &&& crew.len() == threads
    &&& forall|tid: int|
        0 <= tid < threads ==> (#[trigger] crew[tid]).is_fresh(
            challenge,
            difficulty,
            start,
            tid as nat,
            threads,
        )
}

/// The workers for `threads` threads, from a start drawn at random once for all of them.
pub fn crew(challenge: &[u8; 32], difficulty: &[u8; 32], threads: usize) -> (crew: Vec<Worker>)
    ensures
        exists|start: [u8; 32]| #[trigger]
            is_crew(crew@, *challenge, *difficulty, start@, threads as nat),
{
    let start: [u8; 32] = random_nonce();
    crew_from(challenge, difficulty, &start, threads)
}

/// No two threads try the same nonce: the tries of different threads that
/// share a start differ, as long as neither has gone round all nonces.
pub proof fn law_threads_do_not_overlap(start: Seq<u8>, threads: nat, a: nat, b: nat, i: nat, j: nat)
    requires
        a < threads,
        b < threads,
        a != b,
        a + i * threads < pow256(start.len()),
        b + j * threads < pow256(start.len()),
    ensures
        nonce_at(start, a + i * threads) != nonce_at(start, b + j * threads),
{
    let u = a + i * threads;
    let v = b + j * threads;
    assert(u != v) by {
        lemma_mod_multiples_vanish(i as int, a as int, threads as int);
        lemma_mod_multiples_vanish(j as int, b as int, threads as int);
        lemma_small_mod(a, threads);
        lemma_small_mod(b, threads);
        assert(threads * i + a == u) by (nonlinear_arith)
            requires
                u == a + i * threads,
        ;
        assert(threads * j + b == v) by (nonlinear_arith)
            requires
                v == b + j * threads,
        ;
    }
    if u < v {
        law_nonces_do_not_repeat(start, u, v);
    } else {
        law_nonces_do_not_repeat(start, v, u);
    }
}

/// No two workers of a crew try the same nonce, as long as neither has gone
/// round all nonces.
pub proof fn law_crew_does_not_overlap(
    crew: Seq<Worker>,
    challenge: [u8; 32],
    difficulty: [u8; 32],
    start: [u8; 32],
    threads: nat,
    a: nat,
    b: nat,
    i: nat,
    j: nat,
)
    requires
        is_crew(crew, challenge, difficulty, start@, threads),
        a < threads,
        b < threads,
        a != b,
        a + i * threads < pow256(32),
        b + j * threads < pow256(32),
    ensures
        try_at(crew[a as int].nonce@, threads, i) != try_at(crew[b as int].nonce@, threads, j),
{
    assert(crew[a as int].nonce@ == nonce_at(start@, a));
    assert(crew[b as int].nonce@ == nonce_at(start@, b));
    law_steps_add_up(start@, a, i * threads);
    law_steps_add_up(start@, b, j * threads);
    law_threads_do_not_overlap(start@, threads, a, b, i, j);
}

/// Together the threads leave no nonce out: each lies on the way of one of them.
pub proof fn law_threads_reach_every_nonce(start: Seq<u8>, threads: nat, nonce: Seq<u8>)
    requires
        threads > 0,
        nonce.len() == start.len(),
    ensures
        exists|tid: nat, k: nat|
            tid < threads && #[trigger] try_at(nonce_at(start, tid), threads, k) == nonce,
{
    law_every_nonce_is_reached(start, nonce);
    let n = choose|n: nat| n < pow256(start.len()) && #[trigger] nonce_at(start, n) == nonce;
    let tid = n % threads;
    let k = n / threads;
    lemma_fundamental_div_mod(n as int, threads as int);
    assert(tid + k * threads == n) by (nonlinear_arith)
        requires
            n == threads * k + tid,
    ;
    law_steps_add_up(start, tid, k * threads);
    assert(try_at(nonce_at(start, tid), threads, k) == nonce);
}

/// If the challenge has a solution at all, some thread finds one.
pub proof fn law_a_solution_is_found(
    challenge: Seq<u8>,
    difficulty: Seq<u8>,
    start: Seq<u8>,
    threads: nat,
    solution: Seq<u8>,
)
    requires
        threads > 0,
        solution.len() == start.len(),
        accepts(challenge, solution, difficulty),
    ensures
        exists|tid: nat, count: nat|
            tid < threads && !#[trigger] no_hit(
                challenge,
                difficulty,
                nonce_at(start, tid),
                threads,
                count,
            ),
{
    law_threads_reach_every_nonce(start, threads, solution);
    let (tid, k) = choose|tid: nat, k: nat|
        tid < threads && #[trigger] try_at(nonce_at(start, tid), threads, k) == solution;
    assert(!no_hit(challenge, difficulty, nonce_at(start, tid), threads, k + 1));
}

/// Batches leave no nonce out: a batch of `n` and the batch of `m` after it
/// have no solution exactly when the first `n + m` tries have none.
pub proof fn law_batches_are_consecutive(
    challenge: Seq<u8>,
    difficulty: Seq<u8>,
    start: Seq<u8>,
    threads: nat,
    n: nat,
    m: nat,
)
    ensures
        no_hit(challenge, difficulty, start, threads, n + m) <==> no_hit(
            challenge,
            difficulty,
            start,
            threads,
            n,
        ) && no_hit(challenge, difficulty, try_at(start, threads, n), threads, m),
{
    let next = try_at(start, threads, n);
    if no_hit(challenge, difficulty, start, threads, n + m) {
        assert forall|j: nat| j < m implies !accepts(
            challenge,
            #[trigger] try_at(next, threads, j),
            difficulty,
        ) by {
            law_tries_add_up(start, threads, n, j);
            assert(!accepts(challenge, try_at(start, threads, n + j), difficulty));
        }
    }
    if no_hit(challenge, difficulty, start, threads, n) && no_hit(
        challenge,
        difficulty,
        next,
        threads,
        m,
    ) {
        assert forall|j: nat| j < n + m implies !accepts(
            challenge,
            #[trigger] try_at(start, threads, j),
            difficulty,
        ) by {
            if j >= n {
                law_tries_add_up(start, threads, n, (j - n) as nat);
                assert(!accepts(challenge, try_at(next, threads, (j - n) as nat), difficulty));
            }
        }
    }
}

/// Only one nonce of a batch is its first solution.
pub proof fn law_first_hit_is_unique(
    challenge: Seq<u8>,
    difficulty: Seq<u8>,
    start: Seq<u8>,
    threads: nat,
    count: nat,
    k: nat,
    l: nat,
)
    requires
        first_hit(challenge, difficulty, start, threads, count, k),
        first_hit(challenge, difficulty, start, threads, count, l),
    ensures
        k == l,
{
    if k < l {
        assert(!accepts(challenge, try_at(start, threads, k), difficulty));
    } else if l < k {
        assert(!accepts(challenge, try_at(start, threads, l), difficulty));
    }
}

/// The states of a worker over turns without stop signal or solution.
pub open spec fn is_search(search: Seq<Worker>) -> bool {
    &&& search.len() >= 1
    &&& search[0].valid()
    &&& forall|i: int| 0 <= i < search.len() - 1 ==> #[trigger] search[i].goes_on_as(
        search[i + 1],
    )
}

/// The hashes that a worker reports over such turns.
pub open spec fn hashes_reported(search: Seq<Worker>) -> nat
    decreases search.len(),
{
    if search.len() <= 1 {
        0
    } else {
        hashes_reported(search.drop_last()) + search[search.len() - 2].hashes_due() as nat
    }
}

/// A search without its last turn is a search.
proof fn lemma_shorter_search(search: Seq<Worker>)
    requires
        is_search(search),
        search.len() > 1,
    ensures
        is_search(search.drop_last()),
        search.drop_last().last().goes_on_as(search.last()),
{
    let before = search.drop_last();
    let n = search.len() - 2;
    assert(search[n].goes_on_as(search[n + 1]));
    assert forall|i: int| 0 <= i < before.len() - 1 implies #[trigger] before[i].goes_on_as(
        before[i + 1],
    ) by {
        assert(search[i].goes_on_as(search[i + 1]));
    }
}

/// After `n` turns without a solution a worker has tried the first `n` nonces
/// on its way and none is a solution, and it stands at the next.
pub proof fn law_search_tries_in_order(search: Seq<Worker>)
    requires
        is_search(search),
    ensures
        ({
            let first = search[0];
            let last = search.last();
            let n = (search.len() - 1) as nat;
            let threads = first.threads as nat;
            &&& last.challenge == first.challenge
            &&& last.difficulty == first.difficulty
            &&& last.threads == first.threads
            &&& last.nonce@ == try_at(first.nonce@, threads, n)
            &&& no_hit(first.challenge@, first.difficulty@, first.nonce@, threads, n)
        }),
    decreases search.len(),
{
    let first = search[0];
    let threads = first.threads as nat;
    law_tries_add_up(first.nonce@, threads, 0, 0);
    if search.len() > 1 {
        let n = (search.len() - 2) as nat;
        lemma_shorter_search(search);
        law_search_tries_in_order(search.drop_last());
        law_tries_add_up(first.nonce@, threads, n, 1);
        law_tries_add_up(try_at(first.nonce@, threads, n), threads, 0, 0);
    }
}

proof fn lemma_turn_reports(before: Worker, after: Worker)
    requires
        before.valid(),
        before.goes_on_as(after),
    ensures
        after.valid(),
        before.tried + 1 == before.hashes_due() + after.tried,
        before.hashes_due() == 0 || before.hashes_due() == BATCH_SIZE,
{
}

/// A worker reports its nonces by whole batches: over any number of turns
/// without a solution, what it has tried is what it has reported and what
/// stands in the batch that it has begun.
pub proof fn law_search_reports_whole_batches(search: Seq<Worker>)
    requires
        is_search(search),
    ensures
        search.last().valid(),
        search[0].tried + search.len() - 1 == hashes_reported(search) + search.last().tried,
        hashes_reported(search) % BATCH_SIZE as nat == 0,
    decreases search.len(),
{
    if search.len() > 1 {
        let before = search.drop_last();
        lemma_shorter_search(search);
        law_search_reports_whole_batches(before);
        lemma_turn_reports(before.last(), search.last());
        assert(hashes_reported(search) == hashes_reported(before) + before.last().hashes_due());
    }
}

/// As many workers run as were asked for, but never none. When no number was
/// asked for, one CPU is left free, unless there is no other.
pub proof fn law_one_cpu_is_left_free(requested: Option<usize>, cpus: usize)
    ensures
        workers_for(requested, cpus) >= 1,
        requested matches Some(count) ==> workers_for(requested, cpus) == (if count == 0 {
            1
        } else {
            count as int
        }),
        requested is None && cpus >= 2 ==> workers_for(requested, cpus) + 1 == cpus,
        requested is None && cpus < 2 ==> workers_for(requested, cpus) == 1,
{
}

/// When a batch has no solution, none of its tries is one: not the nonce that
/// lies any number of strides, fewer than the batch has tries, after the start.
pub proof fn law_no_try_of_a_failed_batch_solves(
    challenge: Seq<u8>,
    difficulty: Seq<u8>,
    start: Seq<u8>,
    threads: nat,
    count: nat,
    j: nat,
)
    requires
        no_hit(challenge, difficulty, start, threads, count),
        j < count,
    ensures
        !accepts(challenge, nonce_at(start, j * threads), difficulty),
{
    assert(!accepts(challenge, try_at(start, threads, j), difficulty));
}

/// The hit of a batch is one of its tries and a solution, and no try before it is one.
pub proof fn law_hit_is_the_first_solution(
    challenge: Seq<u8>,
    difficulty: Seq<u8>,
    start: Seq<u8>,
    threads: nat,
    count: nat,
    k: nat,
    j: nat,
)
    requires
        first_hit(challenge, difficulty, start, threads, count, k),
    ensures
        k < count,
        accepts(challenge, nonce_at(start, k * threads), difficulty),
        j < k ==> !accepts(challenge, nonce_at(start, j * threads), difficulty),
{
    if j < k {
        law_no_try_of_a_failed_batch_solves(challenge, difficulty, start, threads, k, j);
    }
}

/// A worker stands at a solution exactly when its nonce solves its challenge at its difficulty.
pub proof fn law_found_nonce_is_a_solution(worker: Worker)
    ensures
        worker.at_solution() <==> accepts(worker.challenge@, worker.nonce@, worker.difficulty@),
        worker.at_solution() <==> exists|i: int|
            0 <= i < 32 && #[trigger] keccak_digest(worker.challenge@ + worker.nonce@)@.take(i)
                == worker.difficulty@.take(i) && keccak_digest(worker.challenge@ + worker.nonce@)@[i]
                < worker.difficulty@[i],
{
    law_first_differing_byte_decides(worker.challenge@, worker.nonce@, worker.difficulty@);
}

/// A worker goes on only from a nonce that is no solution. It keeps what it
/// mines for, moves on by the number of threads, and counts the nonce once:
/// in the batch that it has begun or in the hashes that it reports, which
/// come by the hundred thousand.
pub proof fn law_worker_goes_on_by_its_stride(before: Worker, after: Worker)
    requires
        before.tried < 100_000,
        before.goes_on_as(after),
    ensures
        !accepts(before.challenge@, before.nonce@, before.difficulty@),
        after.challenge@ == before.challenge@,
        after.difficulty@ == before.difficulty@,
        after.threads == before.threads,
        le_value(after.nonce@) == (le_value(before.nonce@) + before.threads) % pow256(32) as int,
        before.hashes_due() + after.tried == before.tried + 1,
        before.hashes_due() == 0 || before.hashes_due() == 100_000,
        after.tried < 100_000,
{
    lemma_nonce_at_value(before.nonce@, before.threads as nat);
}

/// A worker can go on with any batch that is not full.
pub proof fn law_worker_with_room_is_valid(worker: Worker)
    ensures
        worker.valid() <==> worker.tried < 100_000,
{
}

/// A crew has one worker for each thread. Worker `tid` mines for the same
/// challenge at the same difficulty as the others, starts `tid` nonces after
/// the start, and goes on by the number of threads.
pub proof fn law_crew_members(
    crew: Seq<Worker>,
    challenge: [u8; 32],
    difficulty: [u8; 32],
    start: [u8; 32],
    threads: nat,
    tid: nat,
)
    requires
        is_crew(crew, challenge, difficulty, start@, threads),
    ensures
        crew.len() == threads,
        tid < threads ==> {
            let worker = crew[tid as int];
            &&& worker.challenge == challenge
            &&& worker.difficulty == difficulty
            &&& le_value(worker.nonce@) == (le_value(start@) + tid) % pow256(32)
            &&& worker.threads == threads
            &&& worker.tried == 0
        },
{
    if tid < threads {
        assert(crew[tid as int].is_fresh(challenge, difficulty, start@, tid, threads));
        lemma_nonce_at_value(start@, tid);
    }
}

/// The nonce at which a search ends is the first solution on the worker's way.
pub proof fn law_search_ends_at_the_first_solution(search: Seq<Worker>)
    requires
        is_search(search),
        accepts(search.last().challenge@, search.last().nonce@, search.last().difficulty@),
    ensures
        first_hit(
            search[0].challenge@,
            search[0].difficulty@,
            search[0].nonce@,
            search[0].threads as nat,
            search.len(),
            (search.len() - 1) as nat,
        ),
{
    law_search_tries_in_order(search);
}

/// No solution is passed over: a worker with a solution `k` tries ahead goes
/// on for `k` turns at most.
pub proof fn law_no_solution_is_passed_over(search: Seq<Worker>, k: nat)
    requires
        is_search(search),
        accepts(
            search[0].challenge@,
            try_at(search[0].nonce@, search[0].threads as nat, k),
            search[0].difficulty@,
        ),
    ensures
        search.len() - 1 <= k,
{
    law_search_tries_in_order(search);
}

} // verus!
