//! What the thumbnail cache guarantees, stated over a model of what it works
//! on: the files of the cache directory, the keys that the guard has handed
//! out, and a count of how often a source was read.
//!
//! The model answers a job's actions as a storage that works would: what is
//! stored can be read back, what was never stored is not there, a key is
//! granted to one holder at a time. Reading the source always gives the same
//! thing, since the source is not modified meanwhile.
//!
//! First a single request is followed from start to end; then any number of
//! requests for one path, taking turns in any order.

use crate::image_processing::{rendered, ErrorKind, Failure};
use crate::thumbnail_cache::{action_of, start_of, step_of, Job, Order, Signal, Stage};
use crate::utils::{cache_key_of, cache_path_of};
use vstd::prelude::*;

verus! {

/// The cache directory and the guard.
pub ghost struct World {
    /// The files of the cache directory, by path.
    pub files: Map<Seq<char>, Seq<u8>>,
    /// The keys that are held.
    pub claimed: Set<Seq<char>>,
    /// How often a source image has been read, and so rendered, so far.
    pub source_reads: nat,
}

/// Whether an action can be carried out now: only waiting for a key that is
/// still held cannot, and a finished job asks for nothing.
pub open spec fn can_proceed(world: World, order: Order) -> bool {
    match order {
        Order::AwaitRelease(key) => !world.claimed.contains(key),
        Order::Return(_) => false,
        _ => true,
    }
}

/// How the action goes, and what it leaves behind. `source` is what reading
/// the source image gives.
pub open spec fn respond(world: World, source: Result<Seq<u8>, Seq<char>>, order: Order) -> (
    Signal,
    World,
) {
    match order {
        Order::EnsureDirectory(path) => (Signal::DirectoryReady(Ok(())), world),
        Order::ProbeArtifact(path) => (Signal::Probed(world.files.contains_key(path)), world),
        Order::ReadArtifact(path) => (
            Signal::ArtifactRead(
                if world.files.contains_key(path) {
                    Ok(world.files[path])
                } else {
                    Err(Seq::empty())
                },
            ),
            world,
        ),
        Order::Claim(key) => (
            Signal::Claimed(!world.claimed.contains(key)),
            World { claimed: world.claimed.insert(key), ..world },
        ),
        Order::AwaitRelease(key) => (Signal::Woken, world),
        Order::ReadSource(path) => (
            Signal::SourceRead(source),
            World { source_reads: world.source_reads + 1, ..world },
        ),
        Order::StoreArtifact(path, bytes) => (
            Signal::Stored(Ok(())),
            World { files: world.files.insert(path, bytes), ..world },
        ),
        Order::Release(key) => (
            Signal::Released,
            World { claimed: world.claimed.remove(key), ..world },
        ),
        Order::Return(_) => (Signal::Released, world),
    }
}

/// One action of a job, carried out. A job that cannot proceed stays as it
/// is, and so does the world.
pub open spec fn advance(world: World, source: Result<Seq<u8>, Seq<char>>, job: Job) -> (
    World,
    Job,
) {
    if can_proceed(world, action_of(job)) {
        let (signal, next_world) = respond(world, source, action_of(job));
        (next_world, step_of(job, signal))
    } else {
        (world, job)
    }
}

/// A job driven for `steps` actions with nothing else going on.
pub open spec fn run(world: World, source: Result<Seq<u8>, Seq<char>>, job: Job, steps: nat) -> (
    World,
    Job,
)
    decreases steps,
{
    if steps == 0 {
        (world, job)
    } else {
        let (next_world, next_job) = advance(world, source, job);
        run(next_world, source, next_job, (steps - 1) as nat)
    }
}

/// A request served from start to end with nothing else going on. No request
/// takes more than seven actions.
pub open spec fn serve(
    world: World,
    cache_dir: Seq<char>,
    path: Seq<char>,
    source: Result<Seq<u8>, Seq<char>>,
) -> (World, Job) {
    run(world, source, start_of(cache_dir, path), 7)
}

/// The stage of a job that has finished with `outcome`.
pub open spec fn finished_with(outcome: Result<Seq<u8>, Failure>) -> Stage {
    Stage::Finished { outcome }
}

/// A hit: where the cached file is there, it is returned as it is, the
/// source is not read, and neither the directory nor the guard changes.
pub proof fn lemma_hit_returns_the_file(
    world: World,
    cache_dir: Seq<char>,
    path: Seq<char>,
    source: Result<Seq<u8>, Seq<char>>,
)
    requires
        world.files.contains_key(cache_path_of(cache_dir, path)),
    ensures
        serve(world, cache_dir, path, source) == (
            world,
            Job {
                stage: finished_with(Ok(world.files[cache_path_of(cache_dir, path)])),
                ..start_of(cache_dir, path)
            },
        ),
{
    reveal_with_fuel(run, 8);
}

/// A miss: where the cached file is not there and nobody holds the key, the
/// source is read once and rendered. A thumbnail is stored under the key's
/// path and returned; a failure is returned and nothing is stored. Either way
/// the key is free again afterwards.
pub proof fn lemma_miss_generates(
    world: World,
    cache_dir: Seq<char>,
    path: Seq<char>,
    source: Result<Seq<u8>, Seq<char>>,
)
    requires
        !world.files.contains_key(cache_path_of(cache_dir, path)),
        !world.claimed.contains(cache_key_of(path)),
    ensures
        ({
            let (after, job) = serve(world, cache_dir, path, source);
            let outcome = match source {
                Ok(bytes) => rendered(bytes, path),
                Err(text) => Err(Failure { kind: ErrorKind::SourceUnreadable, detail: text }),
            };
            &&& job == Job { stage: finished_with(outcome), ..start_of(cache_dir, path) }
            &&& after.claimed == world.claimed
            &&& after.source_reads == world.source_reads + 1
            &&& after.files == match outcome {
                Ok(artifact) => world.files.insert(cache_path_of(cache_dir, path), artifact),
                Err(_) => world.files,
            }
        }),
{
    reveal_with_fuel(run, 8);
    let key = cache_key_of(path);
    assert(world.claimed.insert(key).remove(key) =~= world.claimed);
}

/// Served twice, a thumbnail is the same both times: once a request has
/// returned bytes, the next request for the same path returns those bytes
/// from the cached file. It does not read the source, whatever `later`
/// reading it would give: nothing is decoded, scaled or encoded again. And
/// it changes neither the directory nor the guard.
pub proof fn lemma_second_request_hits(
    world: World,
    cache_dir: Seq<char>,
    path: Seq<char>,
    source: Result<Seq<u8>, Seq<char>>,
    later: Result<Seq<u8>, Seq<char>>,
)
    requires
        serve(world, cache_dir, path, source).1.stage is Finished,
        serve(world, cache_dir, path, source).1.stage->Finished_outcome is Ok,
    ensures
        ({
            let (after, first) = serve(world, cache_dir, path, source);
            serve(after, cache_dir, path, later) == (after, first)
        }),
{
    let place = cache_path_of(cache_dir, path);
    let key = cache_key_of(path);
    if world.files.contains_key(place) {
        lemma_hit_returns_the_file(world, cache_dir, path, source);
        lemma_hit_returns_the_file(world, cache_dir, path, later);
    } else if world.claimed.contains(key) {
        reveal_with_fuel(run, 8);
        assert(world.claimed.insert(key) =~= world.claimed);
    } else {
        lemma_miss_generates(world, cache_dir, path, source);
        let (after, first) = serve(world, cache_dir, path, source);
        lemma_hit_returns_the_file(after, cache_dir, path, later);
    }
}

/// Miss, then hit: with no cached file for the path, a request for a source
/// that renders adds exactly one file to the directory, the thumbnail under
/// the key's path, and returns its bytes. The next request returns the same
/// bytes and leaves the directory as it is.
pub proof fn lemma_miss_then_hit(
    world: World,
    cache_dir: Seq<char>,
    path: Seq<char>,
    source: Seq<u8>,
    artifact: Seq<u8>,
)
    requires
        !world.files.contains_key(cache_path_of(cache_dir, path)),
        !world.claimed.contains(cache_key_of(path)),
        rendered(source, path) == Ok::<Seq<u8>, Failure>(artifact),
    ensures
        ({
            let (after, first) = serve(world, cache_dir, path, Ok(source));
            &&& first.stage == finished_with(Ok(artifact))
            &&& after.files == world.files.insert(cache_path_of(cache_dir, path), artifact)
            &&& after.files.dom() == world.files.dom().insert(cache_path_of(cache_dir, path))
            &&& serve(after, cache_dir, path, Ok(source)) == (after, first)
        }),
{
    lemma_miss_generates(world, cache_dir, path, Ok(source));
    let (after, first) = serve(world, cache_dir, path, Ok(source));
    lemma_hit_returns_the_file(after, cache_dir, path, Ok(source));
    assert(after.files.dom() =~= world.files.dom().insert(cache_path_of(cache_dir, path)));
}

/// A failure leaves no trace: with no cached file for the path, a request
/// whose source cannot be read fails as `SourceUnreadable` with the reader's
/// text, one whose source does not render fails with the renderer's failure,
/// and neither writes anything.
pub proof fn lemma_failure_writes_nothing(
    world: World,
    cache_dir: Seq<char>,
    path: Seq<char>,
    source: Result<Seq<u8>, Seq<char>>,
)
    requires
        !world.files.contains_key(cache_path_of(cache_dir, path)),
        !world.claimed.contains(cache_key_of(path)),
        source matches Ok(bytes) ==> rendered(bytes, path) is Err,
    ensures
        ({
            let (after, job) = serve(world, cache_dir, path, source);
            &&& after.files == world.files
            &&& after.claimed == world.claimed
            &&& job.stage == finished_with(
                match source {
                    Ok(bytes) => rendered(bytes, path),
                    Err(text) => Err(Failure { kind: ErrorKind::SourceUnreadable, detail: text }),
                },
            )
        }),
{
    lemma_miss_generates(world, cache_dir, path, source);
}

/// Several requests for the same path, served at once over one directory and
/// one guard.
pub ghost struct Crowd {
    pub world: World,
    pub jobs: Seq<Job>,
}

/// Whether a job at this stage holds its key.
pub open spec fn holds_key(stage: Stage) -> bool {
    match stage {
        Stage::Probing { holding } => holding,
        Stage::ReadingArtifact { holding } => holding,
        Stage::ReadingSource => true,
        Stage::Storing { artifact } => true,
        Stage::Releasing { outcome } => true,
        _ => false,
    }
}

/// The crowd after job `turn` has carried out one action. Any order of turns
/// is an interleaving of the requests.
pub open spec fn crowd_step(crowd: Crowd, source: Result<Seq<u8>, Seq<char>>, turn: int) -> Crowd {
    if 0 <= turn < crowd.jobs.len() {
        let (world, job) = advance(crowd.world, source, crowd.jobs[turn]);
        Crowd { world, jobs: crowd.jobs.update(turn, job) }
    } else {
        crowd
    }
}

/// The crowd after the turns of `schedule`, one after the other.
pub open spec fn crowd_run(crowd: Crowd, source: Result<Seq<u8>, Seq<char>>, schedule: Seq<int>)
    -> Crowd
    decreases schedule.len(),
{
    if schedule.len() == 0 {
        crowd
    } else {
        crowd_step(crowd_run(crowd, source, schedule.drop_last()), source, schedule.last())
    }
}

/// `count` requests for `path` that have just begun.
pub open spec fn fresh_crowd(world: World, cache_dir: Seq<char>, path: Seq<char>, count: nat)
    -> Crowd {
    Crowd { world, jobs: Seq::new(count, |i: int| start_of(cache_dir, path)) }
}

/// Whether the thumbnail has been generated: it is stored, or some request
/// is about to store it.
pub open spec fn generated(crowd: Crowd, place: Seq<char>) -> bool {
    crowd.world.files.contains_key(place) || exists|i: int|
        0 <= i < crowd.jobs.len() && (#[trigger] crowd.jobs[i]).stage is Storing
}

/// What holds of a crowd of requests for `path` at every moment, where the
/// source renders to `artifact` and had been read `reads_before` times when
/// the requests began:
/// - the cached file, if there is one, is the thumbnail, whole;
/// - whatever a request is about to store or has in hand is the thumbnail;
/// - a request stores only while there is no cached file: a file once
///   stored is not written again;
/// - no request has failed, none reads a cached file that is not there, and
///   none has its result before the file is there;
/// - at most one request holds the key, and the guard knows whether one
///   does; a request waits only for a key that is held, or finds the file
///   there when it wakes;
/// - the source has been read once if the thumbnail has been generated, and
///   not at all if not.
pub open spec fn coherent(
    crowd: Crowd,
    cache_dir: Seq<char>,
    path: Seq<char>,
    artifact: Seq<u8>,
    reads_before: nat,
) -> bool {
    let place = cache_path_of(cache_dir, path);
    let key = cache_key_of(path);
    &&& forall|i: int|
        0 <= i < crowd.jobs.len() ==> (#[trigger] crowd.jobs[i]) == Job {
            stage: crowd.jobs[i].stage,
            ..start_of(cache_dir, path)
        }
    &&& crowd.world.files.contains_key(place) ==> crowd.world.files[place] == artifact
    &&& forall|i: int|
        0 <= i < crowd.jobs.len() ==> match (#[trigger] crowd.jobs[i]).stage {
            Stage::Storing { artifact: pending } => pending == artifact
                && !crowd.world.files.contains_key(place),
            Stage::Releasing { outcome } => outcome == Ok::<Seq<u8>, Failure>(artifact)
                && crowd.world.files.contains_key(place),
            Stage::Finished { outcome } => outcome == Ok::<Seq<u8>, Failure>(artifact)
                && crowd.world.files.contains_key(place),
            Stage::ReadingArtifact { holding } => crowd.world.files.contains_key(place),
            Stage::ReadingSource => !crowd.world.files.contains_key(place),
            Stage::Waiting => crowd.world.claimed.contains(key)
                || crowd.world.files.contains_key(place),
            _ => true,
        }
    &&& forall|i: int, j: int|
        0 <= i < crowd.jobs.len() && 0 <= j < crowd.jobs.len() && holds_key(
            (#[trigger] crowd.jobs[i]).stage,
        ) && holds_key((#[trigger] crowd.jobs[j]).stage) ==> i == j
    &&& crowd.world.claimed.contains(key) <==> exists|i: int|
        0 <= i < crowd.jobs.len() && holds_key((#[trigger] crowd.jobs[i]).stage)
    &&& crowd.world.source_reads == reads_before + if generated(crowd, place) {
        1nat
    } else {
        0nat
    }
}

/// Requests that have just begun are coherent, where the path has no cached
/// file and nobody holds its key.
pub proof fn lemma_fresh_crowd_is_coherent(
    world: World,
    cache_dir: Seq<char>,
    path: Seq<char>,
    artifact: Seq<u8>,
    count: nat,
)
    requires
        !world.files.contains_key(cache_path_of(cache_dir, path)),
        !world.claimed.contains(cache_key_of(path)),
    ensures
        coherent(
            fresh_crowd(world, cache_dir, path, count),
            cache_dir,
            path,
            artifact,
            world.source_reads,
        ),
{
}

/// Whatever request takes the next turn, the crowd stays coherent.
pub proof fn lemma_turn_keeps_coherence(
    crowd: Crowd,
    cache_dir: Seq<char>,
    path: Seq<char>,
    source: Seq<u8>,
    artifact: Seq<u8>,
    reads_before: nat,
    turn: int,
)
    requires
        rendered(source, path) == Ok::<Seq<u8>, Failure>(artifact),
        coherent(crowd, cache_dir, path, artifact, reads_before),
    ensures
        coherent(crowd_step(crowd, Ok(source), turn), cache_dir, path, artifact, reads_before),
{
    if 0 <= turn < crowd.jobs.len() {
        let place = cache_path_of(cache_dir, path);
        let key = cache_key_of(path);
        let next = crowd_step(crowd, Ok(source), turn);
        let job = crowd.jobs[turn];
        assert(job == Job { stage: job.stage, ..start_of(cache_dir, path) });
        assert forall|i: int| 0 <= i < next.jobs.len() && i != turn implies next.jobs[i]
            == crowd.jobs[i] by {}
        if can_proceed(crowd.world, action_of(job)) {
            lemma_turn_keeps_the_guard(crowd, cache_dir, path, source, artifact, reads_before, turn);
            lemma_turn_keeps_the_count(crowd, cache_dir, path, source, artifact, reads_before, turn);
            match job.stage {
                Stage::Storing { artifact: pending } => {
                    assert forall|i: int| 0 <= i < next.jobs.len() implies !(
                    (#[trigger] next.jobs[i]).stage is ReadingSource) by {
                        if i != turn && crowd.jobs[i].stage is ReadingSource {
                            assert(holds_key(crowd.jobs[i].stage) && holds_key(
                                crowd.jobs[turn].stage,
                            ));
                        }
                    }
                },
                _ => {},
            }
        }
    }
}

/// A turn leaves at most one request holding the key, and the guard knowing
/// whether one does.
proof fn lemma_turn_keeps_the_guard(
    crowd: Crowd,
    cache_dir: Seq<char>,
    path: Seq<char>,
    source: Seq<u8>,
    artifact: Seq<u8>,
    reads_before: nat,
    turn: int,
)
    requires
        rendered(source, path) == Ok::<Seq<u8>, Failure>(artifact),
        coherent(crowd, cache_dir, path, artifact, reads_before),
        0 <= turn < crowd.jobs.len(),
        can_proceed(crowd.world, action_of(crowd.jobs[turn])),
    ensures
        ({
            let next = crowd_step(crowd, Ok(source), turn);
            &&& forall|i: int, j: int|
                0 <= i < next.jobs.len() && 0 <= j < next.jobs.len() && holds_key(
                    (#[trigger] next.jobs[i]).stage,
                ) && holds_key((#[trigger] next.jobs[j]).stage) ==> i == j
            &&& next.world.claimed.contains(cache_key_of(path)) <==> exists|i: int|
                0 <= i < next.jobs.len() && holds_key((#[trigger] next.jobs[i]).stage)
        }),
{
    let key = cache_key_of(path);
    let next = crowd_step(crowd, Ok(source), turn);
    let job = crowd.jobs[turn];
    assert(job == Job { stage: job.stage, ..start_of(cache_dir, path) });
    assert forall|i: int| 0 <= i < next.jobs.len() && i != turn implies next.jobs[i]
        == crowd.jobs[i] by {}
    match job.stage {
        Stage::Claiming => {
            if crowd.world.claimed.contains(key) {
                let holder = choose|i: int|
                    0 <= i < crowd.jobs.len() && holds_key((#[trigger] crowd.jobs[i]).stage);
                assert(holder != turn);
                assert(next.jobs[holder] == crowd.jobs[holder]);
                assert(holds_key(next.jobs[holder].stage));
                assert(crowd.world.claimed.insert(key) =~= crowd.world.claimed);
            } else {
                assert(holds_key(next.jobs[turn].stage));
                assert forall|i: int, j: int|
                    0 <= i < next.jobs.len() && 0 <= j < next.jobs.len() && holds_key(
                        (#[trigger] next.jobs[i]).stage,
                    ) && holds_key((#[trigger] next.jobs[j]).stage) implies i == j by {
                    if i != turn {
                        assert(holds_key(crowd.jobs[i].stage));
                    }
                    if j != turn {
                        assert(holds_key(crowd.jobs[j].stage));
                    }
                }
            }
        },
        Stage::Releasing { outcome } => {
            assert(holds_key(crowd.jobs[turn].stage));
            assert forall|i: int| 0 <= i < next.jobs.len() implies !holds_key(
                (#[trigger] next.jobs[i]).stage,
            ) by {
                if i != turn {
                    if holds_key(crowd.jobs[i].stage) {
                        assert(i == turn);
                    }
                }
            }
        },
        _ => {
            assert(holds_key(next.jobs[turn].stage) == holds_key(job.stage));
            assert(next.world.claimed == crowd.world.claimed);
            assert forall|i: int| 0 <= i < next.jobs.len() implies holds_key(
                (#[trigger] next.jobs[i]).stage,
            ) == holds_key(crowd.jobs[i].stage) by {}
            if exists|i: int|
                0 <= i < crowd.jobs.len() && holds_key((#[trigger] crowd.jobs[i]).stage) {
                let holder = choose|i: int|
                    0 <= i < crowd.jobs.len() && holds_key((#[trigger] crowd.jobs[i]).stage);
                assert(holds_key(next.jobs[holder].stage));
            }
        },
    }
}

/// A turn leaves the count of reads in step with whether the thumbnail has
/// been generated.
proof fn lemma_turn_keeps_the_count(
    crowd: Crowd,
    cache_dir: Seq<char>,
    path: Seq<char>,
    source: Seq<u8>,
    artifact: Seq<u8>,
    reads_before: nat,
    turn: int,
)
    requires
        rendered(source, path) == Ok::<Seq<u8>, Failure>(artifact),
        coherent(crowd, cache_dir, path, artifact, reads_before),
        0 <= turn < crowd.jobs.len(),
        can_proceed(crowd.world, action_of(crowd.jobs[turn])),
    ensures
        ({
            let next = crowd_step(crowd, Ok(source), turn);
            next.world.source_reads == reads_before + if generated(
                next,
                cache_path_of(cache_dir, path),
            ) {
                1nat
            } else {
                0nat
            }
        }),
{
    let place = cache_path_of(cache_dir, path);
    let next = crowd_step(crowd, Ok(source), turn);
    let job = crowd.jobs[turn];
    assert(job == Job { stage: job.stage, ..start_of(cache_dir, path) });
    assert forall|i: int| 0 <= i < next.jobs.len() && i != turn implies next.jobs[i]
        == crowd.jobs[i] by {}
    match job.stage {
        Stage::ReadingSource => {
            assert(!generated(crowd, place)) by {
                if generated(crowd, place) {
                    let other = choose|i: int|
                        0 <= i < crowd.jobs.len() && (#[trigger] crowd.jobs[i]).stage is Storing;
                    assert(holds_key(crowd.jobs[other].stage) && holds_key(crowd.jobs[turn].stage));
                }
            }
            assert(next.jobs[turn].stage is Storing);
        },
        Stage::Storing { artifact: pending } => {
            assert(crowd.jobs[turn].stage is Storing);
            assert(next.world.files.contains_key(place));
        },
        _ => {
            assert(next.world.files == crowd.world.files);
            assert(next.world.source_reads == crowd.world.source_reads);
            assert(!(next.jobs[turn].stage is Storing));
            if generated(crowd, place) && !crowd.world.files.contains_key(place) {
                let other = choose|i: int|
                    0 <= i < crowd.jobs.len() && (#[trigger] crowd.jobs[i]).stage is Storing;
                assert(next.jobs[other] == crowd.jobs[other]);
            }
            if generated(next, place) && !next.world.files.contains_key(place) {
                let other = choose|i: int|
                    0 <= i < next.jobs.len() && (#[trigger] next.jobs[i]).stage is Storing;
                assert(crowd.jobs[other] == next.jobs[other]);
            }
        },
    }
}

/// Whatever the schedule, a coherent crowd stays coherent and keeps its
/// size.
pub proof fn lemma_schedule_keeps_coherence(
    crowd: Crowd,
    cache_dir: Seq<char>,
    path: Seq<char>,
    source: Seq<u8>,
    artifact: Seq<u8>,
    reads_before: nat,
    schedule: Seq<int>,
)
    requires
        rendered(source, path) == Ok::<Seq<u8>, Failure>(artifact),
        coherent(crowd, cache_dir, path, artifact, reads_before),
    ensures
        coherent(crowd_run(crowd, Ok(source), schedule), cache_dir, path, artifact, reads_before),
        crowd_run(crowd, Ok(source), schedule).jobs.len() == crowd.jobs.len(),
    decreases schedule.len(),
{
    if schedule.len() > 0 {
        lemma_schedule_keeps_coherence(
            crowd,
            cache_dir,
            path,
            source,
            artifact,
            reads_before,
            schedule.drop_last(),
        );
        lemma_turn_keeps_coherence(
            crowd_run(crowd, Ok(source), schedule.drop_last()),
            cache_dir,
            path,
            source,
            artifact,
            reads_before,
            schedule.last(),
        );
    }
}

/// A coherent crowd is never stuck: while some request has not finished,
/// some request can take a turn.
pub proof fn lemma_never_stuck(
    crowd: Crowd,
    cache_dir: Seq<char>,
    path: Seq<char>,
    artifact: Seq<u8>,
    reads_before: nat,
    waiting: int,
)
    requires
        coherent(crowd, cache_dir, path, artifact, reads_before),
        0 <= waiting < crowd.jobs.len(),
        !(crowd.jobs[waiting].stage is Finished),
    ensures
        exists|i: int|
            0 <= i < crowd.jobs.len() && can_proceed(
                crowd.world,
                action_of(#[trigger] crowd.jobs[i]),
            ),
{
    let job = crowd.jobs[waiting];
    assert(job == Job { stage: job.stage, ..start_of(cache_dir, path) });
    if !can_proceed(crowd.world, action_of(job)) {
        let holder = choose|i: int|
            0 <= i < crowd.jobs.len() && holds_key((#[trigger] crowd.jobs[i]).stage);
        assert(can_proceed(crowd.world, action_of(crowd.jobs[holder])));
    }
}

/// How many turns a request at this stage takes at most until it has
/// finished. `stored` says whether the cached file is there.
pub open spec fn turns_left(stage: Stage, stored: bool) -> nat {
    match stage {
        Stage::Preparing => 7,
        Stage::Probing { holding: false } => if stored {
            2
        } else {
            6
        },
        Stage::Claiming => 5,
        Stage::Probing { holding: true } => 4,
        Stage::Waiting => 3,
        Stage::ReadingSource => 3,
        Stage::Storing { artifact } => 2,
        Stage::ReadingArtifact { holding: true } => 2,
        Stage::ReadingArtifact { holding: false } => 1,
        Stage::Releasing { outcome } => 1,
        Stage::Finished { outcome } => 0,
    }
}

/// The turns that the requests take at most, all together, until all have
/// finished.
pub open spec fn work_left(jobs: Seq<Job>, stored: bool) -> nat
    decreases jobs.len(),
{
    if jobs.len() == 0 {
        0
    } else {
        work_left(jobs.drop_last(), stored) + turns_left(jobs.last().stage, stored)
    }
}

/// The work left in a crowd.
pub open spec fn crowd_work_left(crowd: Crowd, place: Seq<char>) -> nat {
    work_left(crowd.jobs, crowd.world.files.contains_key(place))
}

/// With the cached file there, no more work is left than without it.
proof fn lemma_stored_file_saves_work(jobs: Seq<Job>)
    ensures
        work_left(jobs, true) <= work_left(jobs, false),
    decreases jobs.len(),
{
    if jobs.len() > 0 {
        lemma_stored_file_saves_work(jobs.drop_last());
    }
}

/// The work left changes by what one request's turn changes.
proof fn lemma_work_left_after_turn(jobs: Seq<Job>, turn: int, job: Job, stored: bool)
    requires
        0 <= turn < jobs.len(),
    ensures
        work_left(jobs.update(turn, job), stored) + turns_left(jobs[turn].stage, stored)
            == work_left(jobs, stored) + turns_left(job.stage, stored),
    decreases jobs.len(),
{
    let changed = jobs.update(turn, job);
    if turn == jobs.len() - 1 {
        assert(changed.drop_last() =~= jobs.drop_last());
    } else {
        assert(changed.drop_last() =~= jobs.drop_last().update(turn, job));
        lemma_work_left_after_turn(jobs.drop_last(), turn, job, stored);
    }
}

/// Requests that have just begun have seven turns each before them, at most.
pub proof fn lemma_work_at_the_start(cache_dir: Seq<char>, path: Seq<char>, count: nat, stored: bool)
    ensures
        work_left(Seq::new(count, |i: int| start_of(cache_dir, path)), stored) == 7 * count,
    decreases count,
{
    let jobs = Seq::new(count, |i: int| start_of(cache_dir, path));
    if count > 0 {
        assert(jobs.drop_last() =~= Seq::new((count - 1) as nat, |i: int| start_of(cache_dir, path)));
        lemma_work_at_the_start(cache_dir, path, (count - 1) as nat, stored);
    }
}

/// With no work left, every request has finished.
pub proof fn lemma_no_work_left(jobs: Seq<Job>, stored: bool)
    requires
        work_left(jobs, stored) == 0,
    ensures
        forall|i: int| 0 <= i < jobs.len() ==> (#[trigger] jobs[i]).stage is Finished,
    decreases jobs.len(),
{
    if jobs.len() > 0 {
        lemma_no_work_left(jobs.drop_last(), stored);
        assert forall|i: int| 0 <= i < jobs.len() implies (#[trigger] jobs[i]).stage is Finished by {
            if i < jobs.len() - 1 {
                assert(jobs[i] == jobs.drop_last()[i]);
            }
        }
    }
}

/// Every turn that a request can take brings the crowd nearer to its end:
/// the work left goes down. With `lemma_never_stuck`, `lemma_work_at_the_start`
/// and `lemma_no_work_left`: however the turns fall, all of `count` requests
/// have finished once `7 * count` turns have been taken by requests that
/// could take them, and until then some request always can.
pub proof fn lemma_turn_makes_progress(
    crowd: Crowd,
    cache_dir: Seq<char>,
    path: Seq<char>,
    source: Seq<u8>,
    artifact: Seq<u8>,
    reads_before: nat,
    turn: int,
)
    requires
        rendered(source, path) == Ok::<Seq<u8>, Failure>(artifact),
        coherent(crowd, cache_dir, path, artifact, reads_before),
        0 <= turn < crowd.jobs.len(),
        can_proceed(crowd.world, action_of(crowd.jobs[turn])),
    ensures
        crowd_work_left(crowd_step(crowd, Ok(source), turn), cache_path_of(cache_dir, path))
            < crowd_work_left(crowd, cache_path_of(cache_dir, path)),
{
    let place = cache_path_of(cache_dir, path);
    let next = crowd_step(crowd, Ok(source), turn);
    let job = crowd.jobs[turn];
    let stored = crowd.world.files.contains_key(place);
    assert(job == Job { stage: job.stage, ..start_of(cache_dir, path) });
    lemma_work_left_after_turn(crowd.jobs, turn, next.jobs[turn], stored);
    assert(turns_left(next.jobs[turn].stage, stored) < turns_left(job.stage, stored));
    if next.world.files.contains_key(place) != stored {
        lemma_stored_file_saves_work(next.jobs);
    }
}

/// Whether every turn of the schedule is taken by a request that can take
/// it at that moment.
pub open spec fn all_turns_count(crowd: Crowd, source: Result<Seq<u8>, Seq<char>>, schedule: Seq<int>)
    -> bool
    decreases schedule.len(),
{
    schedule.len() == 0 || {
        let before = crowd_run(crowd, source, schedule.drop_last());
        &&& all_turns_count(crowd, source, schedule.drop_last())
        &&& 0 <= schedule.last() < before.jobs.len()
        &&& can_proceed(before.world, action_of(before.jobs[schedule.last()]))
    }
}

/// Concurrent requests come to an end. Starting where the path has no cached
/// file, let the requests take turns in any order, each turn by a request
/// that can take it. Then there are at most `7 * count` turns; and once no
/// request can take a turn, every request has finished.
pub proof fn lemma_concurrent_requests_finish(
    world: World,
    cache_dir: Seq<char>,
    path: Seq<char>,
    source: Seq<u8>,
    artifact: Seq<u8>,
    count: nat,
    schedule: Seq<int>,
)
    requires
        !world.files.contains_key(cache_path_of(cache_dir, path)),
        !world.claimed.contains(cache_key_of(path)),
        rendered(source, path) == Ok::<Seq<u8>, Failure>(artifact),
        all_turns_count(fresh_crowd(world, cache_dir, path, count), Ok(source), schedule),
    ensures
        ({
            let crowd = crowd_run(fresh_crowd(world, cache_dir, path, count), Ok(source), schedule);
            &&& schedule.len() + crowd_work_left(crowd, cache_path_of(cache_dir, path)) <= 7 * count
            &&& (forall|i: int|
                0 <= i < crowd.jobs.len() ==> !can_proceed(
                    crowd.world,
                    action_of(#[trigger] crowd.jobs[i]),
                )) ==> forall|i: int|
                0 <= i < crowd.jobs.len() ==> (#[trigger] crowd.jobs[i]).stage is Finished
        }),
    decreases schedule.len(),
{
    let fresh = fresh_crowd(world, cache_dir, path, count);
    let place = cache_path_of(cache_dir, path);
    let crowd = crowd_run(fresh, Ok(source), schedule);
    lemma_fresh_crowd_is_coherent(world, cache_dir, path, artifact, count);
    lemma_schedule_keeps_coherence(
        fresh,
        cache_dir,
        path,
        source,
        artifact,
        world.source_reads,
        schedule,
    );
    if schedule.len() == 0 {
        lemma_work_at_the_start(cache_dir, path, count, false);
    } else {
        let before = crowd_run(fresh, Ok(source), schedule.drop_last());
        lemma_concurrent_requests_finish(
            world,
            cache_dir,
            path,
            source,
            artifact,
            count,
            schedule.drop_last(),
        );
        lemma_schedule_keeps_coherence(
            fresh,
            cache_dir,
            path,
            source,
            artifact,
            world.source_reads,
            schedule.drop_last(),
        );
        lemma_turn_makes_progress(
            before,
            cache_dir,
            path,
            source,
            artifact,
            world.source_reads,
            schedule.last(),
        );
    }
    if forall|i: int|
        0 <= i < crowd.jobs.len() ==> !can_proceed(
            crowd.world,
            action_of(#[trigger] crowd.jobs[i]),
        ) {
        assert forall|i: int| 0 <= i < crowd.jobs.len() implies (
        #[trigger] crowd.jobs[i]).stage is Finished by {
            if !(crowd.jobs[i].stage is Finished) {
                lemma_never_stuck(crowd, cache_dir, path, artifact, world.source_reads, i);
            }
        }
    }
}

/// Concurrent misses are safe. However the actions of any number of
/// requests for the same path interleave, starting where the path has no
/// cached file:
/// - every request that has finished returned the same bytes, the thumbnail
///   of the source, and the cached file was there by then;
/// - the cached file, once there, holds exactly those bytes, and no other
///   file of the directory is touched;
/// - at most one request holds the key at a time, and the source is read and
///   rendered at most once in all.
pub proof fn lemma_concurrent_requests_agree(
    world: World,
    cache_dir: Seq<char>,
    path: Seq<char>,
    source: Seq<u8>,
    artifact: Seq<u8>,
    count: nat,
    schedule: Seq<int>,
)
    requires
        !world.files.contains_key(cache_path_of(cache_dir, path)),
        !world.claimed.contains(cache_key_of(path)),
        rendered(source, path) == Ok::<Seq<u8>, Failure>(artifact),
    ensures
        ({
            let crowd = crowd_run(fresh_crowd(world, cache_dir, path, count), Ok(source), schedule);
            let place = cache_path_of(cache_dir, path);
            &&& crowd.jobs.len() == count
            &&& forall|i: int|
                0 <= i < count && (#[trigger] crowd.jobs[i]).stage is Finished ==> {
                    &&& crowd.jobs[i].stage == finished_with(Ok(artifact))
                    &&& crowd.world.files.contains_key(place)
                }
            &&& crowd.world.files.contains_key(place) ==> crowd.world.files[place] == artifact
            &&& crowd.world.files.remove(place) == world.files.remove(place)
            &&& forall|i: int, j: int|
                0 <= i < count && 0 <= j < count && holds_key((#[trigger] crowd.jobs[i]).stage)
                    && holds_key((#[trigger] crowd.jobs[j]).stage) ==> i == j
            &&& crowd.world.source_reads <= world.source_reads + 1
        }),
{
    lemma_fresh_crowd_is_coherent(world, cache_dir, path, artifact, count);
    lemma_schedule_keeps_coherence(
        fresh_crowd(world, cache_dir, path, count),
        cache_dir,
        path,
        source,
        artifact,
        world.source_reads,
        schedule,
    );
    lemma_schedule_touches_one_file(
        fresh_crowd(world, cache_dir, path, count),
        cache_dir,
        path,
        source,
        artifact,
        world.source_reads,
        schedule,
    );
}

/// Requests for one path leave the files of every other path alone.
pub proof fn lemma_schedule_touches_one_file(
    crowd: Crowd,
    cache_dir: Seq<char>,
    path: Seq<char>,
    source: Seq<u8>,
    artifact: Seq<u8>,
    reads_before: nat,
    schedule: Seq<int>,
)
    requires
        rendered(source, path) == Ok::<Seq<u8>, Failure>(artifact),
        coherent(crowd, cache_dir, path, artifact, reads_before),
    ensures
        crowd_run(crowd, Ok(source), schedule).world.files.remove(cache_path_of(cache_dir, path))
            == crowd.world.files.remove(cache_path_of(cache_dir, path)),
    decreases schedule.len(),
{
    if schedule.len() > 0 {
        let before = crowd_run(crowd, Ok(source), schedule.drop_last());
        lemma_schedule_touches_one_file(
            crowd,
            cache_dir,
            path,
            source,
            artifact,
            reads_before,
            schedule.drop_last(),
        );
        lemma_schedule_keeps_coherence(
            crowd,
            cache_dir,
            path,
            source,
            artifact,
            reads_before,
            schedule.drop_last(),
        );
        let turn = schedule.last();
        let place = cache_path_of(cache_dir, path);
        if 0 <= turn < before.jobs.len() {
            let job = before.jobs[turn];
            assert(job == Job { stage: job.stage, ..start_of(cache_dir, path) });
        }
        assert(crowd_step(before, Ok(source), turn).world.files.remove(place)
            =~= before.world.files.remove(place));
    }
}

} // verus!
