//! How a playback gets going: the file is opened and decoded once for its sample rate, opened and
//! decoded again for the samples, the samples before the wanted second are skipped, and the
//! output takes over. Each step is done outside and answered with a [`Reply`].
use vstd::prelude::*;

use crate::files::Track;
use crate::player::{MusicPlayer, PlayerState};
use crate::single::{Single, ZERO_BITS};

verus! {

/// What is to be done next.
#[derive(Clone, Copy, PartialEq, Eq, Structural, Debug)]
pub enum Stage {
    /// Open the file. Answered by `Opened`.
    Open,
    /// Decode it, for the sample rate. Answered by `Decoded`.
    Decode,
    /// Open the file again. Answered by `Opened`.
    Reopen { sample_rate: u32 },
    /// Decode it, for the samples. Answered by `Decoded`.
    Redecode { sample_rate: u32 },
    /// Count the samples before the wanted second. Answered by `Target`.
    Measure { sample_rate: u32 },
    /// Take one sample and drop it; `left` are still to go. Answered by `Pulled`.
    Skip { left: u64 },
    /// Hand the rest of the samples to an output at that volume. Answered by `Started`.
    Start { volume: Single },
    /// The file cannot be played.
    Failed,
    /// The file plays.
    Playing,
}

/// What came of a step.
#[derive(Clone, Copy, PartialEq, Eq, Structural, Debug)]
pub enum Reply {
    /// Whether the file could be opened.
    Opened(bool),
    /// The sample rate, where the file could be decoded.
    Decoded(Option<u32>),
    /// How many samples stand before the wanted second.
    Target(u64),
    /// Whether there was a sample.
    Pulled(bool),
    /// The moment at which the output started.
    Started(u128),
}

/// A playback on its way.
#[derive(Clone, Copy, PartialEq, Eq, Structural, Debug)]
pub struct PlayJob {
    /// The path of the file.
    pub path: u64,
    /// The second to start at.
    pub seconds: Single,
    pub stage: Stage,
}

pub open spec fn not_opened() -> Seq<char> {
    "Error: File could not be opened"@
}

pub open spec fn not_decoded() -> Seq<char> {
    "Error: Unsupported or corrupted file"@
}

impl Stage {
    /// `reply` is an answer to this step.
    pub open spec fn answered_by(self, reply: Reply) -> bool {
        match self {
            Stage::Open | Stage::Reopen { .. } => reply is Opened,
            Stage::Decode | Stage::Redecode { .. } => reply is Decoded,
            Stage::Measure { .. } => reply is Target,
            Stage::Skip { .. } => reply is Pulled,
            Stage::Start { .. } => reply is Started,
            Stage::Failed | Stage::Playing => false,
        }
    }

    /// The step after this one, in a player at that volume. It stays the same where `reply` is no
    /// answer to it.
    pub open spec fn after(self, volume: Single, reply: Reply) -> Stage {
        match (self, reply) {
            (Stage::Open, Reply::Opened(true)) => Stage::Decode,
            (Stage::Open, Reply::Opened(false)) => Stage::Failed,
            (Stage::Decode, Reply::Decoded(Some(sample_rate))) => Stage::Reopen { sample_rate },
            (Stage::Decode, Reply::Decoded(None)) => Stage::Failed,
            (Stage::Reopen { sample_rate }, Reply::Opened(true)) => Stage::Redecode { sample_rate },
            (Stage::Reopen { .. }, Reply::Opened(false)) => Stage::Failed,
            (Stage::Redecode { sample_rate }, Reply::Decoded(Some(_))) => Stage::Measure {
                sample_rate,
            },
            (Stage::Redecode { .. }, Reply::Decoded(None)) => Stage::Failed,
            (Stage::Measure { .. }, Reply::Target(count)) => Stage::skipping(
                count as int,
                volume,
            ),
            (Stage::Skip { left }, Reply::Pulled(true)) => Stage::skipping(left - 1, volume),
            (Stage::Skip { .. }, Reply::Pulled(false)) => Stage::Start { volume },
            (Stage::Start { .. }, Reply::Started(_)) => Stage::Playing,
            _ => self,
        }
    }

    /// The step at which `left` samples are to be skipped before the start at that volume.
    pub open spec fn skipping(left: int, volume: Single) -> Stage {
        if left > 0 {
            Stage::Skip { left: left as u64 }
        } else {
            Stage::Start { volume }
        }
    }

    /// How many kinds of steps can still follow.
    pub open spec fn steps_left(self) -> nat {
        match self {
            Stage::Open => 7,
            Stage::Decode => 6,
            Stage::Reopen { .. } => 5,
            Stage::Redecode { .. } => 4,
            Stage::Measure { .. } => 3,
            Stage::Skip { .. } => 2,
            Stage::Start { .. } => 1,
            Stage::Failed | Stage::Playing => 0,
        }
    }

    /// How many samples are still to be skipped.
    pub open spec fn samples_left(self) -> nat {
        match self {
            Stage::Skip { left } => left as nat,
            _ => 0,
        }
    }
}

impl PlayJob {
    /// The job after `reply`, in a player at that volume.
    pub open spec fn after(self, volume: Single, reply: Reply) -> PlayJob {
        PlayJob { stage: self.stage.after(volume, reply), ..self }
    }

    /// The job after all of `replies`, from the first on.
    pub open spec fn after_all(self, volume: Single, replies: Seq<Reply>) -> PlayJob
        decreases replies.len(),
    {
        if replies.len() == 0 {
            self
        } else {
            self.after_all(volume, replies.drop_last()).after(volume, replies.last())
        }
    }
}

impl PlayerState {
    /// The player after `reply` to the step of `job`. A failure changes the status, a start the
    /// playback, and anything else nothing.
    pub open spec fn told(self, job: PlayJob, reply: Reply) -> PlayerState {
        match (job.stage, reply) {
            (Stage::Open, Reply::Opened(false)) => self.saying(not_opened()),
            (Stage::Reopen { .. }, Reply::Opened(false)) => self.saying(not_opened()),
            (Stage::Decode, Reply::Decoded(None)) => self.saying(not_decoded()),
            (Stage::Redecode { .. }, Reply::Decoded(None)) => self.saying(not_decoded()),
            (Stage::Start { .. }, Reply::Started(now)) => self.playing(job.seconds, now),
            _ => self,
        }
    }

    /// The player after all of `replies` to the steps of `job`, from the first on.
    pub open spec fn told_all(self, job: PlayJob, replies: Seq<Reply>) -> PlayerState
        decreases replies.len(),
    {
        if replies.len() == 0 {
            self
        } else {
            self.told_all(job, replies.drop_last()).told(
                job.after_all(self.volume, replies.drop_last()),
                replies.last(),
            )
        }
    }

    /// The job that a request to play from that second starts, where a file is loaded.
    pub open spec fn job_from(self, seconds: Single) -> Option<PlayJob> {
        match self.current_file {
            Some(track) => Some(PlayJob { path: track.path, seconds, stage: Stage::Open }),
            None => None,
        }
    }

    /// The player after that request.
    pub open spec fn asked(self) -> PlayerState {
        if self.current_file is Some {
            self
        } else {
            self.saying("No file selected"@)
        }
    }
}

impl MusicPlayer {
    /// Asks for the current file from that second on.
    pub fn play_from(&mut self, seconds: Single) -> (res: Option<PlayJob>)
        requires
            old(self)@.wf(),
        ensures
            res == old(self)@.job_from(seconds),
            final(self)@ == old(self)@.asked(),
            final(self)@.wf(),
            old(self)@.current_file is Some ==> res == Some(
                PlayJob {
                    path: old(self)@.current_file->0.path,
                    seconds,
                    stage: Stage::Open,
                },
            ) && final(self)@ == old(self)@,
            old(self)@.current_file is None ==> res is None && final(self)@ == (PlayerState {
                status_text: "No file selected"@,
                ..old(self)@
            }),
    {
        match self.current_path() {
            Some(path) => Some(PlayJob { path, seconds, stage: Stage::Open }),
            None => {
                self.say("No file selected");
                None
            },
        }
    }

    /// Asks for the current file from the kept position on.
    pub fn play(&mut self) -> (res: Option<PlayJob>)
        requires
            old(self)@.wf(),
        ensures
            res == old(self)@.job_from(old(self)@.seek_position),
            final(self)@ == old(self)@.asked(),
            final(self)@.wf(),
            res is Some == old(self)@.current_file is Some,
            res matches Some(job) ==> job.seconds == old(self)@.seek_position,
    {
        let seconds = self.seek_position();
        self.play_from(seconds)
    }

    /// Keeps a position, and asks for the current file from there on.
    pub fn seek(&mut self, seconds: Single) -> (res: Option<PlayJob>)
        requires
            old(self)@.wf(),
        ensures
            res == old(self)@.job_from(seconds),
            final(self)@ == (PlayerState { seek_position: seconds, ..old(self)@ }).asked(),
            final(self)@.wf(),
            final(self)@.seek_position == seconds,
            res is Some == old(self)@.current_file is Some,
            res matches Some(job) ==> job.seconds == seconds,
    {
        self.move_to(seconds);
        self.play_from(seconds)
    }

    /// Loads a file, and asks for it from its start on.
    pub fn load_and_play(&mut self, track: Track, length: Option<u128>) -> (res: Option<PlayJob>)
        requires
            old(self)@.wf(),
        ensures
            final(self)@ == old(self)@.loaded(track, length),
            res == Some(
                PlayJob {
                    path: track.path,
                    seconds: (Single { bits: ZERO_BITS }),
                    stage: Stage::Open,
                },
            ),
            final(self)@.wf(),
    {
        self.set_current_file(track, length);
        self.play()
    }

    /// Takes a job one step on.
    pub fn step(&mut self, job: PlayJob, reply: Reply) -> (res: PlayJob)
        requires
            old(self)@.wf(),
        ensures
            res == job.after(old(self)@.volume, reply),
            final(self)@ == old(self)@.told(job, reply),
            final(self)@.wf(),
            res.path == job.path,
            res.seconds == job.seconds,
            res.stage matches Stage::Start { volume } ==> job.stage is Start || volume == old(
                self,
            )@.volume,
    {
        let stage = match (job.stage, reply) {
            (Stage::Open, Reply::Opened(opened)) => if opened {
                Stage::Decode
            } else {
                self.say("Error: File could not be opened");
                Stage::Failed
            },
            (Stage::Decode, Reply::Decoded(decoded)) => match decoded {
                Some(sample_rate) => Stage::Reopen { sample_rate },
                None => {
                    self.say("Error: Unsupported or corrupted file");
                    Stage::Failed
                },
            },
            (Stage::Reopen { sample_rate }, Reply::Opened(opened)) => if opened {
                Stage::Redecode { sample_rate }
            } else {
                self.say("Error: File could not be opened");
                Stage::Failed
            },
            (Stage::Redecode { sample_rate }, Reply::Decoded(decoded)) => match decoded {
                Some(_) => Stage::Measure { sample_rate },
                None => {
                    self.say("Error: Unsupported or corrupted file");
                    Stage::Failed
                },
            },
            (Stage::Measure { .. }, Reply::Target(count)) => if count > 0 {
                Stage::Skip { left: count }
            } else {
                Stage::Start { volume: self.volume() }
            },
            (Stage::Skip { left }, Reply::Pulled(more)) => if more && left > 1 {
                Stage::Skip { left: left - 1 }
            } else {
                Stage::Start { volume: self.volume() }
            },
            (Stage::Start { .. }, Reply::Started(now)) => {
                self.note_playing(job.seconds, now);
                Stage::Playing
            },
            _ => job.stage,
        };
        PlayJob { path: job.path, seconds: job.seconds, stage }
    }
}

/// Every answer brings a job nearer to its end, and a reply that is no answer changes nothing.
pub proof fn law_jobs_end(state: PlayerState, job: PlayJob, reply: Reply)
    ensures
        job.stage.answered_by(reply) ==> {
            ||| job.after(state.volume, reply).stage.steps_left() < job.stage.steps_left()
            ||| job.after(state.volume, reply).stage.steps_left() == job.stage.steps_left()
                && job.after(state.volume, reply).stage.samples_left() < job.stage.samples_left()
        },
        !job.stage.answered_by(reply) ==> job.after(state.volume, reply) == job && state.told(
            job,
            reply,
        ) == state,
{
}

/// Whatever the replies are: until a job ends the player does not change, and its output is started
/// at the kept volume; one that fails has changed the status alone; and one that succeeds has the
/// file playing from the wanted second on, at the same volume.
pub proof fn law_job_outcome(state: PlayerState, job: PlayJob, replies: Seq<Reply>)
    requires
        job.stage is Open,
    ensures
        job.after_all(state.volume, replies).path == job.path,
        job.after_all(state.volume, replies).seconds == job.seconds,
        match job.after_all(state.volume, replies).stage {
            Stage::Failed => {
                ||| state.told_all(job, replies) == state.saying(not_opened())
                ||| state.told_all(job, replies) == state.saying(not_decoded())
            },
            Stage::Playing => exists|now: u128|
                state.told_all(job, replies) == #[trigger] state.playing(job.seconds, now),
            Stage::Start { volume } => volume == state.volume && state.told_all(job, replies)
                == state,
            _ => state.told_all(job, replies) == state,
        },
    decreases replies.len(),
{
    if replies.len() > 0 {
        let init = replies.drop_last();
        law_job_outcome(state, job, init);
        let mid = job.after_all(state.volume, init);
        if mid.stage is Start && replies.last() is Started {
            assert(state.told_all(job, replies) == state.playing(
                job.seconds,
                replies.last()->Started_0,
            ));
        }
    }
}

/// Of a file with enough samples exactly as many are skipped as stand before the wanted second.
pub proof fn law_skips_to_target(
    job: PlayJob,
    volume: Single,
    count: u64,
    taken: Seq<Reply>,
)
    requires
        job.stage is Measure,
        taken.len() <= count,
        forall|i: int| 0 <= i < taken.len() ==> #[trigger] taken[i] == Reply::Pulled(true),
    ensures
        job.after(volume, Reply::Target(count)).after_all(volume, taken).stage == Stage::skipping(
            count - taken.len(),
            volume,
        ),
    decreases taken.len(),
{
    if taken.len() > 0 {
        law_skips_to_target(job, volume, count, taken.drop_last());
        assert(taken.last() == Reply::Pulled(true));
    }
}

/// A file that ends before the wanted second ends the skipping too.
pub proof fn law_short_file_ends_skipping(job: PlayJob, volume: Single, count: u64, taken: u64)
    requires
        job.stage is Measure,
        taken < count,
    ensures
        job.after(volume, Reply::Target(count)).after_all(
            volume,
            samples_taken(taken).push(Reply::Pulled(false)),
        ).stage == (Stage::Start { volume }),
{
    law_skips_to_target(job, volume, count, samples_taken(taken));
    assert(samples_taken(taken).push(Reply::Pulled(false)).drop_last() =~= samples_taken(taken));
}

/// The replies of a file that opens and decodes both times, up to the count of samples to skip.
pub open spec fn readied(first_rate: u32, second_rate: u32, count: u64) -> Seq<Reply> {
    seq![
        Reply::Opened(true),
        Reply::Decoded(Some(first_rate)),
        Reply::Opened(true),
        Reply::Decoded(Some(second_rate)),
        Reply::Target(count),
    ]
}

/// The replies to the skipping of that many samples.
pub open spec fn samples_taken(taken: u64) -> Seq<Reply> {
    Seq::new(taken as nat, |i: int| Reply::Pulled(true))
}

/// A file that opens and decodes both times, and is long enough, plays in the end, from the moment
/// of its start on.
pub proof fn law_good_file_plays(
    state: PlayerState,
    job: PlayJob,
    first_rate: u32,
    second_rate: u32,
    count: u64,
    now: u128,
)
    requires
        job.stage is Open,
    ensures
        ({
            let replies = readied(first_rate, second_rate, count) + samples_taken(count);
            &&& job.after_all(state.volume, replies).stage == (Stage::Start {
                volume: state.volume,
            })
            &&& job.after_all(state.volume, replies.push(Reply::Started(now))).stage is Playing
            &&& state.told_all(job, replies.push(Reply::Started(now))) == state.playing(
                job.seconds,
                now,
            )
        }),
{
    let measuring = PlayJob { stage: Stage::Measure { sample_rate: first_rate }, ..job };
    law_skips_to_target(measuring, state.volume, count, samples_taken(count));
    lemma_started(state, job, first_rate, second_rate, count, samples_taken(count), now);
}

/// A file that opens and decodes both times, and ends before the wanted second, is played all the
/// same, with nothing left of it.
pub proof fn law_short_file_plays(
    state: PlayerState,
    job: PlayJob,
    first_rate: u32,
    second_rate: u32,
    count: u64,
    taken: u64,
    now: u128,
)
    requires
        job.stage is Open,
        taken < count,
    ensures
        ({
            let replies = readied(first_rate, second_rate, count) + samples_taken(taken).push(
                Reply::Pulled(false),
            );
            &&& job.after_all(state.volume, replies).stage == (Stage::Start {
                volume: state.volume,
            })
            &&& job.after_all(state.volume, replies.push(Reply::Started(now))).stage is Playing
            &&& state.told_all(job, replies.push(Reply::Started(now))) == state.playing(
                job.seconds,
                now,
            )
        }),
{
    let measuring = PlayJob { stage: Stage::Measure { sample_rate: first_rate }, ..job };
    let skipping = samples_taken(taken).push(Reply::Pulled(false));
    law_short_file_ends_skipping(measuring, state.volume, count, taken);
    lemma_started(state, job, first_rate, second_rate, count, skipping, now);
}

/// Once the skipping has led to the start, the file plays from the moment of its start on.
proof fn lemma_started(
    state: PlayerState,
    job: PlayJob,
    first_rate: u32,
    second_rate: u32,
    count: u64,
    skipping: Seq<Reply>,
    now: u128,
)
    requires
        job.stage is Open,
        (PlayJob { stage: Stage::Measure { sample_rate: first_rate }, ..job }).after(
            state.volume,
            Reply::Target(count),
        ).after_all(state.volume, skipping).stage == (Stage::Start { volume: state.volume }),
    ensures
        ({
            let replies = readied(first_rate, second_rate, count) + skipping;
            &&& job.after_all(state.volume, replies).stage == (Stage::Start {
                volume: state.volume,
            })
            &&& job.after_all(state.volume, replies.push(Reply::Started(now))).stage is Playing
            &&& state.told_all(job, replies.push(Reply::Started(now))) == state.playing(
                job.seconds,
                now,
            )
        }),
{
    let opening = readied(first_rate, second_rate, count);
    let replies = opening + skipping;
    let measuring = PlayJob { stage: Stage::Measure { sample_rate: first_rate }, ..job };
    assert(job.after_all(state.volume, opening) == measuring.after(
        state.volume,
        Reply::Target(count),
    )) by {
        reveal_with_fuel(PlayJob::after_all, 6);
        assert(opening.drop_last() =~= opening.take(4));
        assert(opening.take(4).drop_last() =~= opening.take(3));
        assert(opening.take(3).drop_last() =~= opening.take(2));
        assert(opening.take(2).drop_last() =~= opening.take(1));
        assert(opening.take(1).drop_last() =~= opening.take(0));
    }
    lemma_after_both(job, state.volume, opening, skipping);
    assert(replies.push(Reply::Started(now)).drop_last() =~= replies);
    law_job_outcome(state, job, replies);
}

proof fn lemma_after_both(job: PlayJob, volume: Single, first: Seq<Reply>, then: Seq<Reply>)
    ensures
        job.after_all(volume, first + then) == job.after_all(volume, first).after_all(volume, then),
    decreases then.len(),
{
    if then.len() == 0 {
        assert(first + then =~= first);
    } else {
        lemma_after_both(job, volume, first, then.drop_last());
        assert((first + then).drop_last() =~= first + then.drop_last());
    }
}

/// A request to play leads to a job for the current file, from the wanted second on and with
/// nothing done yet, and changes nothing. Without a current file it leads to none, and says so.
pub proof fn law_request_is_for_current_file(state: PlayerState, seconds: Single)
    ensures
        state.current_file matches Some(track) ==> state.job_from(seconds) == Some(
            PlayJob { path: track.path, seconds, stage: Stage::Open },
        ) && state.asked() == state,
        state.current_file is None ==> state.job_from(seconds) is None && state.asked() == (
        PlayerState { status_text: "No file selected"@, ..state }),
{
}

/// After the file was opened and decoded twice, the samples are counted at the sample rate of the
/// first decoding, whatever the second one gave.
pub proof fn law_first_sample_rate_counts(
    job: PlayJob,
    volume: Single,
    first_rate: u32,
    second_rate: u32,
)
    requires
        job.stage is Open,
    ensures
        job.after_all(
            volume,
            seq![
                Reply::Opened(true),
                Reply::Decoded(Some(first_rate)),
                Reply::Opened(true),
                Reply::Decoded(Some(second_rate)),
            ],
        ) == (PlayJob {
            path: job.path,
            seconds: job.seconds,
            stage: Stage::Measure { sample_rate: first_rate },
        }),
{
    let replies = seq![
        Reply::Opened(true),
        Reply::Decoded(Some(first_rate)),
        Reply::Opened(true),
        Reply::Decoded(Some(second_rate)),
    ];
    reveal_with_fuel(PlayJob::after_all, 5);
    assert(replies.drop_last() =~= replies.take(3));
    assert(replies.take(3).drop_last() =~= replies.take(2));
    assert(replies.take(2).drop_last() =~= replies.take(1));
    assert(replies.take(1).drop_last() =~= replies.take(0));
}

/// The job after some replies and one more is what the one more makes of the job after those.
pub proof fn law_replies_follow_each_other(
    state: PlayerState,
    job: PlayJob,
    replies: Seq<Reply>,
    reply: Reply,
)
    ensures
        job.after_all(state.volume, Seq::empty()) == job,
        job.after_all(state.volume, replies.push(reply)) == job.after_all(
            state.volume,
            replies,
        ).after(state.volume, reply),
        state.told_all(job, Seq::empty()) == state,
        state.told_all(job, replies.push(reply)) == state.told_all(job, replies).told(
            job.after_all(state.volume, replies),
            reply,
        ),
{
    assert(replies.push(reply).drop_last() =~= replies);
}

/// No reply changes the file of a job or the second at which it is to start.
pub proof fn law_job_keeps_its_file(job: PlayJob, volume: Single, replies: Seq<Reply>)
    ensures
        job.after_all(volume, replies).path == job.path,
        job.after_all(volume, replies).seconds == job.seconds,
    decreases replies.len(),
{
    if replies.len() > 0 {
        law_job_keeps_its_file(job, volume, replies.drop_last());
    }
}

/// A file that opens is decoded next: for its sample rate the first time, and with that rate kept
/// the second.
pub proof fn law_opened_file_is_decoded(job: PlayJob, volume: Single, sample_rate: u32)
    ensures
        job.stage is Open ==> job.after(volume, Reply::Opened(true)).stage is Decode,
        job.stage is Decode ==> job.after(volume, Reply::Decoded(Some(sample_rate))).stage == (
        Stage::Reopen { sample_rate }),
        job.stage == (Stage::Reopen { sample_rate }) ==> job.after(
            volume,
            Reply::Opened(true),
        ).stage == (Stage::Redecode { sample_rate }),
        forall|other: u32|
            job.stage == (Stage::Redecode { sample_rate }) ==> (#[trigger] job.after(
                volume,
                Reply::Decoded(Some(other)),
            )).stage == (Stage::Measure { sample_rate }),
{
}

/// A file that does not open, the first time or the second, ends the job, and the status says that
/// it could not be opened. Nothing else changes: what played before goes on.
pub proof fn law_unopened_file_fails(state: PlayerState, job: PlayJob)
    requires
        job.stage is Open || job.stage is Reopen,
    ensures
        job.after(state.volume, Reply::Opened(false)).stage is Failed,
        state.told(job, Reply::Opened(false)) == (PlayerState {
            status_text: "Error: File could not be opened"@,
            ..state
        }),
        state.told(job, Reply::Opened(true)) == state,
{
}

/// A file that cannot be decoded, the first time or the second, ends the job, and the status says
/// that it is unsupported or corrupted. Nothing else changes: what played before goes on.
pub proof fn law_undecoded_file_fails(state: PlayerState, job: PlayJob, sample_rate: u32)
    requires
        job.stage is Decode || job.stage is Redecode,
    ensures
        job.after(state.volume, Reply::Decoded(None)).stage is Failed,
        state.told(job, Reply::Decoded(None)) == (PlayerState {
            status_text: "Error: Unsupported or corrupted file"@,
            ..state
        }),
        state.told(job, Reply::Decoded(Some(sample_rate))) == state,
{
}

/// While fewer samples were taken than stand before the wanted second, the rest of them is still
/// to go; once as many were taken, the output starts, at the volume of the player. The player does
/// not change on the way.
pub proof fn law_each_sample_is_counted(
    state: PlayerState,
    job: PlayJob,
    count: u64,
    taken: Seq<Reply>,
)
    requires
        job.stage is Measure,
        taken.len() <= count,
        forall|i: int| 0 <= i < taken.len() ==> #[trigger] taken[i] == Reply::Pulled(true),
    ensures
        taken.len() < count ==> job.after(state.volume, Reply::Target(count)).after_all(
            state.volume,
            taken,
        ).stage == (Stage::Skip { left: (count - taken.len()) as u64 }),
        taken.len() == count ==> job.after(state.volume, Reply::Target(count)).after_all(
            state.volume,
            taken,
        ).stage == (Stage::Start { volume: state.volume }),
        state.told(job, Reply::Target(count)) == state,
{
    law_skips_to_target(job, state.volume, count, taken);
}

/// One sample less is to go after each that is taken; with the last of them, or where the file
/// ends, the output starts at the volume of the player. The player does not change on the way.
pub proof fn law_skipping_ends(state: PlayerState, job: PlayJob, left: u64)
    requires
        job.stage == (Stage::Skip { left }),
    ensures
        left > 1 ==> job.after(state.volume, Reply::Pulled(true)).stage == (Stage::Skip {
            left: (left - 1) as u64,
        }),
        left <= 1 ==> job.after(state.volume, Reply::Pulled(true)).stage == (Stage::Start {
            volume: state.volume,
        }),
        job.after(state.volume, Reply::Pulled(false)).stage == (Stage::Start {
            volume: state.volume,
        }),
        state.told(job, Reply::Pulled(true)) == state,
        state.told(job, Reply::Pulled(false)) == state,
{
}

/// Once the output has started the file plays: from that moment on, from the second of the job on,
/// not paused, and with nothing else changed.
pub proof fn law_started_output_plays(state: PlayerState, job: PlayJob, now: u128)
    requires
        job.stage is Start,
    ensures
        job.after(state.volume, Reply::Started(now)).stage is Playing,
        state.told(job, Reply::Started(now)) == (PlayerState {
            sink: true,
            started_at: Some(now),
            paused_at: None,
            accumulated_paused: 0,
            seek_position: job.seconds,
            status_text: "Playing"@,
            ..state
        }),
{
}

/// A job that has ended stays as it is, whatever reply comes, and changes the player no more. So
/// does any job on a reply to another step.
pub proof fn law_stray_reply_changes_nothing(state: PlayerState, job: PlayJob, reply: Reply)
    requires
        match job.stage {
            Stage::Open | Stage::Reopen { .. } => !(reply is Opened),
            Stage::Decode | Stage::Redecode { .. } => !(reply is Decoded),
            Stage::Measure { .. } => !(reply is Target),
            Stage::Skip { .. } => !(reply is Pulled),
            Stage::Start { .. } => !(reply is Started),
            Stage::Failed | Stage::Playing => true,
        },
    ensures
        job.after(state.volume, reply) == job,
        state.told(job, reply) == state,
{
}

/// From the request to the sound: a file that opens and decodes both times, and has the samples to
/// skip, plays in the end, with its time at zero at the start and its status saying so.
pub proof fn law_request_leads_to_sound(
    state: PlayerState,
    track: Track,
    seconds: Single,
    first_rate: u32,
    second_rate: u32,
    count: u64,
    now: u128,
    later: u128,
)
    requires
        state.current_file == Some(track),
        now <= later,
    ensures
        ({
            let job = state.job_from(seconds)->0;
            let replies = seq![
                Reply::Opened(true),
                Reply::Decoded(Some(first_rate)),
                Reply::Opened(true),
                Reply::Decoded(Some(second_rate)),
                Reply::Target(count),
            ] + Seq::new(count as nat, |i: int| Reply::Pulled(true));
            let after = state.told_all(job, replies.push(Reply::Started(now)));
            &&& job.path == track.path
            &&& job.seconds == seconds
            &&& job.after_all(state.volume, replies).stage == (Stage::Start {
                volume: state.volume,
            })
            &&& after.sink
            &&& after.elapsed(later) == Some(later - now)
            &&& after.seek_position == seconds
            &&& after.current_file == Some(track)
            &&& after.volume == state.volume
            &&& after.status_text == "Playing"@
        }),
{
    let job = state.job_from(seconds)->0;
    law_good_file_plays(state, job, first_rate, second_rate, count, now);
    assert(samples_taken(count) =~= Seq::new(count as nat, |i: int| Reply::Pulled(true)));
    assert(readied(first_rate, second_rate, count) =~= seq![
        Reply::Opened(true),
        Reply::Decoded(Some(first_rate)),
        Reply::Opened(true),
        Reply::Decoded(Some(second_rate)),
        Reply::Target(count),
    ]);
}

} // verus!
