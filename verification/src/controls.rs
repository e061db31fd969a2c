//! What a button or a slider does, to the player and to the output.
use vstd::prelude::*;

use crate::playback::{PlayJob, Stage};
use crate::player::{MusicPlayer, PlayerState};
use crate::single::{Single, THREE_TENTHS_BITS, ZERO_BITS};

verus! {

/// A button, or a slider with the value that it was moved to.
#[derive(Clone, Copy, PartialEq, Eq, Structural, Debug)]
pub enum Control {
    Play,
    Pause,
    Stop,
    Mute,
    Unmute,
    Position(Single),
    Volume(Single),
}

/// What is to be done about the output.
#[derive(Clone, Copy, PartialEq, Eq, Structural, Debug)]
pub enum Command {
    Nothing,
    /// Take this job to its end.
    Run(PlayJob),
    PauseOutput,
    /// Stop the output, and let go of it.
    StopOutput,
    SetVolume(Single),
}

impl PlayerState {
    /// The player after a control was used.
    pub open spec fn used(self, control: Control, now: u128) -> PlayerState {
        match control {
            Control::Play => self.asked(),
            Control::Pause => self.paused(now),
            Control::Stop => self.stopped(),
            Control::Mute => self.muted(),
            Control::Unmute => self.unmuted(),
            Control::Position(seconds) => (PlayerState {
                seek_position: seconds,
                ..self
            }).asked(),
            Control::Volume(volume) => self.at_volume(volume),
        }
    }

    /// What is to be done about the output then. Where there is none, nothing but a playback is.
    pub open spec fn command(self, control: Control) -> Command {
        match control {
            Control::Play => run(self.job_from(self.seek_position)),
            Control::Position(seconds) => run(self.job_from(seconds)),
            Control::Pause => self.if_attached(Command::PauseOutput),
            Control::Stop => self.if_attached(Command::StopOutput),
            Control::Mute => self.if_attached(Command::SetVolume(Single { bits: ZERO_BITS })),
            Control::Unmute => self.if_attached(
                Command::SetVolume(Single { bits: THREE_TENTHS_BITS }),
            ),
            Control::Volume(volume) => self.if_attached(Command::SetVolume(volume)),
        }
    }

    pub open spec fn if_attached(self, command: Command) -> Command {
        if self.sink {
            command
        } else {
            Command::Nothing
        }
    }
}

pub open spec fn run(job: Option<PlayJob>) -> Command {
    match job {
        Some(job) => Command::Run(job),
        None => Command::Nothing,
    }
}

fn run_job(job: Option<PlayJob>) -> (res: Command)
    ensures
        res == run(job),
{
    match job {
        Some(job) => Command::Run(job),
        None => Command::Nothing,
    }
}

fn when(attached: bool, command: Command) -> (res: Command)
    ensures
        res == if attached {
            command
        } else {
            Command::Nothing
        },
{
    if attached {
        command
    } else {
        Command::Nothing
    }
}

impl MusicPlayer {
    /// Deals with the use of a control at that moment.
    pub fn operate(&mut self, control: Control, now: u128) -> (res: Command)
        requires
            old(self)@.wf(),
            control is Pause ==> (old(self)@.started_at matches Some(started) ==> started <= now),
        ensures
            res == old(self)@.command(control),
            final(self)@ == old(self)@.used(control, now),
            final(self)@.wf(),
            control is Pause ==> res == if old(self)@.sink {
                Command::PauseOutput
            } else {
                Command::Nothing
            },
            control is Stop ==> res == if old(self)@.sink {
                Command::StopOutput
            } else {
                Command::Nothing
            },
            res is Run ==> control is Play || control is Position,
            res is SetVolume ==> res == Command::SetVolume(final(self)@.volume),
    {
        match control {
            Control::Play => run_job(self.play()),
            Control::Position(seconds) => run_job(self.seek(seconds)),
            Control::Pause => when(self.pause(now), Command::PauseOutput),
            Control::Stop => when(self.stop(), Command::StopOutput),
            Control::Mute => when(self.mute(), Command::SetVolume(Single::zero())),
            Control::Unmute => when(
                self.unmute(),
                Command::SetVolume(Single { bits: THREE_TENTHS_BITS }),
            ),
            Control::Volume(volume) => when(self.set_volume(volume), Command::SetVolume(volume)),
        }
    }
}

/// The output is told the volume that the player keeps, and nothing where there is no output.
pub proof fn law_output_has_kept_volume(state: PlayerState, control: Control, now: u128)
    ensures
        state.command(control) matches Command::SetVolume(volume) ==> state.used(
            control,
            now,
        ).volume == volume,
        !state.sink ==> state.command(control) is Nothing || state.command(control) is Run,
        state.used(control, now).sink == (state.sink && !(control is Stop)),
{
}

/// No control changes the list of files, what is selected in it, or which file is the current one.
pub proof fn law_controls_leave_files(state: PlayerState, control: Control, now: u128)
    ensures
        state.used(control, now).music_files == state.music_files,
        state.used(control, now).selected_file_index == state.selected_file_index,
        state.used(control, now).file_to_select == state.file_to_select,
        state.used(control, now).current_file == state.current_file,
        state.used(control, now).total_length == state.total_length,
        state.used(control, now).current_directory == state.current_directory,
{
}

/// A stop, and then a play, asks for the current file from its start.
pub proof fn law_play_after_stop(state: PlayerState, now: u128)
    requires
        state.current_file is Some,
    ensures
        state.used(Control::Stop, now).command(Control::Play) matches Command::Run(job)
            && job.path == state.current_file->0.path && job.seconds == (Single {
            bits: ZERO_BITS,
        }),
{
}

/// Without a current file a play starts nothing and says so; the rest of the player is as it was.
pub proof fn law_play_needs_file(state: PlayerState, now: u128)
    requires
        state.current_file is None,
    ensures
        state.command(Control::Play) is Nothing,
        state.used(Control::Play, now) == state.saying("No file selected"@),
{
}

/// With an output, a pause pauses it, a stop stops it, and a change of the volume sets just that
/// volume: zero to mute, three tenths to unmute, and else the one of the slider.
pub proof fn law_output_is_told(state: PlayerState, volume: Single)
    requires
        state.sink,
    ensures
        state.command(Control::Pause) == Command::PauseOutput,
        state.command(Control::Stop) == Command::StopOutput,
        state.command(Control::Mute) == Command::SetVolume(Single { bits: 0 }),
        state.command(Control::Unmute) == Command::SetVolume(Single { bits: 0x3e99_999a }),
        state.command(Control::Volume(volume)) == Command::SetVolume(volume),
{
}

/// Without an output there is nothing to pause, to stop or to set the volume of.
pub proof fn law_nothing_without_output(state: PlayerState, volume: Single)
    requires
        !state.sink,
    ensures
        state.command(Control::Pause) == Command::Nothing,
        state.command(Control::Stop) == Command::Nothing,
        state.command(Control::Mute) == Command::Nothing,
        state.command(Control::Unmute) == Command::Nothing,
        state.command(Control::Volume(volume)) == Command::Nothing,
{
}

/// With or without an output, a play asks for the current file from the kept position on, and a
/// move of the position from the new one on, which is then kept. Neither does more.
pub proof fn law_play_and_seek_run(
    state: PlayerState,
    path: u64,
    seconds: Single,
    now: u128,
)
    requires
        state.current_file is Some,
        state.current_file->0.path == path,
    ensures
        state.command(Control::Play) == Command::Run(
            PlayJob { path, seconds: state.seek_position, stage: Stage::Open },
        ),
        state.used(Control::Play, now) == state,
        state.command(Control::Position(seconds)) == Command::Run(
            PlayJob { path, seconds, stage: Stage::Open },
        ),
        state.used(Control::Position(seconds), now) == (PlayerState {
            seek_position: seconds,
            ..state
        }),
{
}

/// Without a current file a play or a move of the position runs nothing and says so; the position
/// is kept all the same.
pub proof fn law_no_file_nothing_to_run(state: PlayerState, seconds: Single, now: u128)
    requires
        state.current_file is None,
    ensures
        state.command(Control::Play) == Command::Nothing,
        state.command(Control::Position(seconds)) == Command::Nothing,
        state.used(Control::Play, now) == (PlayerState {
            status_text: "No file selected"@,
            ..state
        }),
        state.used(Control::Position(seconds), now) == (PlayerState {
            seek_position: seconds,
            status_text: "No file selected"@,
            ..state
        }),
{
}

/// What each of the other controls leaves behind: a pause its moment and its status, a stop no
/// output and the start of the file, and a change of the volume that volume.
pub proof fn law_controls_change_state(state: PlayerState, volume: Single, now: u128)
    ensures
        state.sink ==> state.used(Control::Pause, now) == (PlayerState {
            paused_at: Some(now),
            status_text: "Paused"@,
            ..state
        }),
        !state.sink ==> state.used(Control::Pause, now) == state,
        state.used(Control::Stop, now) == (PlayerState {
            sink: false,
            started_at: None,
            paused_at: None,
            accumulated_paused: 0,
            seek_position: Single { bits: 0 },
            bars: state.used(Control::Stop, now).bars,
            status_text: "Stopped"@,
            ..state
        }),
        state.used(Control::Mute, now) == (PlayerState {
            volume: Single { bits: 0 },
            status_text: "Muted"@,
            ..state
        }),
        state.used(Control::Unmute, now) == (PlayerState {
            volume: Single { bits: 0x3e99_999a },
            status_text: "Playing"@,
            ..state
        }),
        state.used(Control::Volume(volume), now) == (PlayerState { volume, ..state }),
{
}

/// A pause at one moment and a play at a later one do not lose the position: the play asks for the
/// same second as before the pause.
pub proof fn law_play_after_pause(state: PlayerState, now: u128)
    ensures
        state.used(Control::Pause, now).command(Control::Play) == state.command(Control::Play),
{
}

/// After a stop every bar and every mark is at zero.
pub proof fn law_stop_flattens_bars(state: PlayerState, now: u128, i: int)
    requires
        0 <= i < 32,
    ensures
        state.used(Control::Stop, now).bars.body.len() == 32,
        state.used(Control::Stop, now).bars.peak.len() == 32,
        state.used(Control::Stop, now).bars.body[i].bits == 0,
        state.used(Control::Stop, now).bars.peak[i].bits == 0,
{
}

} // verus!
