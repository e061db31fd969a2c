//! The state of the player, and what the buttons do to it.
//!
//! Paths are the numbers of [`Track`]. Moments and lengths are nanoseconds; moments are counted
//! from the start of the program by a clock that never goes back. The output itself is not here:
//! the state says whether there is one.
use vstd::prelude::*;
use vstd::string::*;

use crate::files::{
    find_path, is_first, is_listing, law_place_is_the_first, load_music_files, music_among,
    place_of, Candidate, Track,
};
use crate::playback::{PlayJob, Stage};
use crate::single::{Single, THREE_TENTHS_BITS, ZERO_BITS};
use crate::text::joined;
use crate::visualizer::{law_flat_bars_are_zero, Bars, Blend, Visualizer, BAR_COUNT};

verus! {

/// What the player knows.
#[verifier::ext_equal]
pub struct PlayerState {
    /// Whether an output is attached.
    pub sink: bool,
    pub current_file: Option<Track>,
    pub status_text: Seq<char>,
    /// The length of the current file, where it could be read.
    pub total_length: Option<u128>,
    pub started_at: Option<u128>,
    pub paused_at: Option<u128>,
    pub accumulated_paused: u128,
    pub volume: Single,
    /// The second of the file at which the playback started.
    pub seek_position: Single,
    pub bars: Bars,
    pub music_files: Seq<Track>,
    pub current_directory: u64,
    pub selected_file_index: Option<usize>,
    /// A file that was clicked on, until it is dealt with.
    pub file_to_select: Option<Track>,
}

/// The time from `earlier` to `later`, and none where they stand the other way around.
pub open spec fn since(later: u128, earlier: u128) -> int {
    if later >= earlier {
        later - earlier
    } else {
        0
    }
}

impl PlayerState {
    pub open spec fn wf(self) -> bool {
        &&& self.sink <==> self.started_at is Some
        &&& self.paused_at matches Some(paused) ==> self.started_at matches Some(started)
            && started <= paused
        &&& self.accumulated_paused == 0
        &&& self.total_length is Some ==> self.current_file is Some
        &&& self.bars.wf()
        &&& self.selected_file_index matches Some(i) ==> i < self.music_files.len()
    }

    pub open spec fn initial(directory: u64, files: Seq<Track>) -> PlayerState {
        PlayerState {
            sink: false,
            current_file: None,
            status_text: "Select a file to start"@,
            total_length: None,
            started_at: None,
            paused_at: None,
            accumulated_paused: 0,
            volume: Single { bits: THREE_TENTHS_BITS },
            seek_position: Single { bits: ZERO_BITS },
            bars: Bars::flat(),
            music_files: files,
            current_directory: directory,
            selected_file_index: None,
            file_to_select: None,
        }
    }

    /// The same, with another status.
    pub open spec fn saying(self, text: Seq<char>) -> PlayerState {
        PlayerState { status_text: text, ..self }
    }

    /// The list is replaced, and nothing in it is selected.
    pub open spec fn listing(self, files: Seq<Track>) -> PlayerState {
        PlayerState { music_files: files, selected_file_index: None, ..self }
    }

    /// A file is loaded. It is selected where it is in the list; else the selection stays. What is
    /// playing goes on.
    pub open spec fn loaded(self, track: Track, length: Option<u128>) -> PlayerState {
        PlayerState {
            current_file: Some(track),
            status_text: "Loaded: "@ + track.name@,
            total_length: length,
            seek_position: Single { bits: ZERO_BITS },
            bars: Bars::flat(),
            selected_file_index: match place_of(self.music_files, track.path) {
                Some(i) => Some(i),
                None => self.selected_file_index,
            },
            ..self
        }
    }

    /// The playback runs from that second of the file on.
    pub open spec fn playing(self, seconds: Single, now: u128) -> PlayerState {
        PlayerState {
            sink: true,
            started_at: Some(now),
            paused_at: None,
            accumulated_paused: 0,
            seek_position: seconds,
            status_text: "Playing"@,
            ..self
        }
    }

    pub open spec fn paused(self, now: u128) -> PlayerState {
        if self.sink {
            PlayerState { paused_at: Some(now), status_text: "Paused"@, ..self }
        } else {
            self
        }
    }

    pub open spec fn stopped(self) -> PlayerState {
        PlayerState {
            sink: false,
            started_at: None,
            paused_at: None,
            accumulated_paused: 0,
            seek_position: Single { bits: ZERO_BITS },
            bars: Bars::flat(),
            status_text: "Stopped"@,
            ..self
        }
    }

    pub open spec fn at_volume(self, volume: Single) -> PlayerState {
        PlayerState { volume, ..self }
    }

    pub open spec fn muted(self) -> PlayerState {
        self.at_volume(Single { bits: ZERO_BITS }).saying("Muted"@)
    }

    pub open spec fn unmuted(self) -> PlayerState {
        self.at_volume(Single { bits: THREE_TENTHS_BITS }).saying("Playing"@)
    }

    /// How long the file has been playing, without the time spent paused.
    pub open spec fn elapsed(self, now: u128) -> Option<int> {
        match self.started_at {
            None => None,
            Some(started) => {
                let paused = match self.paused_at {
                    Some(paused) => since(now, paused),
                    None => 0,
                };
                Some(since(now, started) - self.accumulated_paused - paused)
            },
        }
    }

    /// The clicked file, where it is still in the list.
    pub open spec fn chosen(self) -> Option<Track> {
        match self.file_to_select {
            Some(track) => if place_of(self.music_files, track.path) is Some {
                Some(track)
            } else {
                None
            },
            None => None,
        }
    }

    /// The click is dealt with: its file is selected, where it is still in the list.
    pub open spec fn chosen_selected(self) -> PlayerState {
        PlayerState {
            file_to_select: None,
            selected_file_index: match self.chosen() {
                Some(track) => place_of(self.music_files, track.path),
                None => self.selected_file_index,
            },
            ..self
        }
    }
}

pub struct MusicPlayer {
    sink: bool,
    current_file: Option<Track>,
    status_text: String,
    total_length: Option<u128>,
    started_at: Option<u128>,
    paused_at: Option<u128>,
    accumulated_paused: u128,
    volume: Single,
    seek_position: Single,
    visualizer: Visualizer,
    music_files: Vec<Track>,
    current_directory: u64,
    selected_file_index: Option<usize>,
    file_to_select: Option<Track>,
}

impl View for MusicPlayer {
    type V = PlayerState;

    closed spec fn view(&self) -> PlayerState {
        PlayerState {
            sink: self.sink,
            current_file: self.current_file,
            status_text: self.status_text@,
            total_length: self.total_length,
            started_at: self.started_at,
            paused_at: self.paused_at,
            accumulated_paused: self.accumulated_paused,
            volume: self.volume,
            seek_position: self.seek_position,
            bars: self.visualizer@,
            music_files: self.music_files@,
            current_directory: self.current_directory,
            selected_file_index: self.selected_file_index,
            file_to_select: self.file_to_select,
        }
    }
}

fn time_since(later: u128, earlier: u128) -> (res: u128)
    ensures
        res == since(later, earlier),
{
    if later >= earlier {
        later - earlier
    } else {
        0
    }
}

impl MusicPlayer {
    /// A player in that directory, with nothing loaded; `entries` are the directory's.
    pub fn new(directory: u64, entries: Vec<Candidate>) -> (res: MusicPlayer)
        ensures
            res@ == PlayerState::initial(directory, res@.music_files),
            is_listing(music_among(entries@), res@.music_files),
            res@.wf(),
    {
        MusicPlayer::with_files(directory, load_music_files(entries))
    }

    /// A player in that directory, with that list and nothing loaded.
    pub fn with_files(directory: u64, files: Vec<Track>) -> (res: MusicPlayer)
        ensures
            res@ == PlayerState::initial(directory, files@),
            res@.wf(),
            res@.music_files == files@,
            res@.current_directory == directory,
            res@.status_text == "Select a file to start"@,
            res@.volume.bits == 0x3e99_999a,
            res@.seek_position.bits == 0,
            !res@.sink,
            res@.current_file is None,
            res@.selected_file_index is None,
            res@.file_to_select is None,
    {
        MusicPlayer {
            sink: false,
            current_file: None,
            status_text: "Select a file to start".to_owned(),
            total_length: None,
            started_at: None,
            paused_at: None,
            accumulated_paused: 0,
            volume: Single { bits: THREE_TENTHS_BITS },
            seek_position: Single::zero(),
            visualizer: Visualizer::new(),
            music_files: files,
            current_directory: directory,
            selected_file_index: None,
            file_to_select: None,
        }
    }

    /// Lists the music among `entries`, which are those of the current directory.
    pub fn refresh_file_list(&mut self, entries: Vec<Candidate>)
        requires
            old(self)@.wf(),
        ensures
            final(self)@ == old(self)@.listing(final(self)@.music_files),
            is_listing(music_among(entries@), final(self)@.music_files),
            final(self)@.wf(),
    {
        self.show_files(load_music_files(entries));
    }

    /// Replaces the list.
    pub fn show_files(&mut self, files: Vec<Track>)
        requires
            old(self)@.wf(),
        ensures
            final(self)@ == old(self)@.listing(files@),
            final(self)@.wf(),
            final(self)@ == (PlayerState {
                music_files: files@,
                selected_file_index: None,
                ..old(self)@
            }),
    {
        self.music_files = files;
        self.selected_file_index = None;
    }

    /// Goes to another directory, whose entries are `entries`.
    pub fn change_directory(&mut self, directory: u64, entries: Vec<Candidate>)
        requires
            old(self)@.wf(),
        ensures
            final(self)@ == (PlayerState { current_directory: directory, ..old(self)@ }).listing(
                final(self)@.music_files,
            ),
            is_listing(music_among(entries@), final(self)@.music_files),
            final(self)@.wf(),
    {
        self.current_directory = directory;
        self.refresh_file_list(entries);
    }

    /// Loads a file; `length` is its length, where that could be read.
    pub fn set_current_file(&mut self, track: Track, length: Option<u128>)
        requires
            old(self)@.wf(),
        ensures
            final(self)@ == old(self)@.loaded(track, length),
            final(self)@.wf(),
            final(self)@ == (PlayerState {
                current_file: Some(track),
                status_text: "Loaded: "@ + track.name@,
                total_length: length,
                seek_position: Single { bits: 0 },
                bars: final(self)@.bars,
                selected_file_index: final(self)@.selected_file_index,
                ..old(self)@
            }),
    {
        self.status_text = joined("Loaded: ", track.name.as_str());
        self.total_length = length;
        self.seek_position = Single::zero();
        self.visualizer.reset();
        if let Some(index) = find_path(&self.music_files, track.path) {
            self.selected_file_index = Some(index);
        }
        self.current_file = Some(track);
    }

    /// Remembers a click on the file at `index` of the list.
    pub fn click(&mut self, index: usize)
        requires
            old(self)@.wf(),
            index < old(self)@.music_files.len(),
        ensures
            final(self)@ == (PlayerState {
                file_to_select: Some(old(self)@.music_files[index as int]),
                ..old(self)@
            }),
            final(self)@.wf(),
    {
        self.file_to_select = Some(self.music_files[index].clone());
    }

    /// Deals with the last click, if there was one since. Gives the file that is to be loaded and
    /// played.
    pub fn take_selection(&mut self) -> (res: Option<Track>)
        requires
            old(self)@.wf(),
        ensures
            res == old(self)@.chosen(),
            final(self)@ == old(self)@.chosen_selected(),
            final(self)@.wf(),
            res is Some ==> res == old(self)@.file_to_select,
            final(self)@ == (PlayerState {
                file_to_select: None,
                selected_file_index: final(self)@.selected_file_index,
                ..old(self)@
            }),
    {
        match self.file_to_select.take() {
            Some(track) => match find_path(&self.music_files, track.path) {
                Some(index) => {
                    self.selected_file_index = Some(index);
                    Some(track)
                },
                None => None,
            },
            None => None,
        }
    }

    /// Pauses. Whether there is an output to pause is returned.
    pub fn pause(&mut self, now: u128) -> (res: bool)
        requires
            old(self)@.wf(),
            old(self)@.started_at matches Some(started) ==> started <= now,
        ensures
            res == old(self)@.sink,
            final(self)@ == old(self)@.paused(now),
            final(self)@.wf(),
            old(self)@.sink ==> final(self)@ == (PlayerState {
                paused_at: Some(now),
                status_text: "Paused"@,
                ..old(self)@
            }),
            !old(self)@.sink ==> final(self)@ == old(self)@,
    {
        if self.sink {
            self.paused_at = Some(now);
            self.status_text = "Paused".to_owned();
        }
        self.sink
    }

    /// Stops, and goes back to the start of the file. Whether there is an output to stop is
    /// returned.
    pub fn stop(&mut self) -> (res: bool)
        requires
            old(self)@.wf(),
        ensures
            res == old(self)@.sink,
            final(self)@ == old(self)@.stopped(),
            final(self)@.wf(),
            final(self)@ == (PlayerState {
                sink: false,
                started_at: None,
                paused_at: None,
                accumulated_paused: 0,
                seek_position: Single { bits: 0 },
                bars: final(self)@.bars,
                status_text: "Stopped"@,
                ..old(self)@
            }),
    {
        let attached: bool = self.sink;
        self.sink = false;
        self.started_at = None;
        self.paused_at = None;
        self.accumulated_paused = 0;
        self.seek_position = Single::zero();
        self.visualizer.reset();
        self.status_text = "Stopped".to_owned();
        attached
    }

    /// Sets the volume. Whether there is an output to set it on is returned.
    pub fn set_volume(&mut self, volume: Single) -> (res: bool)
        requires
            old(self)@.wf(),
        ensures
            res == old(self)@.sink,
            final(self)@ == old(self)@.at_volume(volume),
            final(self)@.wf(),
            final(self)@ == (PlayerState { volume, ..old(self)@ }),
    {
        self.volume = volume;
        self.sink
    }

    /// Sets the volume to 0.
    pub fn mute(&mut self) -> (res: bool)
        requires
            old(self)@.wf(),
        ensures
            res == old(self)@.sink,
            final(self)@ == old(self)@.muted(),
            final(self)@.wf(),
            final(self)@ == (PlayerState {
                volume: Single { bits: 0 },
                status_text: "Muted"@,
                ..old(self)@
            }),
    {
        let attached: bool = self.set_volume(Single::zero());
        self.status_text = "Muted".to_owned();
        attached
    }

    /// Sets the volume that the player starts with, whatever it was before it was muted.
    pub fn unmute(&mut self) -> (res: bool)
        requires
            old(self)@.wf(),
        ensures
            res == old(self)@.sink,
            final(self)@ == old(self)@.unmuted(),
            final(self)@.wf(),
            final(self)@ == (PlayerState {
                volume: Single { bits: 0x3e99_999a },
                status_text: "Playing"@,
                ..old(self)@
            }),
    {
        let attached: bool = self.set_volume(Single { bits: THREE_TENTHS_BITS });
        self.status_text = "Playing".to_owned();
        attached
    }

    /// How long the file has been playing, without the time spent paused.
    pub fn elapsed(&self, now: u128) -> (res: Option<u128>)
        requires
            self@.wf(),
        ensures
            res is Some == self@.elapsed(now) is Some,
            res matches Some(span) ==> self@.elapsed(now) == Some(span as int),
            res is Some == self@.sink,
            self@.sink && self@.paused_at is None && self@.started_at->0 <= now ==> res == Some(
                (now - self@.started_at->0) as u128,
            ),
            self@.sink && self@.paused_at is Some && self@.paused_at->0 <= now ==> res == Some(
                (self@.paused_at->0 - self@.started_at->0) as u128,
            ),
    {
        let started: u128 = match self.started_at {
            Some(moment) => moment,
            None => return None,
        };
        let paused: u128 = match self.paused_at {
            Some(moment) => time_since(now, moment),
            None => 0,
        };
        Some(time_since(now, started) - self.accumulated_paused - paused)
    }

    /// Moves the bars of the visualizer by one step.
    pub fn update_visualizer(&mut self, blends: &Vec<Option<Blend>>)
        requires
            old(self)@.wf(),
            blends@.len() == BAR_COUNT,
        ensures
            final(self)@ == (PlayerState {
                bars: old(self)@.bars.blended(blends@),
                ..old(self)@
            }),
            final(self)@.wf(),
    {
        self.visualizer.update(blends);
    }

    /// The path of the current file.
    pub fn current_path(&self) -> (res: Option<u64>)
        ensures
            res == match self@.current_file {
                Some(track) => Some(track.path),
                None => None,
            },
    {
        match &self.current_file {
            Some(track) => Some(track.path),
            None => None,
        }
    }

    pub fn current_file(&self) -> (res: Option<&Track>)
        ensures
            res == match self@.current_file {
                Some(track) => Some(&track),
                None => None,
            },
    {
        self.current_file.as_ref()
    }

    /// The list of files.
    pub fn files(&self) -> (res: &Vec<Track>)
        ensures
            res@ == self@.music_files,
    {
        &self.music_files
    }

    /// The place in the list of the selected file.
    pub fn selected_file(&self) -> (res: Option<usize>)
        ensures
            res == self@.selected_file_index,
    {
        self.selected_file_index
    }

    pub fn current_directory(&self) -> (res: u64)
        ensures
            res == self@.current_directory,
    {
        self.current_directory
    }

    pub fn status_text(&self) -> (res: &str)
        ensures
            res@ == self@.status_text,
    {
        self.status_text.as_str()
    }

    pub fn total_length(&self) -> (res: Option<u128>)
        ensures
            res == self@.total_length,
    {
        self.total_length
    }

    pub fn started_at(&self) -> (res: Option<u128>)
        ensures
            res == self@.started_at,
    {
        self.started_at
    }

    pub fn volume(&self) -> (res: Single)
        ensures
            res == self@.volume,
    {
        self.volume
    }

    /// The bars of the visualizer.
    pub fn visualizer(&self) -> (res: &Visualizer)
        ensures
            res@ == self@.bars,
    {
        &self.visualizer
    }

    pub fn seek_position(&self) -> (res: Single)
        ensures
            res == self@.seek_position,
    {
        self.seek_position
    }

    /// Changes the status alone.
    pub(crate) fn say(&mut self, text: &str)
        ensures
            final(self)@ == old(self)@.saying(text@),
    {
        self.status_text = text.to_owned();
    }

    /// Changes the position alone.
    pub(crate) fn move_to(&mut self, seconds: Single)
        ensures
            final(self)@ == (PlayerState { seek_position: seconds, ..old(self)@ }),
    {
        self.seek_position = seconds;
    }

    /// Notes that the output plays from that second of the file on.
    pub(crate) fn note_playing(&mut self, seconds: Single, now: u128)
        ensures
            final(self)@ == old(self)@.playing(seconds, now),
            final(self)@ == (PlayerState {
                sink: true,
                started_at: Some(now),
                paused_at: None,
                accumulated_paused: 0,
                seek_position: seconds,
                status_text: "Playing"@,
                ..old(self)@
            }),
    {
        self.sink = true;
        self.started_at = Some(now);
        self.paused_at = None;
        self.accumulated_paused = 0;
        self.seek_position = seconds;
        self.status_text = "Playing".to_owned();
    }
}

/// The time of a playing file is never negative, grows as the clock does, and starts at 0.
pub proof fn law_time_runs(state: PlayerState, now: u128, later: u128)
    requires
        state.wf(),
        state.started_at is Some,
        state.paused_at is None,
        state.started_at->0 <= now <= later,
    ensures
        state.elapsed(now) == Some(now - state.started_at->0),
        state.elapsed(later)->0 - state.elapsed(now)->0 == later - now,
        state.elapsed(state.started_at->0) == Some(0int),
{
}

/// While the file is paused its time stands still, at the moment of the pause.
pub proof fn law_time_stands_while_paused(state: PlayerState, now: u128)
    requires
        state.wf(),
        state.paused_at is Some,
        state.paused_at->0 <= now,
    ensures
        state.elapsed(now) == Some(state.paused_at->0 - state.started_at->0),
        state.elapsed(now)->0 >= 0,
{
}

/// Whatever the clock says, a time is told exactly while there is an output, and it is never
/// negative.
pub proof fn law_time_is_told_while_playing(state: PlayerState, now: u128)
    requires
        state.wf(),
    ensures
        state.elapsed(now) is Some <==> state.sink,
        state.elapsed(now) matches Some(span) ==> 0 <= span <= now,
{
}

/// A playback that starts, in whatever state, starts its time at 0 and is not paused.
pub proof fn law_start_resets_time(state: PlayerState, seconds: Single, now: u128, later: u128)
    requires
        now <= later,
    ensures
        state.playing(seconds, now).elapsed(later) == Some(later - now),
        state.playing(seconds, now).seek_position == seconds,
        state.playing(seconds, now).volume == state.volume,
        state.playing(seconds, now).current_file == state.current_file,
{
}

/// To pause without an output is to do nothing. To pause again moves the pause to the later moment.
pub proof fn law_pause(state: PlayerState, now: u128, later: u128)
    ensures
        !state.sink ==> state.paused(now) == state,
        state.paused(now).paused(later) == state.paused(later),
{
}

/// A stop undoes a playback: what is left does not tell whether or from where the file was played
/// or paused, and to stop again changes nothing.
pub proof fn law_stop(state: PlayerState, seconds: Single, now: u128, later: u128)
    ensures
        state.playing(seconds, now).stopped() == state.stopped(),
        state.playing(seconds, now).paused(later).stopped() == state.stopped(),
        state.stopped().stopped() == state.stopped(),
        state.stopped().current_file == state.current_file,
        state.stopped().elapsed(now) is None,
{
}

/// To unmute gives the first volume back, not the one before the mute.
pub proof fn law_unmute_after_mute(state: PlayerState)
    ensures
        state.muted().volume == (Single { bits: ZERO_BITS }),
        state.muted().unmuted() == state.unmuted(),
        state.unmuted().volume == PlayerState::initial(
            state.current_directory,
            state.music_files,
        ).volume,
{
}

/// A click on a file of the list leads, once it is dealt with and the file is loaded, to that file
/// as the current one, to a selected place of the list that holds its path, and to a playback of
/// it from its start.
pub proof fn law_click_loads_file(state: PlayerState, index: int, length: Option<u128>)
    requires
        state.wf(),
        0 <= index < state.music_files.len(),
        state.music_files.len() <= usize::MAX,
    ensures
        ({
            let track = state.music_files[index];
            let clicked = PlayerState { file_to_select: Some(track), ..state };
            let after = clicked.chosen_selected().loaded(track, length);
            &&& clicked.chosen() == Some(track)
            &&& after.current_file == Some(track)
            &&& after.file_to_select is None
            &&& after.selected_file_index is Some
            &&& after.selected_file_index->0 <= index
            &&& after.music_files[after.selected_file_index->0 as int].path == track.path
            &&& after.job_from(after.seek_position) == Some(
                PlayJob {
                    path: track.path,
                    seconds: Single { bits: ZERO_BITS },
                    stage: Stage::Open,
                },
            )
            &&& after.asked() == after
        }),
{
    let path = state.music_files[index].path;
    lemma_place(state.music_files, path, index);
}

proof fn lemma_place(list: Seq<Track>, path: u64, index: int)
    requires
        0 <= index < list.len() <= usize::MAX,
        list[index].path == path,
    ensures
        exists|i: int| is_first(list, path, i),
        place_of(list, path) is Some,
        is_first(list, path, place_of(list, path)->0 as int),
        place_of(list, path)->0 <= index,
    decreases index,
{
    if exists|j: int| 0 <= j < index && (#[trigger] list[j]).path == path {
        let j = choose|j: int| 0 <= j < index && (#[trigger] list[j]).path == path;
        lemma_place(list, path, j);
    } else {
        assert(is_first(list, path, index));
    }
}

/// A file that was clicked on and is no longer listed is forgotten, and nothing else changes.
pub proof fn law_unlisted_click_is_forgotten(state: PlayerState)
    requires
        state.file_to_select is Some,
        forall|i: int|
            0 <= i < state.music_files.len() ==> (#[trigger] state.music_files[i]).path
                != state.file_to_select->0.path,
    ensures
        state.chosen() is None,
        state.chosen_selected() == (PlayerState { file_to_select: None, ..state }),
{
}

/// Neither loading a file nor replacing the list touches what is playing.
pub proof fn law_playback_goes_on(
    state: PlayerState,
    track: Track,
    length: Option<u128>,
    files: Seq<Track>,
    now: u128,
)
    ensures
        state.loaded(track, length).sink == state.sink,
        state.loaded(track, length).elapsed(now) == state.elapsed(now),
        state.listing(files).sink == state.sink,
        state.listing(files).elapsed(now) == state.elapsed(now),
        state.listing(files).current_file == state.current_file,
{
}

/// A pause stops the time: whenever it is asked for afterwards, the time told is that from the
/// start to the pause. Where the player was not paused yet, that is the time told at the pause.
pub proof fn law_pause_stops_time(state: PlayerState, started: u128, now: u128, later: u128)
    requires
        state.wf(),
        state.sink,
        state.started_at == Some(started),
        started <= now <= later,
    ensures
        state.paused(now).elapsed(later) == Some(now - started),
        state.paused_at is None ==> state.paused(now).elapsed(later) == state.elapsed(now),
{
}

/// The time told of an output runs from its start to now, or to its pause where that is past. It
/// is none before the start, and without an output no time is told.
pub proof fn law_time_runs_from_start(state: PlayerState, started: u128, now: u128)
    requires
        state.wf(),
    ensures
        !state.sink ==> state.elapsed(now) is None,
        state.started_at == Some(started) && now <= started ==> state.elapsed(now) == Some(0int),
        state.started_at == Some(started) && started <= now && state.paused_at is None
            ==> state.elapsed(now) == Some(now - started),
        state.started_at == Some(started) && started <= now && state.paused_at is Some
            && state.paused_at->0 <= now ==> state.elapsed(now) == Some(
            state.paused_at->0 - started,
        ),
        state.started_at == Some(started) && started <= now && state.paused_at is Some && now
            <= state.paused_at->0 ==> state.elapsed(now) == Some(now - started),
{
}

/// A pause says so and notes its moment; it leaves everything else as it is.
pub proof fn law_pause_changes_status_and_moment(state: PlayerState, now: u128)
    requires
        state.sink,
    ensures
        state.paused(now).status_text == "Paused"@,
        state.paused(now).paused_at == Some(now),
        state.paused(now) == (PlayerState {
            status_text: state.paused(now).status_text,
            paused_at: state.paused(now).paused_at,
            ..state
        }),
{
}

/// A player starts without a file, an output or a selection, at three tenths of the volume, with
/// flat bars and with the list that it was given.
pub proof fn law_first_state(directory: u64, files: Seq<Track>, i: int)
    requires
        0 <= i < 32,
    ensures
        ({
            let state = PlayerState::initial(directory, files);
            &&& state.current_directory == directory
            &&& state.music_files == files
            &&& state.current_file is None
            &&& state.total_length is None
            &&& !state.sink
            &&& state.started_at is None
            &&& state.paused_at is None
            &&& state.accumulated_paused == 0
            &&& state.volume.bits == 0x3e99_999a
            &&& state.seek_position.bits == 0
            &&& state.selected_file_index is None
            &&& state.file_to_select is None
            &&& state.status_text == "Select a file to start"@
            &&& state.bars.body[i].bits == 0
            &&& state.bars.peak[i].bits == 0
        }),
{
    law_flat_bars_are_zero(i);
}

/// A status is what was said last, and saying it changes nothing else.
pub proof fn law_status_alone_changes(state: PlayerState, text: Seq<char>)
    ensures
        state.saying(text).status_text == text,
        state.saying(text) == (PlayerState {
            status_text: state.saying(text).status_text,
            ..state
        }),
{
}

/// A new list stands in full in place of the old one, with nothing selected, and changes nothing
/// else.
pub proof fn law_new_list_deselects(state: PlayerState, files: Seq<Track>)
    ensures
        state.listing(files).music_files == files,
        state.listing(files).selected_file_index is None,
        state.listing(files) == (PlayerState {
            music_files: state.listing(files).music_files,
            selected_file_index: state.listing(files).selected_file_index,
            ..state
        }),
{
}

/// A loaded file is the current one, with its own length and name, at its start and with flat
/// bars. Volume, output, time, list, directory and click are as before.
pub proof fn law_loaded_file_is_current(
    state: PlayerState,
    track: Track,
    length: Option<u128>,
    i: int,
)
    requires
        0 <= i < 32,
    ensures
        ({
            let after = state.loaded(track, length);
            &&& after.current_file == Some(track)
            &&& after.total_length == length
            &&& after.status_text == "Loaded: "@ + track.name@
            &&& after.seek_position.bits == 0
            &&& after.bars.body[i].bits == 0
            &&& after.bars.peak[i].bits == 0
            &&& after == (PlayerState {
                current_file: after.current_file,
                total_length: after.total_length,
                status_text: after.status_text,
                seek_position: after.seek_position,
                bars: after.bars,
                selected_file_index: after.selected_file_index,
                ..state
            })
        }),
{
    law_flat_bars_are_zero(i);
}

/// A loaded file is selected at the first place of the list that has its path. Where none has, the
/// selection stays.
pub proof fn law_loaded_file_is_selected(
    state: PlayerState,
    track: Track,
    length: Option<u128>,
    i: usize,
)
    requires
        state.music_files.len() <= usize::MAX,
    ensures
        i < state.music_files.len() && state.music_files[i as int].path == track.path && (forall|
            j: int,
        |
            0 <= j < i ==> (#[trigger] state.music_files[j]).path != track.path) ==> state.loaded(
            track,
            length,
        ).selected_file_index == Some(i),
        (forall|j: int|
            0 <= j < state.music_files.len() ==> (#[trigger] state.music_files[j]).path
                != track.path) ==> state.loaded(track, length).selected_file_index
            == state.selected_file_index,
{
    law_place_is_the_first(state.music_files, track.path, i);
}

/// A playback that starts has an output, its moment and its second of the file, and is not paused.
/// It changes nothing else.
pub proof fn law_started_playback(state: PlayerState, seconds: Single, now: u128)
    ensures
        ({
            let after = state.playing(seconds, now);
            &&& after.sink
            &&& after.started_at == Some(now)
            &&& after.paused_at is None
            &&& after.accumulated_paused == 0
            &&& after.seek_position == seconds
            &&& after.status_text == "Playing"@
            &&& after == (PlayerState {
                sink: after.sink,
                started_at: after.started_at,
                paused_at: after.paused_at,
                accumulated_paused: after.accumulated_paused,
                seek_position: after.seek_position,
                status_text: after.status_text,
                ..state
            })
        }),
{
}

/// A stopped player has no output and no time, flat bars, and is back at the start of the file. It
/// keeps its file, list, selection, click, directory and volume.
pub proof fn law_stopped_player(state: PlayerState, i: int)
    requires
        0 <= i < 32,
    ensures
        ({
            let after = state.stopped();
            &&& !after.sink
            &&& after.started_at is None
            &&& after.paused_at is None
            &&& after.accumulated_paused == 0
            &&& after.seek_position.bits == 0
            &&& after.bars.body[i].bits == 0
            &&& after.bars.peak[i].bits == 0
            &&& after.status_text == "Stopped"@
            &&& after == (PlayerState {
                sink: after.sink,
                started_at: after.started_at,
                paused_at: after.paused_at,
                accumulated_paused: after.accumulated_paused,
                seek_position: after.seek_position,
                bars: after.bars,
                status_text: after.status_text,
                ..state
            })
        }),
{
    law_flat_bars_are_zero(i);
}

/// The volume is the one that was set last, whatever it was before, and to set it changes nothing
/// else. A mute sets it to zero and an unmute to three tenths, and both say so.
pub proof fn law_volume_is_the_one_set(state: PlayerState, volume: Single)
    ensures
        state.at_volume(volume).volume == volume,
        state.at_volume(volume) == (PlayerState {
            volume: state.at_volume(volume).volume,
            ..state
        }),
        state.muted().volume.bits == 0,
        state.muted().status_text == "Muted"@,
        state.muted() == (PlayerState {
            volume: state.muted().volume,
            status_text: state.muted().status_text,
            ..state
        }),
        state.unmuted().volume.bits == 0x3e99_999a,
        state.unmuted().status_text == "Playing"@,
        state.unmuted() == (PlayerState {
            volume: state.unmuted().volume,
            status_text: state.unmuted().status_text,
            ..state
        }),
{
}

/// A click on a file that is still listed chooses that file and selects the first place of the
/// list that has its path. Without a click nothing is chosen and nothing changes.
pub proof fn law_click_chooses(state: PlayerState, track: Track, i: usize)
    requires
        state.music_files.len() <= usize::MAX,
    ensures
        state.file_to_select == Some(track) && i < state.music_files.len()
            && state.music_files[i as int].path == track.path && (forall|j: int|
            0 <= j < i ==> (#[trigger] state.music_files[j]).path != track.path)
            ==> state.chosen() == Some(track) && state.chosen_selected() == (PlayerState {
            file_to_select: None,
            selected_file_index: Some(i),
            ..state
        }),
        state.file_to_select is None ==> state.chosen() is None && state.chosen_selected()
            == state,
{
    law_place_is_the_first(state.music_files, track.path, i);
}

} // verus!
