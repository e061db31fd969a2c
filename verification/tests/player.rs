use music_player::files::{Candidate, Track};
use music_player::file_list::FileList;
use music_player::playback::{PlayJob, Reply, Stage};
use music_player::player::MusicPlayer;
use music_player::single::Single;
use music_player::visualizer::{Blend, Rgb, BAR_COUNT};

fn single(value: f32) -> Single {
    Single { bits: value.to_bits() }
}

fn float(value: Single) -> f32 {
    f32::from_bits(value.bits)
}

fn track(path: u64, name: &str) -> Track {
    Track { path, name: name.to_string() }
}

fn player() -> MusicPlayer {
    MusicPlayer::with_files(
        100,
        vec![track(1, "a.mp3"), track(2, "b.mp3"), track(3, "c.mp3")],
    )
}

fn start(player: &mut MusicPlayer, job: PlayJob, now: u128) {
    let mut job = job;
    for reply in [
        Reply::Opened(true),
        Reply::Decoded(Some(44_100)),
        Reply::Opened(true),
        Reply::Decoded(Some(44_100)),
        Reply::Target(0),
        Reply::Started(now),
    ] {
        job = player.step(job, reply);
    }
    assert_eq!(job.stage, Stage::Playing);
}

fn playing(now: u128) -> MusicPlayer {
    let mut p = player();
    p.set_current_file(track(2, "b.mp3"), Some(90));
    let job = p.play().unwrap();
    start(&mut p, job, now);
    p
}

#[test]
fn a_new_player_lists_the_music() {
    let p = MusicPlayer::new(
        7,
        vec![
            Candidate {
                track: track(2, "b.MP3"),
                is_file: true,
                extension: Some("MP3".to_string()),
            },
            Candidate {
                track: track(1, "A.wav"),
                is_file: true,
                extension: Some("wav".to_string()),
            },
            Candidate { track: track(3, "c"), is_file: true, extension: None },
        ],
    );
    assert_eq!(p.status_text(), "Select a file to start");
    assert_eq!(p.current_directory(), 7);
    assert_eq!(p.files().len(), 2);
    assert_eq!(p.files()[0].path, 1);
    assert_eq!(p.files()[1].path, 2);
    assert_eq!(float(p.volume()), 0.3);
    assert_eq!(float(p.seek_position()), 0.0);
    assert_eq!(p.total_length(), None);
    assert_eq!(p.selected_file(), None);
    assert_eq!(p.elapsed(5), None);
    assert!(p.current_file().is_none());
}

#[test]
fn a_loaded_file_is_selected() {
    let mut p = player();
    p.set_current_file(track(2, "b.mp3"), Some(90));
    assert_eq!(p.status_text(), "Loaded: b.mp3");
    assert_eq!(p.selected_file(), Some(1));
    assert_eq!(p.total_length(), Some(90));
    assert_eq!(p.current_path(), Some(2));
}

#[test]
fn a_file_outside_the_list_leaves_the_selection() {
    let mut p = player();
    p.set_current_file(track(3, "c.mp3"), Some(90));
    p.set_current_file(track(50, "elsewhere.mp3"), None);
    assert_eq!(p.selected_file(), Some(2));
    assert_eq!(p.current_path(), Some(50));
    assert_eq!(p.total_length(), None);
}

#[test]
fn loading_goes_back_to_the_start_and_flattens_the_bars() {
    let mut p = player();
    p.set_current_file(track(1, "a.mp3"), Some(90));
    assert!(p.seek(single(12.5)).is_some());
    let mut blends = vec![None; BAR_COUNT];
    blends[0] = Some(Blend { mixed: single(0.5), decayed: single(0.0) });
    p.update_visualizer(&blends);
    assert_eq!(float(p.visualizer().body(0)), 0.5);
    p.set_current_file(track(2, "b.mp3"), None);
    assert_eq!(float(p.seek_position()), 0.0);
    assert_eq!(float(p.visualizer().body(0)), 0.0);
    assert_eq!(float(p.visualizer().peak(0)), 0.0);
}

#[test]
fn loading_does_not_stop_the_playback() {
    let mut p = playing(1_000);
    p.set_current_file(track(1, "a.mp3"), None);
    assert_eq!(p.elapsed(1_500), Some(500));
}

#[test]
fn a_new_list_has_no_selection() {
    let mut p = playing(0);
    assert_eq!(p.selected_file(), Some(1));
    p.refresh_file_list(vec![Candidate {
        track: track(2, "b.mp3"),
        is_file: true,
        extension: Some("mp3".to_string()),
    }]);
    assert_eq!(p.selected_file(), None);
    assert_eq!(p.files().len(), 1);
    assert_eq!(p.current_path(), Some(2));
    p.change_directory(101, Vec::new());
    assert_eq!(p.current_directory(), 101);
    assert!(p.files().is_empty());
    p.show_files(vec![track(8, "h.mp3")]);
    assert_eq!(p.files()[0].path, 8);
}

#[test]
fn a_click_is_followed_once() {
    let mut p = player();
    assert!(p.take_selection().is_none());
    p.click(0);
    p.click(2);
    let chosen = p.take_selection().unwrap();
    assert_eq!(chosen.path, 3);
    assert_eq!(chosen.name, "c.mp3");
    assert_eq!(p.selected_file(), Some(2));
    assert!(p.take_selection().is_none());
    p.set_current_file(chosen, None);
    assert_eq!(p.current_path(), Some(3));
}

#[test]
fn a_click_on_a_file_that_is_gone_is_forgotten() {
    let mut p = player();
    p.click(1);
    p.show_files(vec![track(1, "a.mp3")]);
    assert!(p.take_selection().is_none());
    assert_eq!(p.selected_file(), None);
}

#[test]
fn time_runs_while_playing() {
    let p = playing(1_000);
    assert_eq!(p.status_text(), "Playing");
    assert_eq!(p.started_at(), Some(1_000));
    assert_eq!(p.elapsed(1_000), Some(0));
    assert_eq!(p.elapsed(1_700), Some(700));
    assert_eq!(p.elapsed(0), Some(0));
}

#[test]
fn time_stands_while_paused() {
    let mut p = playing(1_000);
    assert!(p.pause(1_400));
    assert_eq!(p.status_text(), "Paused");
    assert_eq!(p.elapsed(1_400), Some(400));
    assert_eq!(p.elapsed(9_999), Some(400));
    assert_eq!(p.elapsed(1_200), Some(200));
    assert!(p.pause(2_000));
    assert_eq!(p.elapsed(9_999), Some(1_000));
}

#[test]
fn pause_without_an_output_does_nothing() {
    let mut p = player();
    assert!(!p.pause(5));
    assert_eq!(p.status_text(), "Select a file to start");
}

#[test]
fn a_stop_goes_back_to_the_start() {
    let mut p = playing(1_000);
    p.seek(single(30.0));
    assert!(p.stop());
    assert_eq!(p.status_text(), "Stopped");
    assert_eq!(float(p.seek_position()), 0.0);
    assert_eq!(p.elapsed(2_000), None);
    assert_eq!(p.current_path(), Some(2));
    assert!(!p.stop());
    assert_eq!(p.play().unwrap().seconds, single(0.0));
}

#[test]
fn volume_is_muted_and_given_back() {
    let mut p = playing(0);
    assert!(p.set_volume(single(0.9)));
    assert_eq!(float(p.volume()), 0.9);
    assert!(p.mute());
    assert_eq!(float(p.volume()), 0.0);
    assert_eq!(p.status_text(), "Muted");
    assert!(p.unmute());
    assert_eq!(float(p.volume()), 0.3);
    assert_eq!(p.status_text(), "Playing");
    let mut silent = player();
    assert!(!silent.mute());
    assert!(!silent.unmute());
    assert!(!silent.set_volume(single(0.5)));
    assert_eq!(float(silent.volume()), 0.5);
}

#[test]
fn rows_show_the_selection_before_the_current_file() {
    let mut p = player();
    p.set_current_file(track(2, "b.mp3"), None);
    p.click(0);
    assert!(p.take_selection().is_some());
    let FileList::Rows(rows) = p.file_list() else {
        panic!("there are files");
    };
    assert_eq!(rows.len(), 3);
    assert_eq!(rows[0].label, "🎵 a.mp3");
    assert_eq!(rows[0].fill, Rgb { r: 50, g: 100, b: 150 });
    assert_eq!(rows[0].text, Rgb { r: 255, g: 255, b: 255 });
    assert_eq!(rows[1].fill, Rgb { r: 40, g: 90, b: 60 });
    assert_eq!(rows[1].text, Rgb { r: 255, g: 255, b: 255 });
    assert_eq!(rows[2].fill, Rgb { r: 35, g: 40, b: 65 });
    assert_eq!(rows[2].text, Rgb { r: 200, g: 210, b: 235 });
    p.set_current_file(track(1, "a.mp3"), None);
    let FileList::Rows(rows) = p.file_list() else {
        panic!("there are files");
    };
    assert_eq!(rows[0].fill, Rgb { r: 50, g: 100, b: 150 });
}

#[test]
fn an_empty_list_says_so() {
    let p = MusicPlayer::with_files(0, Vec::new());
    assert!(matches!(p.file_list(), FileList::Empty(text) if text == "No music files found"));
    assert_eq!(p.count_label(), "Files: 0");
    assert_eq!(player().count_label(), "Files: 3");
}

#[test]
fn the_current_file_has_a_line() {
    let mut p = player();
    let label = p.file_label();
    assert!(label.placeholder);
    assert_eq!(label.text, "No file selected");
    p.set_current_file(track(1, "a.mp3"), None);
    let label = p.file_label();
    assert!(!label.placeholder);
    assert_eq!(label.text, "a.mp3");
}
