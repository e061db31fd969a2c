use music_player::controls::{Command, Control};
use music_player::files::Track;
use music_player::playback::{PlayJob, Reply, Stage};
use music_player::player::MusicPlayer;
use music_player::single::Single;

fn single(value: f32) -> Single {
    Single { bits: value.to_bits() }
}

fn loaded() -> MusicPlayer {
    let mut p = MusicPlayer::with_files(0, Vec::new());
    p.set_current_file(Track { path: 6, name: "f.ogg".to_string() }, Some(1));
    p
}

fn run(p: &mut MusicPlayer, job: PlayJob, replies: &[Reply]) -> PlayJob {
    let mut job = job;
    for reply in replies {
        job = p.step(job, *reply);
    }
    job
}

const GOOD: [Reply; 4] = [
    Reply::Opened(true),
    Reply::Decoded(Some(44_100)),
    Reply::Opened(true),
    Reply::Decoded(Some(48_000)),
];

#[test]
fn nothing_plays_without_a_file() {
    let mut p = MusicPlayer::with_files(0, Vec::new());
    assert_eq!(p.play(), None);
    assert_eq!(p.status_text(), "No file selected");
    assert_eq!(p.play_from(single(3.0)), None);
    assert_eq!(p.seek(single(3.0)), None);
    assert_eq!(p.seek_position(), single(3.0));
}

#[test]
fn a_play_starts_at_the_kept_position() {
    let mut p = loaded();
    assert!(p.seek(single(7.5)).is_some());
    let job = p.play().unwrap();
    assert_eq!(job, PlayJob { path: 6, seconds: single(7.5), stage: Stage::Open });
    let job = p.play_from(single(2.0)).unwrap();
    assert_eq!(job.seconds, single(2.0));
    assert_eq!(p.seek_position(), single(7.5));
}

#[test]
fn a_good_file_goes_through_all_steps() {
    let mut p = loaded();
    let job = p.play_from(single(1.0)).unwrap();
    let job = p.step(job, Reply::Opened(true));
    assert_eq!(job.stage, Stage::Decode);
    let job = p.step(job, Reply::Decoded(Some(44_100)));
    assert_eq!(job.stage, Stage::Reopen { sample_rate: 44_100 });
    let job = p.step(job, Reply::Opened(true));
    assert_eq!(job.stage, Stage::Redecode { sample_rate: 44_100 });
    let job = p.step(job, Reply::Decoded(Some(48_000)));
    assert_eq!(job.stage, Stage::Measure { sample_rate: 44_100 });
    let job = p.step(job, Reply::Target(2));
    assert_eq!(job.stage, Stage::Skip { left: 2 });
    let job = p.step(job, Reply::Pulled(true));
    assert_eq!(job.stage, Stage::Skip { left: 1 });
    let job = p.step(job, Reply::Pulled(true));
    assert_eq!(job.stage, Stage::Start { volume: single(0.3) });
    assert_eq!(p.status_text(), "Loaded: f.ogg");
    assert_eq!(p.elapsed(10), None);
    let job = p.step(job, Reply::Started(9));
    assert_eq!(job.stage, Stage::Playing);
    assert_eq!(p.status_text(), "Playing");
    assert_eq!(p.seek_position(), single(1.0));
    assert_eq!(p.elapsed(10), Some(1));
}

#[test]
fn the_output_starts_at_the_kept_volume() {
    let mut p = loaded();
    p.set_volume(single(0.8));
    let job = p.play().unwrap();
    let job = run(&mut p, job, &GOOD);
    let job = p.step(job, Reply::Target(0));
    assert_eq!(job.stage, Stage::Start { volume: single(0.8) });
}

#[test]
fn a_file_is_loaded_and_played_from_its_start() {
    let mut p = loaded();
    p.seek(single(7.5));
    let job = p.load_and_play(Track { path: 8, name: "h.wav".to_string() }, Some(3));
    assert_eq!(
        job,
        Some(PlayJob { path: 8, seconds: single(0.0), stage: Stage::Open })
    );
    assert_eq!(p.status_text(), "Loaded: h.wav");
    assert_eq!(p.total_length(), Some(3));
}

#[test]
fn a_short_file_ends_the_skipping() {
    let mut p = loaded();
    let job = p.play().unwrap();
    let job = run(&mut p, job, &GOOD);
    let job = p.step(job, Reply::Target(u64::MAX));
    assert_eq!(job.stage, Stage::Skip { left: u64::MAX });
    let job = run(&mut p, job, &[Reply::Pulled(true), Reply::Pulled(true)]);
    assert_eq!(job.stage, Stage::Skip { left: u64::MAX - 2 });
    let job = p.step(job, Reply::Pulled(false));
    assert_eq!(job.stage, Stage::Start { volume: single(0.3) });
    let job = p.step(job, Reply::Started(5));
    assert_eq!(job.stage, Stage::Playing);
    assert_eq!(p.status_text(), "Playing");
}

#[test]
fn failures_say_what_failed() {
    for (good, bad, text) in [
        (0usize, Reply::Opened(false), "Error: File could not be opened"),
        (1, Reply::Decoded(None), "Error: Unsupported or corrupted file"),
        (2, Reply::Opened(false), "Error: File could not be opened"),
        (3, Reply::Decoded(None), "Error: Unsupported or corrupted file"),
    ] {
        let mut p = loaded();
        let job = p.play().unwrap();
        let job = run(&mut p, job, &GOOD[..good]);
        assert_eq!(p.status_text(), "Loaded: f.ogg");
        let job = p.step(job, bad);
        assert_eq!(job.stage, Stage::Failed);
        assert_eq!(p.status_text(), text);
        assert_eq!(p.elapsed(5), None);
    }
}

#[test]
fn a_failure_leaves_the_playing_file_alone() {
    let mut p = loaded();
    let job = p.play_from(single(4.0)).unwrap();
    let job = run(&mut p, job, &GOOD);
    run(&mut p, job, &[Reply::Target(0), Reply::Started(100)]);
    let job = p.play_from(single(8.0)).unwrap();
    p.step(job, Reply::Opened(false));
    assert_eq!(p.elapsed(150), Some(50));
    assert_eq!(p.seek_position(), single(4.0));
}

#[test]
fn a_reply_that_is_no_answer_changes_nothing() {
    let mut p = loaded();
    let job = p.play().unwrap();
    for reply in [Reply::Decoded(None), Reply::Target(3), Reply::Pulled(false), Reply::Started(1)] {
        assert_eq!(p.step(job, reply), job);
    }
    let over = PlayJob { stage: Stage::Failed, ..job };
    assert_eq!(p.step(over, Reply::Opened(true)), over);
    assert_eq!(p.status_text(), "Loaded: f.ogg");
}

#[test]
fn controls_command_the_output_only_where_there_is_one() {
    let mut p = loaded();
    for control in [
        Control::Pause,
        Control::Stop,
        Control::Mute,
        Control::Unmute,
        Control::Volume(single(0.5)),
    ] {
        assert_eq!(p.operate(control, 0), Command::Nothing);
    }
    let Command::Run(job) = p.operate(Control::Play, 0) else {
        panic!("a file is loaded");
    };
    let job = run(&mut p, job, &GOOD);
    run(&mut p, job, &[Reply::Target(0), Reply::Started(100)]);
    assert_eq!(
        p.operate(Control::Volume(single(0.5)), 100),
        Command::SetVolume(single(0.5))
    );
    assert_eq!(p.operate(Control::Mute, 100), Command::SetVolume(single(0.0)));
    assert_eq!(p.operate(Control::Unmute, 100), Command::SetVolume(single(0.3)));
    assert_eq!(p.operate(Control::Pause, 130), Command::PauseOutput);
    assert_eq!(p.elapsed(200), Some(30));
    assert_eq!(p.operate(Control::Stop, 200), Command::StopOutput);
    assert_eq!(p.status_text(), "Stopped");
    assert_eq!(p.operate(Control::Stop, 200), Command::Nothing);
}

#[test]
fn the_position_slider_keeps_and_plays() {
    let mut p = loaded();
    let command = p.operate(Control::Position(single(6.0)), 0);
    assert_eq!(
        command,
        Command::Run(PlayJob { path: 6, seconds: single(6.0), stage: Stage::Open })
    );
    assert_eq!(p.seek_position(), single(6.0));
    let mut empty = MusicPlayer::with_files(0, Vec::new());
    assert_eq!(empty.operate(Control::Play, 0), Command::Nothing);
    assert_eq!(empty.status_text(), "No file selected");
}

#[test]
fn a_play_after_a_stop_is_from_the_start() {
    let mut p = loaded();
    p.operate(Control::Position(single(6.0)), 0);
    p.operate(Control::Stop, 0);
    assert_eq!(
        p.operate(Control::Play, 0),
        Command::Run(PlayJob { path: 6, seconds: single(0.0), stage: Stage::Open })
    );
}
