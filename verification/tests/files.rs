use music_player::files::{
    audio_extensions, find_path, is_audio_extension, load_music_files, select_music, Candidate,
    Prepared, Track,
};
use music_player::sort::comes_before;

fn entry(path: u64, name: &str) -> Candidate {
    Candidate {
        track: Track { path, name: name.to_string() },
        is_file: true,
        extension: name
            .rsplit_once('.')
            .filter(|(stem, _)| !stem.is_empty())
            .map(|(_, e)| e.to_string()),
    }
}

fn listed(entries: Vec<Candidate>) -> Vec<(u64, String)> {
    load_music_files(entries).into_iter().map(|t| (t.path, t.name)).collect()
}

fn names(entries: Vec<Candidate>) -> Vec<String> {
    listed(entries).into_iter().map(|(_, name)| name).collect()
}

#[test]
fn known_extensions() {
    assert_eq!(
        audio_extensions(),
        vec!["mp3", "wav", "flac", "ogg", "m4a", "aac", "wma"]
    );
    for known in audio_extensions() {
        assert!(is_audio_extension(&known.to_string()));
    }
    assert!(!is_audio_extension(&"MP3".to_string()));
    assert!(!is_audio_extension(&"mp".to_string()));
    assert!(!is_audio_extension(&"mp34".to_string()));
    assert!(!is_audio_extension(&String::new()));
}

#[test]
fn only_music_is_listed() {
    let mut folder = entry(1, "folder.mp3");
    folder.is_file = false;
    assert_eq!(
        names(vec![
            folder,
            entry(2, "notes.txt"),
            entry(3, "README"),
            entry(4, "song.ogg"),
        ]),
        vec!["song.ogg"]
    );
    assert!(listed(Vec::new()).is_empty());
}

#[test]
fn a_leading_dot_starts_no_extension() {
    assert_eq!(
        names(vec![entry(1, ".mp3"), entry(2, ".hidden.mp3"), entry(3, "a.b.mp3")]),
        vec![".hidden.mp3", "a.b.mp3"]
    );
    assert_eq!(std::path::Path::new(".mp3").extension(), None);
}

#[test]
fn the_order_of_the_entries_does_not_count_for_different_names() {
    let one = vec![entry(1, "b.mp3"), entry(2, "A.mp3"), entry(3, "c.ogg")];
    let two = vec![entry(3, "c.ogg"), entry(1, "b.mp3"), entry(2, "A.mp3")];
    assert_eq!(listed(one), listed(two));
}

#[test]
fn case_of_the_extension_does_not_count() {
    assert_eq!(
        names(vec![entry(1, "a.MP3"), entry(2, "b.FlaC")]),
        vec!["a.MP3", "b.FlaC"]
    );
}

#[test]
fn case_of_the_name_does_not_count_for_the_order() {
    assert_eq!(
        names(vec![
            entry(1, "beta.mp3"),
            entry(2, "Alpha.mp3"),
            entry(3, "GAMMA.mp3"),
            entry(4, "alpha 2.mp3"),
            entry(5, "Ärger.mp3"),
            entry(6, "ähnlich.mp3"),
        ]),
        vec![
            "alpha 2.mp3",
            "Alpha.mp3",
            "beta.mp3",
            "GAMMA.mp3",
            "ähnlich.mp3",
            "Ärger.mp3",
        ]
    );
}

#[test]
fn names_that_differ_in_case_only_keep_their_order() {
    assert_eq!(
        listed(vec![
            entry(1, "z.mp3"),
            entry(2, "A.mp3"),
            entry(3, "a.mp3"),
            entry(4, "A.mp3"),
        ]),
        vec![
            (2, "A.mp3".to_string()),
            (3, "a.mp3".to_string()),
            (4, "A.mp3".to_string()),
            (1, "z.mp3".to_string()),
        ]
    );
}

#[test]
fn long_lists_agree_with_the_standard_sort() {
    let mut seed: u64 = 12345;
    let mut entries = Vec::new();
    let mut want = Vec::new();
    for path in 0..500u64 {
        seed = seed.wrapping_mul(6364136223846793005).wrapping_add(1442695040888963407);
        let letter = char::from(b'A' + (seed >> 33) as u8 % 58);
        let name = format!("{}{}.wav", letter, (seed >> 50) % 7);
        entries.push(entry(path, &name));
        want.push((path, name));
    }
    want.sort_by(|a, b| a.1.to_lowercase().cmp(&b.1.to_lowercase()));
    assert_eq!(listed(entries), want);
}

#[test]
fn prepared_entries_are_sorted_by_their_keys() {
    let prepared = |path: u64, extension: Option<&str>, key: &str| Prepared {
        track: Track { path, name: String::new() },
        is_file: true,
        extension: extension.map(|e| e.to_string()),
        key: key.to_string(),
    };
    let got = select_music(vec![
        prepared(1, Some("mp3"), "b"),
        prepared(2, Some("txt"), "a"),
        prepared(3, Some("aac"), "a"),
        prepared(4, None, "a"),
        prepared(5, Some("wma"), ""),
    ]);
    let paths: Vec<u64> = got.iter().map(|p| p.track.path).collect();
    assert_eq!(paths, vec![5, 3, 1]);
}

#[test]
fn order_of_names() {
    assert!(comes_before("", "a"));
    assert!(!comes_before("a", ""));
    assert!(!comes_before("", ""));
    assert!(!comes_before("ab", "ab"));
    assert!(comes_before("a", "ab"));
    assert!(comes_before("ab", "b"));
    let texts = ["", "a", "ab", "b", "z", "é", "\u{ffff}", "🎵", "a🎵", "aé"];
    for a in texts {
        for b in texts {
            assert_eq!(comes_before(a, b), a < b, "{} {}", a, b);
        }
    }
}

#[test]
fn the_first_file_with_a_path_is_found() {
    let list = vec![
        Track { path: 4, name: "x".to_string() },
        Track { path: 9, name: "y".to_string() },
        Track { path: 9, name: "z".to_string() },
    ];
    assert_eq!(find_path(&list, 9), Some(1));
    assert_eq!(find_path(&list, 4), Some(0));
    assert_eq!(find_path(&list, 5), None);
    assert_eq!(find_path(&Vec::new(), 5), None);
}
