use omegawhisper::files::{
    is_recording, log_is_full, migrate_legacy_data_dir, model_input_file_name, move_follows,
    recording_file_name, recordings_in, DataFolder, Entry, Migration,
};

fn file(name: &str) -> Entry {
    Entry { name: name.to_string(), is_file: true }
}

#[test]
fn deleting_recordings_removes_only_recordings() {
    // (file name, should it survive, why)
    let files: &[(&str, bool, &str)] = &[
        ("2026-01-01.wav", false, "a recording"),
        ("2026-01-01-model-input.wav", false, "what the model heard"),
        ("notes.txt", true, "someone else's file"),
        ("tray-prefs.json", true, "a settings file"),
        ("recording.wav.bak", true, "a backup, not a recording"),
        ("WAV", true, "no extension at all"),
    ];
    let mut entries: Vec<Entry> = files.iter().map(|(name, _, _)| file(name)).collect();
    // A folder must survive too - only files are considered.
    entries.push(Entry { name: "old".to_string(), is_file: false });
    entries.push(Entry { name: "old.wav".to_string(), is_file: false });

    let deleted = recordings_in(&entries);
    assert_eq!(deleted.len(), 2, "only the two recordings should go");
    for (i, (name, survives, why)) in files.iter().enumerate() {
        assert_eq!(!deleted.contains(&i), *survives, "{name}: {why}");
    }

    // Running it again on what is left is not an error.
    let left: Vec<Entry> = entries
        .into_iter()
        .enumerate()
        .filter(|(i, _)| !deleted.contains(i))
        .map(|(_, e)| e)
        .collect();
    assert_eq!(left.len(), 6);
    assert!(recordings_in(&left).is_empty());
}

#[test]
fn extensions_are_those_of_paths() {
    for name in [
        "a.wav", ".wav", "..", "..wav", ".a.wav", "a.", "a.WAV", "wav", "a.wav.", "é.wav", ".", "a..wav", "",
    ] {
        let want = std::path::Path::new(name).extension().and_then(|e| e.to_str()) == Some("wav");
        assert_eq!(is_recording(&file(name)), want, "{name}");
    }
}

#[test]
fn saved_files_are_recordings() {
    assert_eq!(recording_file_name("20260101-000000UTC"), "20260101-000000UTC.wav");
    assert_eq!(
        model_input_file_name("2026-01-01_00-00-00"),
        "2026-01-01_00-00-00-model-input.wav"
    );
    assert!(is_recording(&file(&recording_file_name("t"))));
    assert!(is_recording(&file(&model_input_file_name("t"))));
}

#[test]
fn the_data_folder_moves_only_where_nothing_is_in_the_way() {
    for new in [DataFolder::Missing, DataFolder::Empty, DataFolder::Full] {
        assert_eq!(migrate_legacy_data_dir(false, new), Migration::Nothing);
    }
    assert_eq!(migrate_legacy_data_dir(true, DataFolder::Full), Migration::KeepBoth);
    assert_eq!(migrate_legacy_data_dir(true, DataFolder::Empty), Migration::RemoveThenMove);
    assert_eq!(migrate_legacy_data_dir(true, DataFolder::Missing), Migration::Move);
}

#[test]
fn a_big_log_starts_over() {
    assert!(!log_is_full(None));
    assert!(!log_is_full(Some(5_000_000)));
    assert!(log_is_full(Some(5_000_001)));
}

/// The two folders after a migration in which removing and moving succeed or fail.
fn migrate(
    old: Option<Vec<u8>>,
    new: Option<Vec<u8>>,
    can_remove: bool,
    can_move: bool,
) -> (Option<Vec<u8>>, Option<Vec<u8>>) {
    let seen = match &new {
        None => DataFolder::Missing,
        Some(held) if held.is_empty() => DataFolder::Empty,
        Some(_) => DataFolder::Full,
    };
    let migration = migrate_legacy_data_dir(old.is_some(), seen);
    let removed = migration == Migration::RemoveThenMove && can_remove;
    let new = if removed { None } else { new };
    if move_follows(migration, removed) && can_move {
        (None, old)
    } else {
        (old, new)
    }
}

#[test]
fn no_data_is_lost_by_the_move() {
    let data = || Some(vec![1, 2]);
    for (remove, rename) in [(true, true), (true, false), (false, true), (false, false)] {
        assert_eq!(migrate(None, data(), remove, rename), (None, data()));
        assert_eq!(migrate(None, None, remove, rename), (None, None));
        assert_eq!(migrate(data(), Some(vec![3]), remove, rename), (data(), Some(vec![3])));
    }
    assert_eq!(migrate(data(), None, true, true), (None, data()));
    assert_eq!(migrate(data(), Some(vec![]), true, true), (None, data()));
    assert_eq!(migrate(data(), Some(vec![]), false, true), (data(), Some(vec![])));
    assert_eq!(migrate(data(), Some(vec![]), true, false), (data(), None));
    assert_eq!(migrate(data(), None, true, false), (data(), None));
    let (old, new) = migrate(data(), None, true, true);
    assert_eq!(migrate(old.clone(), new.clone(), true, true), (old, new));
}
