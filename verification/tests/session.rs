use std::path::PathBuf;

use loop_studio::session::{
    autosave_due, clamp_loop, dir, file_name_for, fnv1a_64, path_for, Session, SessionError,
};
use loop_studio::track::LoopRegion;

#[test]
fn only_the_current_version_is_accepted() {
    assert_eq!(Session::<f32>::CURRENT_VERSION, 6);
    assert_eq!(Session::<f32>::check_version(6), Ok(()));
    for v in [0u32, 1, 5, 7, u32::MAX] {
        assert_eq!(
            Session::<f32>::check_version(v),
            Err(SessionError::UnsupportedVersion { found: v, expected: 6 })
        );
    }
}

#[test]
fn hashes_are_those_of_the_scheme() {
    assert_eq!(fnv1a_64(b""), 0xcbf29ce484222325);
    assert_eq!(fnv1a_64(b"a"), 0xaf63dc4c8601ec8c);
    assert_eq!(fnv1a_64(b"foobar"), 0x85944171f73967e8);
}

#[test]
fn session_files_are_named_by_hash() {
    assert_eq!(file_name_for(""), "cbf29ce484222325.json");
    assert_eq!(file_name_for("a"), "af63dc4c8601ec8c.json");
    for p in ["/music/song.flac", "x", "\u{e9}t\u{e9}.mp3"] {
        assert_eq!(file_name_for(p), format!("{:016x}.json", fnv1a_64(p.as_bytes())));
        assert_eq!(file_name_for(p).len(), 21);
    }
}

#[test]
fn sessions_live_below_the_data_directory() {
    assert_eq!(
        dir(Some("/data"), Some("/home/me")).as_deref(),
        Some("/data/loop-studio/autosessions")
    );
    assert_eq!(
        dir(Some("/data/"), None).as_deref(),
        Some("/data/loop-studio/autosessions")
    );
    assert_eq!(
        dir(None, Some("/home/me")).as_deref(),
        Some("/home/me/.local/share/loop-studio/autosessions")
    );
    assert_eq!(
        dir(Some(""), Some("/home/me")).as_deref(),
        Some("/home/me/.local/share/loop-studio/autosessions")
    );
    assert_eq!(dir(None, Some("")).as_deref(), Some(".local/share/loop-studio/autosessions"));
    assert_eq!(dir(None, None), None);
    assert_eq!(dir(Some(""), None), None);
}

#[test]
fn directories_join_as_paths_do() {
    for base in ["/data", "/data/", "rel", "/"] {
        let want = PathBuf::from(base).join("loop-studio").join("autosessions");
        assert_eq!(PathBuf::from(dir(Some(base), None).unwrap()), want);
    }
    assert_eq!(
        path_for("a", Some("/data"), None).as_deref(),
        Some("/data/loop-studio/autosessions/af63dc4c8601ec8c.json")
    );
    assert_eq!(path_for("a", None, None), None);
}

#[test]
fn loops_are_cut_to_the_track() {
    let l = |start, end| Some(LoopRegion { start, end });
    assert_eq!(clamp_loop(l(10, 20), 100), l(10, 20));
    assert_eq!(clamp_loop(l(10, 200), 100), l(10, 100));
    assert_eq!(clamp_loop(l(100, 200), 100), None);
    assert_eq!(clamp_loop(l(20, 20), 100), None);
    assert_eq!(clamp_loop(l(30, 20), 100), None);
    assert_eq!(clamp_loop(None, 100), None);
}

#[test]
fn saving_waits_two_seconds() {
    assert!(autosave_due(None, 0));
    assert!(!autosave_due(Some(5), 5 + 1_999_999_999));
    assert!(autosave_due(Some(5), 5 + 2_000_000_000));
    assert!(!autosave_due(Some(5), 4));
}
