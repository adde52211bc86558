use wave::exo::media_index_change;
use wave::android::{
    audio_source_text, folder_picker_result, guess_extension, probe_cover_bytes, probe_uri,
    push_action, saf_tree_uri,
    sniff_extension,
    take_last, PendingQueue,
};
use wave::instance::{
    already_running_message, daemon_is_running, gui_is_running, primary_is_running, InstanceMode,
    LockHolder,
};
use wave::paths::{
    daemon_state_path, data_dir, downloads_dir, instance_lock_path, join_path, library_db_path,
    source_cache_dir,
};

#[test]
fn data_dir_sits_under_the_data_root() {
    assert_eq!(
        data_dir(Some("/home/u/.local/share")),
        "/home/u/.local/share/app.bmdarklight.wave"
    );
    assert_eq!(data_dir(Some("/data/")), "/data/app.bmdarklight.wave");
    assert_eq!(data_dir(None), ".");
}

#[test]
fn files_live_in_the_data_dir() {
    let root = Some("/r");
    assert_eq!(daemon_state_path(root), "/r/app.bmdarklight.wave/playback-daemon.json");
    assert_eq!(source_cache_dir(root), "/r/app.bmdarklight.wave/source-cache");
    assert_eq!(downloads_dir(root), "/r/app.bmdarklight.wave/Downloads");
    assert_eq!(instance_lock_path(root), "/r/app.bmdarklight.wave/wave-instance.lock");
    assert_eq!(instance_lock_path(None), "./wave-instance.lock");
    assert_eq!(library_db_path(None, root), "/r/app.bmdarklight.wave/wave-library.sqlite");
    assert_eq!(library_db_path(Some("/tmp/x.db"), root), "/tmp/x.db");
    assert_eq!(join_path("", "a"), "a");
}

fn holder(pid: u32, mode: InstanceMode, alive: bool) -> Option<LockHolder> {
    Some(LockHolder { pid, mode, alive })
}

#[test]
fn running_instance_checks() {
    assert!(primary_is_running(holder(7, InstanceMode::Daemon, true)));
    assert!(!primary_is_running(holder(7, InstanceMode::Daemon, false)));
    assert!(!primary_is_running(None));
    assert!(gui_is_running(holder(7, InstanceMode::Gui, true)));
    assert!(!gui_is_running(holder(7, InstanceMode::Daemon, true)));
    assert!(daemon_is_running(holder(7, InstanceMode::Daemon, true)));
    assert!(!daemon_is_running(holder(7, InstanceMode::Gui, true)));
}

#[test]
fn already_running_names_the_live_holder() {
    assert_eq!(
        already_running_message(holder(4242, InstanceMode::Gui, true)),
        "Wave is already running (desktop app, pid 4242). Quit the existing instance first."
    );
    assert_eq!(
        already_running_message(holder(1, InstanceMode::Daemon, true)),
        "Wave is already running (CLI playback daemon, pid 1). Quit the existing instance first."
    );
    assert_eq!(
        already_running_message(holder(1, InstanceMode::Daemon, false)),
        "Wave is already running. Quit the existing instance first."
    );
    assert_eq!(
        already_running_message(None),
        "Wave is already running. Quit the existing instance first."
    );
}

#[test]
fn identical_transport_presses_are_coalesced() {
    let mut q = PendingQueue::new();
    assert!(push_action(&mut q, " play ", 1000));
    assert!(!push_action(&mut q, "play", 1049));
    assert!(push_action(&mut q, "play", 1050));
    assert!(push_action(&mut q, "next", 1051));
    assert!(push_action(&mut q, "next", 1052));
    assert!(!push_action(&mut q, "   ", 1053));
    assert!(push_action(&mut q, "pause", 900));
    assert!(!push_action(&mut q, "pause", 800));
    let drained = q.drain_actions();
    assert_eq!(drained, vec!["play", "play", "next", "next", "pause"]);
    assert_eq!(q.pop_action(), None);
}

#[test]
fn queue_pops_oldest_first() {
    let mut q = PendingQueue::new();
    push_action(&mut q, "play", 0);
    push_action(&mut q, "toggle", 1);
    assert_eq!(q.pop_action(), Some("play".to_string()));
    assert_eq!(q.pop_action(), Some("toggle".to_string()));
    assert_eq!(q.pop_action(), None);
}

#[test]
fn crash_reports_are_shown_unless_blank() {
    assert_eq!(take_last(None), None);
    assert_eq!(take_last(Some(" \n\t".into())), None);
    assert_eq!(take_last(Some("  boom\n".into())), Some("  boom\n".to_string()));
}

#[test]
fn negative_media_index_means_no_change() {
    assert_eq!(media_index_change(Ok(-1)), Ok(None));
    assert_eq!(media_index_change(Ok(0)), Ok(Some(0)));
    assert_eq!(media_index_change(Ok(5)), Ok(Some(5)));
    assert_eq!(
        media_index_change(Err("threw".into())),
        Err("threw".to_string())
    );
}

#[test]
fn extensions_are_guessed_from_the_name() {
    assert_eq!(guess_extension("/music/Song.FLAC"), "flac");
    assert_eq!(guess_extension("content://media/document/audio%3A1234"), "bin");
    assert_eq!(guess_extension("C:\\dl\\track.mp3?sig=abc.def"), "def");
    assert_eq!(guess_extension("C:\\dl\\track.MP3"), "mp3");
    assert_eq!(guess_extension("https://x/y/file.ogg?x"), "bin");
    assert_eq!(guess_extension("https://x/y/file.ogg"), "ogg");
    assert_eq!(guess_extension("archive.tar.gz"), "gz");
    assert_eq!(guess_extension("noext"), "bin");
    assert_eq!(guess_extension("x.123"), "bin");
    assert_eq!(guess_extension("x.verylongext"), "bin");
    assert_eq!(guess_extension("x.bin"), "bin");
    assert_eq!(guess_extension("x.m4a"), "m4a");
}

#[test]
fn containers_are_sniffed_from_bytes() {
    assert_eq!(sniff_extension(None), "bin");
    assert_eq!(sniff_extension(Some(b"ID3\x04")), "mp3");
    assert_eq!(sniff_extension(Some(&[0xFF, 0xFB])), "mp3");
    assert_eq!(sniff_extension(Some(b"fLaC....")), "flac");
    assert_eq!(sniff_extension(Some(b"OggS")), "ogg");
    assert_eq!(sniff_extension(Some(b"RIFF\0\0\0\0WAVEfmt ")), "wav");
    assert_eq!(sniff_extension(Some(b"RIFF\0\0\0\0AVI ")), "bin");
    assert_eq!(sniff_extension(Some(b"\0\0\0\x20ftypM4A ")), "m4a");
    assert_eq!(sniff_extension(Some(&[0x1A, 0x45, 0xDF, 0xA3, 0])), "mka");
    assert_eq!(sniff_extension(Some(b"")), "bin");
    assert_eq!(sniff_extension(Some(b"ID")), "bin");
}

use std::time::Duration;
use wave::playback::CrossfadeState;

fn state(path: Option<&str>) -> CrossfadeState {
    CrossfadeState {
        current_path: path.map(String::from),
        position: Duration::ZERO,
        duration: None,
        pending_next: true,
        track_switched: false,
    }
}

#[test]
fn fade_start_reports_the_incoming_track() {
    let mut s = state(Some("/a.mp3"));
    s.latch_fade_start(Some("/b.mp3".into()), Duration::from_millis(10), Some(Duration::from_secs(200)));
    assert_eq!(s.current_path.as_deref(), Some("/b.mp3"));
    assert_eq!(s.position, Duration::from_millis(10));
    assert_eq!(s.duration, Some(Duration::from_secs(200)));
    assert!(s.pending_next && s.track_switched);
    assert!(s.take_track_switched());
    assert!(!s.take_track_switched());
}

#[test]
fn promotion_latches_only_a_new_track() {
    let mut s = state(Some("/b.mp3"));
    s.latch_promotion(Some("/b.mp3".into()), Duration::from_secs(3), None);
    assert!(!s.track_switched, "the fade start already reported /b.mp3");
    assert!(!s.pending_next);
    let mut s = state(Some("/a.mp3"));
    s.latch_promotion(Some("/b.mp3".into()), Duration::from_secs(3), None);
    assert!(s.track_switched);
    assert_eq!(s.position, Duration::from_secs(3));
}

#[test]
fn bridge_uris_must_be_content_uris() {
    assert_eq!(
        saf_tree_uri("  content://tree/primary%3AMusic "),
        Ok("content://tree/primary%3AMusic".to_string())
    );
    assert_eq!(saf_tree_uri("   "), Err("SAF scan: tree URI is empty".to_string()));
    assert_eq!(
        saf_tree_uri("/sdcard/Music"),
        Err("SAF scan: expected content:// URI, got: /sdcard/Music".to_string())
    );
    assert_eq!(probe_uri(""), Err("MediaMetadataProbe: URI is empty".to_string()));
    assert_eq!(
        probe_uri(" file:///a.mp3"),
        Err("MediaMetadataProbe: expected content:// URI, got: file:///a.mp3".to_string())
    );
    assert_eq!(probe_uri("content://media/1"), Ok("content://media/1".to_string()));
}

#[test]
fn audio_sources_are_trimmed_and_required() {
    assert_eq!(audio_source_text("  /music/a.mp3\n"), Ok("/music/a.mp3".to_string()));
    assert_eq!(audio_source_text(" \t"), Err("Audio path is empty".to_string()));
}

#[test]
fn folder_picker_answers_are_interpreted() {
    let err = |answer: Option<Vec<Option<String>>>| folder_picker_result(answer).err();
    assert_eq!(err(None), Some("Folder picker cancelled".to_string()));
    assert_eq!(err(Some(vec![])), Some("Folder picker returned an empty result".to_string()));
    assert_eq!(err(Some(vec![None])), Some("Folder picker returned null URI".to_string()));
    assert_eq!(err(Some(vec![Some(String::new())])), Some("Folder picker returned empty URI".to_string()));
    let picked = folder_picker_result(Some(vec![Some("content://tree/x".into()), Some("Music".into())]))
        .expect("picked");
    assert_eq!(picked.uri, "content://tree/x");
    assert_eq!(picked.display_name.as_deref(), Some("Music"));
    let unnamed = folder_picker_result(Some(vec![Some("content://tree/y".into()), Some(String::new())]))
        .expect("picked");
    assert_eq!(unnamed.display_name, None);
    let bare = folder_picker_result(Some(vec![Some("content://tree/z".into())])).expect("picked");
    assert_eq!(bare.display_name, None);
}

#[test]
fn probe_covers_are_decoded() {
    assert_eq!(probe_cover_bytes(None), None);
    assert_eq!(probe_cover_bytes(Some("/9j/")), Some(vec![0xFF, 0xD8, 0xFF]));
    assert_eq!(probe_cover_bytes(Some("")), None);
    assert_eq!(probe_cover_bytes(Some("not base64!")), None);
}
