use wave::exo::{
    call_failed_message, exo_consume_crossfade_handoff, exo_consume_media_index_change,
    exo_get_current_media_index, exo_get_duration, exo_get_position, exo_has_next_media_item,
    exo_is_playing, exo_pause, exo_play, exo_play_media_items, exo_play_uri, exo_playback_ended,
    exo_prepare_uri_at, exo_seek, exo_seek_to_next_media_item, exo_set_eq_enabled,
    exo_set_gapless_enabled, exo_set_upcoming_uri, exo_stop, is_exo_ready, threw_message, ExoArg,
    ExoCall, ExoReturn,
};

fn shape(c: &ExoCall) -> (&str, &str, usize, ExoReturn) {
    (c.method.as_str(), c.signature.as_str(), c.args.len(), c.result_kind)
}

#[test]
fn transport_calls_take_no_arguments() {
    assert_eq!(shape(&exo_play()), ("play", "()V", 0, ExoReturn::Void));
    assert_eq!(shape(&exo_pause()), ("pause", "()V", 0, ExoReturn::Void));
    assert_eq!(shape(&exo_stop()), ("stop", "()V", 0, ExoReturn::Void));
}

#[test]
fn queries_name_their_java_method() {
    assert_eq!(shape(&exo_get_position()), ("getCurrentPosition", "()J", 0, ExoReturn::Long));
    assert_eq!(shape(&exo_get_duration()), ("getDuration", "()J", 0, ExoReturn::Long));
    assert_eq!(shape(&exo_is_playing()), ("isPlaying", "()Z", 0, ExoReturn::Bool));
    assert_eq!(shape(&exo_playback_ended()), ("isEnded", "()Z", 0, ExoReturn::Bool));
    assert_eq!(shape(&exo_has_next_media_item()), ("hasNextMediaItem", "()Z", 0, ExoReturn::Bool));
    assert_eq!(shape(&exo_seek_to_next_media_item()), ("seekToNextMediaItem", "()Z", 0, ExoReturn::Bool));
    assert_eq!(shape(&exo_get_current_media_index()), ("getCurrentMediaIndex", "()I", 0, ExoReturn::Int));
    assert_eq!(
        shape(&exo_consume_media_index_change()),
        ("consumeMediaIndexChange", "()I", 0, ExoReturn::Int)
    );
    assert_eq!(
        shape(&exo_consume_crossfade_handoff()),
        ("consumeCrossfadeHandoff", "()Ljava/lang/String;", 0, ExoReturn::Text)
    );
}

#[test]
fn calls_carry_their_arguments() {
    let c = exo_play_uri("content://x/1");
    assert_eq!(shape(&c), ("playUri", "(Ljava/lang/String;)V", 1, ExoReturn::Void));
    assert!(matches!(&c.args[0], ExoArg::Text(s) if s == "content://x/1"));
    let c = exo_prepare_uri_at("/a.mp3", 1500);
    assert_eq!(shape(&c), ("prepareUriAt", "(Ljava/lang/String;J)V", 2, ExoReturn::Void));
    assert!(matches!(&c.args[1], ExoArg::Long(1500)));
    assert!(matches!(&exo_seek(-5).args[0], ExoArg::Long(-5)));
    assert!(matches!(&exo_set_eq_enabled(true).args[0], ExoArg::Flag(1)));
    assert!(matches!(&exo_set_gapless_enabled(false).args[0], ExoArg::Flag(0)));
    assert!(matches!(&exo_set_upcoming_uri(None).args[0], ExoArg::NullText));
    assert!(matches!(&exo_set_upcoming_uri(Some("u")).args[0], ExoArg::Text(s) if s == "u"));
    let c = exo_play_media_items(&["a".to_string(), "b".to_string()], 1);
    assert_eq!(shape(&c), ("playMediaItems", "([Ljava/lang/String;I)V", 2, ExoReturn::Void));
    assert!(matches!(&c.args[0], ExoArg::TextArray(v) if v == &vec!["a".to_string(), "b".to_string()]));
    assert!(matches!(&c.args[1], ExoArg::Int(1)));
    let wrapped = exo_play_media_items(&[], (i32::MAX as usize) + 1);
    assert!(matches!(&wrapped.args[1], ExoArg::Int(i32::MIN)));
}

#[test]
fn readiness_and_messages() {
    assert!(is_exo_ready(true, true));
    assert!(!is_exo_ready(true, false));
    assert!(!is_exo_ready(false, true));
    assert_eq!(call_failed_message("playUri", "no env"), "playUri: no env");
    assert_eq!(threw_message("seekTo"), "seekTo threw");
}
