//! The ExoPlayer bridge on Android: which method of the Java player each
//! operation calls, with what JNI signature and arguments, and how replies
//! and failures are reported. The JNI transport itself performs the call.

use vstd::prelude::*;

use crate::text::push_str;

verus! {

/// An argument passed to a Java method.
pub enum ExoArg {
    /// A `java.lang.String` built from this text.
    Text(String),
    /// A null `java.lang.String`.
    NullText,
    /// A `long`.
    Long(i64),
    /// An `int`.
    Int(i32),
    /// A `boolean`, as JNI's byte.
    Flag(u8),
    /// A `java.lang.String[]` built from these texts.
    TextArray(Vec<String>),
}

/// What a Java method gives back.
#[derive(Clone, Copy, PartialEq, Eq, Structural, Debug)]
pub enum ExoReturn {
    Void,
    Int,
    Long,
    Bool,
    /// A `java.lang.String` that may be null.
    Text,
}

/// A call on the `WaveExoPlayer` instance.
pub struct ExoCall {
    pub method: String,
    pub signature: String,
    pub args: Vec<ExoArg>,
    pub result_kind: ExoReturn,
}

/// `call` invokes `method` with `signature`, no arguments, returning `ret`.
pub open spec fn plain_call(call: ExoCall, method: Seq<char>, signature: Seq<char>, ret: ExoReturn) -> bool {
    &&& call.method@ == method
    &&& call.signature@ == signature
    &&& call.args@.len() == 0
    &&& call.result_kind == ret
}

/// A call with no arguments.
fn no_arg_call(method: &str, signature: &str, result_kind: ExoReturn) -> (r: ExoCall)
    ensures
        plain_call(r, method@, signature@, result_kind),
{
    ExoCall { method: String::from_str(method), signature: String::from_str(signature), args: Vec::new(), result_kind }
}

/// A call with one argument returning nothing.
fn one_arg_call(method: &str, signature: &str, arg: ExoArg) -> (r: ExoCall)
    ensures
        r.method@ == method@,
        r.signature@ == signature@,
        r.args@ == seq![arg],
        r.result_kind == ExoReturn::Void,
{
    let mut args: Vec<ExoArg> = Vec::new();
    args.push(arg);
    ExoCall { method: String::from_str(method), signature: String::from_str(signature), args, result_kind: ExoReturn::Void }
}

/// Play a URI (`content://`, `file://`, or absolute path).
pub fn exo_play_uri(uri: &str) -> (r: ExoCall)
    ensures
        r.method@ == "playUri"@,
        r.signature@ == "(Ljava/lang/String;)V"@,
        r.args@.len() == 1 && (r.args@[0] matches ExoArg::Text(s) && s@ == uri@),
        r.result_kind == ExoReturn::Void,
{
    one_arg_call("playUri", "(Ljava/lang/String;)V", ExoArg::Text(String::from_str(uri)))
}

/// Prepare a URI paused at `position_ms`.
pub fn exo_prepare_uri_at(uri: &str, position_ms: i64) -> (r: ExoCall)
    ensures
        r.method@ == "prepareUriAt"@,
        r.signature@ == "(Ljava/lang/String;J)V"@,
        r.args@.len() == 2 && (r.args@[0] matches ExoArg::Text(s) && s@ == uri@) && r.args@[1] == ExoArg::Long(
            position_ms,
        ),
        r.result_kind == ExoReturn::Void,
{
    let mut args: Vec<ExoArg> = Vec::new();
    args.push(ExoArg::Text(String::from_str(uri)));
    args.push(ExoArg::Long(position_ms));
    ExoCall {
        method: String::from_str("prepareUriAt"),
        signature: String::from_str("(Ljava/lang/String;J)V"),
        args,
        result_kind: ExoReturn::Void,
    }
}

/// Resume playback.
pub fn exo_play() -> (r: ExoCall)
    ensures
        plain_call(r, "play"@, "()V"@, ExoReturn::Void),
{
    no_arg_call("play", "()V", ExoReturn::Void)
}

/// Pause playback.
pub fn exo_pause() -> (r: ExoCall)
    ensures
        plain_call(r, "pause"@, "()V"@, ExoReturn::Void),
{
    no_arg_call("pause", "()V", ExoReturn::Void)
}

/// Stop playback.
pub fn exo_stop() -> (r: ExoCall)
    ensures
        plain_call(r, "stop"@, "()V"@, ExoReturn::Void),
{
    no_arg_call("stop", "()V", ExoReturn::Void)
}

/// Seek to `position_ms`.
pub fn exo_seek(position_ms: i64) -> (r: ExoCall)
    ensures
        r.method@ == "seekTo"@,
        r.signature@ == "(J)V"@,
        r.args@ == seq![ExoArg::Long(position_ms)],
        r.result_kind == ExoReturn::Void,
{
    one_arg_call("seekTo", "(J)V", ExoArg::Long(position_ms))
}

/// JNI's byte for a boolean.
pub open spec fn jni_bool(b: bool) -> u8 {
    if b {
        1
    } else {
        0
    }
}

/// Switch the equalizer on or off.
pub fn exo_set_eq_enabled(enabled: bool) -> (r: ExoCall)
    ensures
        r.method@ == "setEqEnabled"@,
        r.signature@ == "(Z)V"@,
        r.args@ == seq![ExoArg::Flag(jni_bool(enabled))],
        r.result_kind == ExoReturn::Void,
{
    one_arg_call("setEqEnabled", "(Z)V", ExoArg::Flag(if enabled { 1 } else { 0 }))
}

/// Switch gapless playback on or off.
pub fn exo_set_gapless_enabled(enabled: bool) -> (r: ExoCall)
    ensures
        r.method@ == "setGaplessEnabled"@,
        r.signature@ == "(Z)V"@,
        r.args@ == seq![ExoArg::Flag(jni_bool(enabled))],
        r.result_kind == ExoReturn::Void,
{
    one_arg_call("setGaplessEnabled", "(Z)V", ExoArg::Flag(if enabled { 1 } else { 0 }))
}

/// Copies of `uris`.
fn copy_strings(uris: &[String]) -> (r: Vec<String>)
    ensures
        r@.map_values(|s: String| s@) == uris@.map_values(|s: String| s@),
{
    let mut out: Vec<String> = Vec::new();
    let mut i: usize = 0;
    while i < uris.len()
        invariant
            i <= uris@.len(),
            out@.len() == i,
            forall|j: int| 0 <= j < i ==> #[trigger] out@[j]@ == uris@[j]@,
        decreases uris.len() - i,
    {
        out.push(uris[i].clone());
        i += 1;
    }
    assert(out@.map_values(|s: String| s@) =~= uris@.map_values(|s: String| s@));
    out
}

/// Play `uris` as one gapless queue starting at `start_index` (passed as a
/// Java `int`, so an index past `i32::MAX` wraps as Rust's `as` does).
pub fn exo_play_media_items(uris: &[String], start_index: usize) -> (r: ExoCall)
    ensures
        r.method@ == "playMediaItems"@,
        r.signature@ == "([Ljava/lang/String;I)V"@,
        r.args@.len() == 2,
        r.args@[0] matches ExoArg::TextArray(v) && v@.map_values(|s: String| s@) == uris@.map_values(
            |s: String| s@,
        ),
        r.args@[1] == ExoArg::Int(start_index as i32),
        r.result_kind == ExoReturn::Void,
{
    let mut args: Vec<ExoArg> = Vec::new();
    args.push(ExoArg::TextArray(copy_strings(uris)));
    args.push(ExoArg::Int(start_index as i32));
    ExoCall {
        method: String::from_str("playMediaItems"),
        signature: String::from_str("([Ljava/lang/String;I)V"),
        args,
        result_kind: ExoReturn::Void,
    }
}

/// Set (or clear, with `None`) the URI to crossfade into next.
pub fn exo_set_upcoming_uri(uri: Option<&str>) -> (r: ExoCall)
    ensures
        r.method@ == "setUpcomingUri"@,
        r.signature@ == "(Ljava/lang/String;)V"@,
        r.args@.len() == 1,
        match uri {
            Some(u) => r.args@[0] matches ExoArg::Text(s) && s@ == u@,
            None => r.args@[0] is NullText,
        },
        r.result_kind == ExoReturn::Void,
{
    let arg = match uri {
        Some(u) => ExoArg::Text(String::from_str(u)),
        None => ExoArg::NullText,
    };
    one_arg_call("setUpcomingUri", "(Ljava/lang/String;)V", arg)
}

/// Ask which queue item became current since the last ask (`-1`: none).
pub fn exo_consume_media_index_change() -> (r: ExoCall)
    ensures
        plain_call(r, "consumeMediaIndexChange"@, "()I"@, ExoReturn::Int),
{
    no_arg_call("consumeMediaIndexChange", "()I", ExoReturn::Int)
}

/// The media index change ExoPlayer reported, as an option: a negative
/// index means no change; errors pass through.
pub fn media_index_change(reported: Result<i32, String>) -> (r: Result<Option<i32>, String>)
    ensures
        r == match reported {
            Ok(i) => if i < 0 {
                Ok(None)
            } else {
                Ok(Some(i))
            },
            Err(e) => Err::<Option<i32>, String>(e),
        },
{
    match reported {
        Ok(i) => if i < 0 {
            Ok(None)
        } else {
            Ok(Some(i))
        },
        Err(e) => Err(e),
    }
}

/// Whether another queue item follows the current one.
pub fn exo_has_next_media_item() -> (r: ExoCall)
    ensures
        plain_call(r, "hasNextMediaItem"@, "()Z"@, ExoReturn::Bool),
{
    no_arg_call("hasNextMediaItem", "()Z", ExoReturn::Bool)
}

/// Skip to the next queue item (reports whether there was one).
pub fn exo_seek_to_next_media_item() -> (r: ExoCall)
    ensures
        plain_call(r, "seekToNextMediaItem"@, "()Z"@, ExoReturn::Bool),
{
    no_arg_call("seekToNextMediaItem", "()Z", ExoReturn::Bool)
}

/// The index of the current queue item.
pub fn exo_get_current_media_index() -> (r: ExoCall)
    ensures
        plain_call(r, "getCurrentMediaIndex"@, "()I"@, ExoReturn::Int),
{
    no_arg_call("getCurrentMediaIndex", "()I", ExoReturn::Int)
}

/// The URI a finished crossfade handed over to, if any (null: none).
pub fn exo_consume_crossfade_handoff() -> (r: ExoCall)
    ensures
        plain_call(r, "consumeCrossfadeHandoff"@, "()Ljava/lang/String;"@, ExoReturn::Text),
{
    no_arg_call("consumeCrossfadeHandoff", "()Ljava/lang/String;", ExoReturn::Text)
}

/// The playback position in milliseconds.
pub fn exo_get_position() -> (r: ExoCall)
    ensures
        plain_call(r, "getCurrentPosition"@, "()J"@, ExoReturn::Long),
{
    no_arg_call("getCurrentPosition", "()J", ExoReturn::Long)
}

/// The current item's duration in milliseconds.
pub fn exo_get_duration() -> (r: ExoCall)
    ensures
        plain_call(r, "getDuration"@, "()J"@, ExoReturn::Long),
{
    no_arg_call("getDuration", "()J", ExoReturn::Long)
}

/// Whether the player is playing.
pub fn exo_is_playing() -> (r: ExoCall)
    ensures
        plain_call(r, "isPlaying"@, "()Z"@, ExoReturn::Bool),
{
    no_arg_call("isPlaying", "()Z", ExoReturn::Bool)
}

/// Whether the current item reached its end.
pub fn exo_playback_ended() -> (r: ExoCall)
    ensures
        plain_call(r, "isEnded"@, "()Z"@, ExoReturn::Bool),
{
    no_arg_call("isEnded", "()Z", ExoReturn::Bool)
}

/// Whether the bridge can take calls: it was initialized and holds the
/// player instance.
pub fn is_exo_ready(initialized: bool, has_player: bool) -> (r: bool)
    ensures
        r == (initialized && has_player),
{
    initialized && has_player
}

/// The message for a call that JNI could not make.
pub fn call_failed_message(method: &str, detail: &str) -> (r: String)
    ensures
        r@ == method@ + ": "@ + detail@,
{
    let mut out = String::from_str(method);
    push_str(&mut out, ": ");
    push_str(&mut out, detail);
    out
}

/// The message for a Java method that threw.
pub fn threw_message(method: &str) -> (r: String)
    ensures
        r@ == method@ + " threw"@,
{
    let mut out = String::from_str(method);
    push_str(&mut out, " threw");
    out
}

} // verus!
