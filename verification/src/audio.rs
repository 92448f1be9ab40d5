use vstd::prelude::*;
use crate::structs::Configuration;

verus! {

/// Music played when the settings name none.
pub const DEFAULT_BGM_PATH: &'static str = "music/cryptic_relics.mp3";

/// Number of decoded music frames kept queued on the streaming source.
pub const IDEAL_FRAMES_QUEUED: i32 = 5;

/// Most sound-effect sources that are ever created.
pub const STATIC_SOURCE_LIMIT: usize = 64;

/// Playback state of an audio source.
#[derive(PartialEq, Eq, Structural, Debug, Clone, Copy)]
pub enum SourceStatus {
    Initial,
    Playing,
    Paused,
    Stopped,
    Unknown(i32),
}

/// The music file to play: the configured one, or the default.
pub fn bgm_path(config: &Configuration) -> (path: String)
    ensures
        path@ == (if config.string_options@.contains_key(Configuration::MUSIC_NAME@) {
            config.string_options@[Configuration::MUSIC_NAME@]@
        } else {
            DEFAULT_BGM_PATH@
        }),
{
    match config.string_options.get(Configuration::MUSIC_NAME) {
        Some(path) => path.clone(),
        None => String::from_str(DEFAULT_BGM_PATH),
    }
}

/// Where a requested sound effect is played: in the first source that is not
/// playing, if any, and also in a newly created source while fewer than
/// the limit exist.
pub struct SfxPlan {
    pub reuse: Option<usize>,
    pub create_new: bool,
}

/// `i` is the first source that is not playing, or there is none and `i` is `None`.
pub open spec fn first_idle(playing: Seq<bool>, i: Option<usize>) -> bool {
    match i {
        Some(k) => k < playing.len() && !playing[k as int] && forall|j: int|
            0 <= j < k ==> #[trigger] playing[j],
        None => forall|j: int| 0 <= j < playing.len() ==> #[trigger] playing[j],
    }
}

/// Plans where a sound effect goes, given which existing sources are playing.
pub fn plan_sound_effect(playing: &Vec<bool>) -> (plan: SfxPlan)
    ensures
        first_idle(playing@, plan.reuse),
        plan.create_new == (playing@.len() < STATIC_SOURCE_LIMIT),
{
    let create_new = playing.len() < STATIC_SOURCE_LIMIT;
    let mut i: usize = 0;
    while i < playing.len()
        invariant
            i <= playing@.len(),
            create_new == (playing@.len() < STATIC_SOURCE_LIMIT),
            forall|j: int| 0 <= j < i ==> #[trigger] playing@[j],
        decreases playing@.len() - i,
    {
        if !playing[i] {
            return SfxPlan { reuse: Some(i), create_new };
        }
        i = i + 1;
    }
    SfxPlan { reuse: None, create_new }
}

/// Whether a sound effect found a source to play in.
pub fn sound_effect_placed(plan: &SfxPlan) -> (b: bool)
    ensures
        b == (plan.reuse is Some || plan.create_new),
{
    plan.reuse.is_some() || plan.create_new
}

/// `r` is the first source that plays the effect with id `req_id`, or there
/// is none and `r` is `None`.
pub open spec fn first_with_id(ids: Seq<Option<usize>>, req_id: usize, r: Option<usize>) -> bool {
    match r {
        Some(k) => k < ids.len() && ids[k as int] == Some(req_id) && forall|j: int|
            0 <= j < k ==> #[trigger] ids[j] != Some(req_id),
        None => forall|j: int| 0 <= j < ids.len() ==> #[trigger] ids[j] != Some(req_id),
    }
}

/// The first source that plays the effect with id `req_id`, if any.
pub fn sound_effect_to_stop(ids: &Vec<Option<usize>>, req_id: usize) -> (r: Option<usize>)
    ensures
        first_with_id(ids@, req_id, r),
{
    let mut i: usize = 0;
    while i < ids.len()
        invariant
            i <= ids@.len(),
            forall|j: int| 0 <= j < i ==> #[trigger] ids@[j] != Some(req_id),
        decreases ids@.len() - i,
    {
        if let Some(id) = ids[i] {
            if id == req_id {
                return Some(i);
            }
        }
        i = i + 1;
    }
    None
}

/// What to do with the music source on a play/pause request.
#[derive(PartialEq, Eq, Structural, Debug, Clone, Copy)]
pub enum BgmAction {
    Pause,
    Play,
    /// The source is in a state that cannot be toggled; report it.
    Report,
}

/// What a play/pause request does to a source in `state`.
pub open spec fn play_pause_action(state: SourceStatus) -> BgmAction {
    match state {
        SourceStatus::Playing | SourceStatus::Initial => BgmAction::Pause,
        SourceStatus::Paused | SourceStatus::Stopped => BgmAction::Play,
        SourceStatus::Unknown(_) => BgmAction::Report,
    }
}

/// A play/pause request: a playing or fresh source pauses, a paused or
/// stopped one plays; the returned flag is whether music should start.
pub fn play_pause(start_bgm: bool, state: SourceStatus) -> (r: (BgmAction, bool))
    ensures
        r == (match state {
            SourceStatus::Playing | SourceStatus::Initial => (BgmAction::Pause, false),
            SourceStatus::Paused | SourceStatus::Stopped => (BgmAction::Play, true),
            SourceStatus::Unknown(_) => (BgmAction::Report, !start_bgm),
        }),
{
    let start = !start_bgm;
    match state {
        SourceStatus::Playing | SourceStatus::Initial => (BgmAction::Pause, false),
        SourceStatus::Paused | SourceStatus::Stopped => (BgmAction::Play, true),
        SourceStatus::Unknown(_) => (BgmAction::Report, start),
    }
}

/// Whether another music frame should be decoded and queued.
pub fn needs_frame(buffers_queued: i32) -> (b: bool)
    ensures
        b == (buffers_queued < IDEAL_FRAMES_QUEUED),
{
    buffers_queued < IDEAL_FRAMES_QUEUED
}

/// Whether the music starts now: it was asked to start, it is not playing,
/// and the queue is full.
pub fn should_start_bgm(state: SourceStatus, start_bgm: bool, buffers_queued: i32) -> (b: bool)
    ensures
        b == (state != SourceStatus::Playing && start_bgm && buffers_queued
            == IDEAL_FRAMES_QUEUED),
{
    state != SourceStatus::Playing && start_bgm && buffers_queued == IDEAL_FRAMES_QUEUED
}

/// How the samples of a decoded frame are laid out.
#[derive(PartialEq, Eq, Structural, Debug, Clone, Copy)]
pub enum FrameLayout {
    Mono,
    Stereo,
    /// Neither mono nor stereo: music playback stops.
    Unsupported,
}

/// The layout of a frame with the given number of channels.
pub fn frame_layout(channels: usize) -> (l: FrameLayout)
    ensures
        l == (if channels == 1 {
            FrameLayout::Mono
        } else if channels == 2 {
            FrameLayout::Stereo
        } else {
            FrameLayout::Unsupported
        }),
{
    if channels == 1 {
        FrameLayout::Mono
    } else if channels == 2 {
        FrameLayout::Stereo
    } else {
        FrameLayout::Unsupported
    }
}

/// Interleaved stereo samples as (left, right) pairs.
pub fn stereo_frames(data: &Vec<i16>) -> (pairs: Vec<(i16, i16)>)
    requires
        data@.len() % 2 == 0,
    ensures
        pairs@.len() == data@.len() / 2,
        forall|k: int|
            0 <= k < pairs@.len() ==> #[trigger] pairs@[k] == (data@[2 * k], data@[2 * k + 1]),
{
    let mut pairs: Vec<(i16, i16)> = Vec::with_capacity(data.len() / 2);
    let mut i: usize = 0;
    while i < data.len()
        invariant
            i <= data@.len(),
            i % 2 == 0,
            data@.len() % 2 == 0,
            pairs@.len() == i / 2,
            forall|k: int|
                0 <= k < pairs@.len() ==> #[trigger] pairs@[k] == (data@[2 * k], data@[2 * k + 1]),
        decreases data@.len() - i,
    {
        pairs.push((data[i], data[i + 1]));
        i = i + 2;
    }
    pairs
}

/// What the audio loop keeps from one command to the next.
#[derive(PartialEq, Eq, Structural, Debug, Clone, Copy)]
pub struct AudioLoopState {
    /// Number of sound-effect sources created so far.
    pub sources: usize,
    /// Whether the music should start once its queue is full.
    pub start_bgm: bool,
}

/// What happened that the audio loop decides on.
pub enum AudioEvent {
    /// A sound effect was requested; `loaded` is whether its sound was loaded,
    /// `playing` whether each existing source is playing.
    PlaySfx { loaded: bool, playing: Vec<bool> },
    /// The effect with id `req_id` is to stop; `ids` are the effect ids of the sources.
    StopSfx { ids: Vec<Option<usize>>, req_id: usize },
    /// New music was asked for; `chosen` is whether a file was picked.
    SelectNewBgm { chosen: bool },
    /// The music is to restart; `has_decoder` is whether a music file is open.
    RestartBgm { has_decoder: bool },
    /// Play/pause was asked for while the music source was in `state`.
    PlayPause { state: SourceStatus },
    /// A pass of the loop ended with the music source in `state` and
    /// `buffers_queued` frames queued.
    EndOfPass { state: SourceStatus, buffers_queued: i32 },
}

/// What the audio loop does about an event.
pub enum AudioAction {
    /// The requested sound was never loaded: report it, start nothing.
    SfxNotLoaded,
    /// Play the effect as planned.
    PlaySfx(SfxPlan),
    /// Stop this source, if any.
    StopSource(Option<usize>),
    /// Stop the music and switch to the chosen file.
    SwitchBgm,
    /// No file was chosen: play the music on.
    ResumeBgm,
    /// Stop the music and reopen its file from the start.
    ReloadBgm,
    /// No music file is open: the music stays paused.
    StayPaused,
    /// Answer a play/pause request.
    Toggle(BgmAction),
    /// Start the music now.
    StartBgm,
    /// Nothing to do.
    Idle,
}

/// The loop state after an event.
pub open spec fn audio_next(s: AudioLoopState, e: AudioEvent) -> AudioLoopState {
    match e {
        AudioEvent::PlaySfx { loaded, playing } => AudioLoopState {
            sources: if loaded && s.sources < STATIC_SOURCE_LIMIT {
                (s.sources + 1) as usize
            } else {
                s.sources
            },
            start_bgm: s.start_bgm,
        },
        AudioEvent::StopSfx { .. } => s,
        AudioEvent::SelectNewBgm { chosen } => AudioLoopState {
            sources: s.sources,
            start_bgm: if chosen { true } else { s.start_bgm },
        },
        AudioEvent::RestartBgm { has_decoder } => AudioLoopState {
            sources: s.sources,
            start_bgm: if has_decoder { true } else { s.start_bgm },
        },
        AudioEvent::PlayPause { state } => AudioLoopState {
            sources: s.sources,
            start_bgm: match state {
                SourceStatus::Playing | SourceStatus::Initial => false,
                SourceStatus::Paused | SourceStatus::Stopped => true,
                SourceStatus::Unknown(_) => !s.start_bgm,
            },
        },
        AudioEvent::EndOfPass { state, buffers_queued } => AudioLoopState {
            sources: s.sources,
            start_bgm: if state != SourceStatus::Playing && s.start_bgm && buffers_queued
                == IDEAL_FRAMES_QUEUED {
                false
            } else {
                s.start_bgm
            },
        },
    }
}

/// The loop state after a sequence of events, first to last.
pub open spec fn audio_run(s: AudioLoopState, events: Seq<AudioEvent>) -> AudioLoopState
    decreases events.len(),
{
    if events.len() == 0 {
        s
    } else {
        audio_next(audio_run(s, events.drop_last()), events.last())
    }
}

/// However the commands come, no more than the limit of sound-effect sources
/// is ever created.
pub proof fn law_sfx_sources_bounded(s: AudioLoopState, events: Seq<AudioEvent>)
    requires
        s.sources <= STATIC_SOURCE_LIMIT,
    ensures
        audio_run(s, events).sources <= STATIC_SOURCE_LIMIT,
        audio_run(s, events).sources >= s.sources,
    decreases events.len(),
{
    if events.len() > 0 {
        law_sfx_sources_bounded(s, events.drop_last());
    }
}

/// Decides what the audio loop does about an event and moves its state on.
pub fn audio_step(state: &mut AudioLoopState, event: AudioEvent) -> (action: AudioAction)
    requires
        event matches AudioEvent::PlaySfx { playing, .. } ==> playing@.len() == old(
            state,
        ).sources,
    ensures
        *final(state) == audio_next(*old(state), event),
        match event {
            AudioEvent::PlaySfx { loaded, playing } => if loaded {
                action matches AudioAction::PlaySfx(plan) && first_idle(playing@, plan.reuse)
                    && plan.create_new == (playing@.len() < STATIC_SOURCE_LIMIT)
            } else {
                action is SfxNotLoaded
            },
            AudioEvent::StopSfx { ids, req_id } => action matches AudioAction::StopSource(r)
                && first_with_id(ids@, req_id, r),
            AudioEvent::SelectNewBgm { chosen } => if chosen {
                action is SwitchBgm
            } else {
                action is ResumeBgm
            },
            AudioEvent::RestartBgm { has_decoder } => if has_decoder {
                action is ReloadBgm
            } else {
                action is StayPaused
            },
            AudioEvent::PlayPause { state: st } => action matches AudioAction::Toggle(a) && a
                == play_pause_action(st),
            AudioEvent::EndOfPass { state: st, buffers_queued } => if st != SourceStatus::Playing
                && old(state).start_bgm && buffers_queued == IDEAL_FRAMES_QUEUED {
                action is StartBgm
            } else {
                action is Idle
            },
        },
{
    match event {
        AudioEvent::PlaySfx { loaded, playing } => {
            if !loaded {
                return AudioAction::SfxNotLoaded;
            }
            let plan = plan_sound_effect(&playing);
            if plan.create_new {
                state.sources = state.sources + 1;
            }
            AudioAction::PlaySfx(plan)
        },
        AudioEvent::StopSfx { ids, req_id } => AudioAction::StopSource(
            sound_effect_to_stop(&ids, req_id),
        ),
        AudioEvent::SelectNewBgm { chosen } => {
            if chosen {
                state.start_bgm = true;
                AudioAction::SwitchBgm
            } else {
                AudioAction::ResumeBgm
            }
        },
        AudioEvent::RestartBgm { has_decoder } => {
            if has_decoder {
                state.start_bgm = true;
                AudioAction::ReloadBgm
            } else {
                AudioAction::StayPaused
            }
        },
        AudioEvent::PlayPause { state: st } => {
            let (a, start) = play_pause(state.start_bgm, st);
            state.start_bgm = start;
            AudioAction::Toggle(a)
        },
        AudioEvent::EndOfPass { state: st, buffers_queued } => {
            if should_start_bgm(st, state.start_bgm, buffers_queued) {
                state.start_bgm = false;
                AudioAction::StartBgm
            } else {
                AudioAction::Idle
            }
        },
    }
}

} // verus!
