use thcato::audio::{
    audio_step, AudioAction, AudioEvent, AudioLoopState, BgmAction, SourceStatus,
    STATIC_SOURCE_LIMIT,
};
use thcato::routines::{ent_save_bytes, parse_ent_body};
use thcato::structs::EntityList;

fn word(b: &mut Vec<u8>, w: u32) {
    b.extend_from_slice(&w.to_le_bytes());
}

#[test]
fn play_requests_create_at_most_the_limit_of_sources() {
    let mut st = AudioLoopState { sources: 0, start_bgm: true };
    for _ in 0..(STATIC_SOURCE_LIMIT + 10) {
        let playing = vec![true; st.sources];
        match audio_step(&mut st, AudioEvent::PlaySfx { loaded: true, playing }) {
            AudioAction::PlaySfx(plan) => assert_eq!(plan.reuse, None),
            _ => panic!("expected a play plan"),
        }
    }
    assert_eq!(st.sources, STATIC_SOURCE_LIMIT);
}

#[test]
fn unloaded_sound_starts_nothing() {
    let mut st = AudioLoopState { sources: 2, start_bgm: false };
    let a = audio_step(&mut st, AudioEvent::PlaySfx { loaded: false, playing: vec![false, false] });
    assert!(matches!(a, AudioAction::SfxNotLoaded));
    assert_eq!(st, AudioLoopState { sources: 2, start_bgm: false });
}

#[test]
fn stop_picks_first_matching_source() {
    let mut st = AudioLoopState { sources: 3, start_bgm: false };
    let a = audio_step(&mut st, AudioEvent::StopSfx { ids: vec![Some(2), Some(5), Some(5)], req_id: 5 });
    assert!(matches!(a, AudioAction::StopSource(Some(1))));
}

#[test]
fn music_commands_move_start_flag() {
    let mut st = AudioLoopState { sources: 0, start_bgm: false };
    assert!(matches!(audio_step(&mut st, AudioEvent::SelectNewBgm { chosen: false }), AudioAction::ResumeBgm));
    assert!(!st.start_bgm);
    assert!(matches!(audio_step(&mut st, AudioEvent::SelectNewBgm { chosen: true }), AudioAction::SwitchBgm));
    assert!(st.start_bgm);
    st.start_bgm = false;
    assert!(matches!(audio_step(&mut st, AudioEvent::RestartBgm { has_decoder: false }), AudioAction::StayPaused));
    assert!(!st.start_bgm);
    assert!(matches!(audio_step(&mut st, AudioEvent::RestartBgm { has_decoder: true }), AudioAction::ReloadBgm));
    assert!(st.start_bgm);
    assert!(matches!(
        audio_step(&mut st, AudioEvent::EndOfPass { state: SourceStatus::Stopped, buffers_queued: 5 }),
        AudioAction::StartBgm
    ));
    assert!(!st.start_bgm);
    assert!(matches!(
        audio_step(&mut st, AudioEvent::PlayPause { state: SourceStatus::Paused }),
        AudioAction::Toggle(BgmAction::Play)
    ));
    assert!(st.start_bgm);
}

#[test]
fn insert_then_delete_restores_list() {
    let mut l: EntityList<u8> = EntityList::new();
    l.insert(1);
    l.insert(2);
    l.selected_idx = Some(0);
    let before = l.count();
    let i = l.insert(3);
    l.delete(i);
    assert_eq!(l.count(), before);
    assert_eq!(l.selected_idx, Some(0));
    assert_eq!(l.len(), 3);
    assert_eq!(l.entities.get_element(2), None);
    assert_eq!(l.entities.get_element(1), Some(&2));
}

#[test]
fn entity_body_reads_counts_and_records() {
    let mut b = Vec::new();
    for k in 0..12u32 {
        word(&mut b, k);
    }
    word(&mut b, 1);
    for w in [10u32, 11, 12, 13] {
        word(&mut b, w);
    }
    word(&mut b, 1);
    for w in 20u32..27 {
        word(&mut b, w);
    }
    let e = parse_ent_body(&b).unwrap();
    assert_eq!(e.header_bits, (0..12).collect::<Vec<u32>>());
    assert_eq!(e.creature_bits, vec![10, 11, 12, 13]);
    assert_eq!(e.light_bits, (20..27).collect::<Vec<u32>>());
    assert!(parse_ent_body(&b[..b.len() - 1]).is_none());
    assert!(parse_ent_body(&b[..51]).is_none());
}

#[test]
fn saved_body_layout() {
    let header: Vec<u32> = (1..10).collect();
    let bytes = ent_save_bytes(&header, &vec![(7, 8, 9, 0x01020304)]);
    assert_eq!(bytes.len(), 4 * 14);
    assert_eq!(&bytes[0..4], &[1, 0, 0, 0]);
    assert_eq!(&bytes[36..40], &[1, 0, 0, 0]);
    assert_eq!(&bytes[52..56], &[4, 3, 2, 1]);
    // The saved body holds no lights and a shorter header, so it does not read as a full body.
    assert!(parse_ent_body(&bytes).is_none());
}
