use thcato::audio::{
    bgm_path, frame_layout, needs_frame, plan_sound_effect, play_pause, should_start_bgm,
    sound_effect_placed, sound_effect_to_stop, stereo_frames, BgmAction, FrameLayout,
    SourceStatus, DEFAULT_BGM_PATH, STATIC_SOURCE_LIMIT,
};
use thcato::gadget;
use thcato::gamestate::{delete_object, set_player_falling, GadgetType, MoveState, MAX_JUMPS};
use thcato::option_vec::OptionVec;
use thcato::render::{fragment_flag_uniform, postfx_work_groups, FragmentFlag};
use thcato::routines::{delete_all_indexed, do_radio_button, scan_skybox_entries};
use thcato::structs::{ClickAction, Configuration};

#[test]
fn gadgets_cycle() {
    assert_eq!(GadgetType::from_usize(0), GadgetType::Net);
    assert_eq!(GadgetType::from_usize(2), GadgetType::WaterCannon);
    assert_eq!(GadgetType::Net.next(), GadgetType::StickyHand);
    assert_eq!(GadgetType::WaterCannon.next(), GadgetType::Net);
    assert_eq!(GadgetType::COUNT, 3);
    let g = GadgetType::StickyHand;
    assert_eq!(GadgetType::from_usize(g.to_usize()), g);
    assert_eq!(gadget::GadgetType::from_usize(0), gadget::GadgetType::Shotgun);
    assert_eq!(gadget::GadgetType::WaterCannon.next(), gadget::GadgetType::Shotgun);
    assert_eq!(gadget::GadgetType::Shotgun.next().next().next(), gadget::GadgetType::Shotgun);
}

#[test]
fn falling_uses_a_jump() {
    let mut state = MoveState::Grounded;
    let mut jumps = MAX_JUMPS;
    set_player_falling(&mut state, &mut jumps);
    assert_eq!(state, MoveState::Falling);
    assert_eq!(jumps, 0);
}

#[test]
fn delete_object_clears_selection() {
    let mut v: OptionVec<u8> = OptionVec::new();
    v.insert(1);
    v.insert(2);
    let mut sel = Some(1);
    delete_object(&mut v, &mut sel, 0);
    assert_eq!(sel, Some(1));
    delete_object(&mut v, &mut sel, 1);
    assert_eq!(sel, None);
    assert_eq!(v.count(), 0);
}

#[test]
fn sound_effects_reuse_idle_sources() {
    let p = plan_sound_effect(&vec![true, false, false]);
    assert_eq!(p.reuse, Some(1));
    assert!(p.create_new);
    let p = plan_sound_effect(&vec![true; STATIC_SOURCE_LIMIT]);
    assert_eq!(p.reuse, None);
    assert!(!p.create_new);
    assert!(!sound_effect_placed(&p));
    let p = plan_sound_effect(&vec![]);
    assert!(sound_effect_placed(&p));
}

#[test]
fn stop_finds_first_matching_id() {
    let ids = vec![None, Some(4), Some(9), Some(4)];
    assert_eq!(sound_effect_to_stop(&ids, 4), Some(1));
    assert_eq!(sound_effect_to_stop(&ids, 7), None);
}

#[test]
fn play_pause_toggles() {
    assert_eq!(play_pause(true, SourceStatus::Playing), (BgmAction::Pause, false));
    assert_eq!(play_pause(false, SourceStatus::Initial), (BgmAction::Pause, false));
    assert_eq!(play_pause(false, SourceStatus::Paused), (BgmAction::Play, true));
    assert_eq!(play_pause(true, SourceStatus::Stopped), (BgmAction::Play, true));
    assert_eq!(play_pause(true, SourceStatus::Unknown(3)), (BgmAction::Report, false));
}

#[test]
fn music_queue_decisions() {
    assert!(needs_frame(4));
    assert!(!needs_frame(5));
    assert!(should_start_bgm(SourceStatus::Stopped, true, 5));
    assert!(!should_start_bgm(SourceStatus::Playing, true, 5));
    assert!(!should_start_bgm(SourceStatus::Stopped, false, 5));
    assert!(!should_start_bgm(SourceStatus::Stopped, true, 4));
    assert_eq!(frame_layout(1), FrameLayout::Mono);
    assert_eq!(frame_layout(2), FrameLayout::Stereo);
    assert_eq!(frame_layout(6), FrameLayout::Unsupported);
    assert_eq!(stereo_frames(&vec![1, -2, 3, -4]), vec![(1, -2), (3, -4)]);
}

#[test]
fn music_path_defaults() {
    let c = Configuration::from_lines(&vec![]).unwrap();
    assert_eq!(bgm_path(&c), DEFAULT_BGM_PATH);
    let c = Configuration::from_lines(&vec!["default_music = music/a.mp3".to_string()]).unwrap();
    assert_eq!(bgm_path(&c), "music/a.mp3");
}

#[test]
fn radio_buttons_toggle() {
    let mut a = ClickAction::Select;
    do_radio_button(true, &mut a, ClickAction::DeleteObject);
    assert_eq!(a, ClickAction::DeleteObject);
    do_radio_button(false, &mut a, ClickAction::MovePointLight);
    assert_eq!(a, ClickAction::DeleteObject);
    do_radio_button(true, &mut a, ClickAction::DeleteObject);
    assert_eq!(a, ClickAction::Select);
    let mut f = FragmentFlag::Normals;
    do_radio_button(true, &mut f, FragmentFlag::Normals);
    assert_eq!(f, FragmentFlag::Default);
}

#[test]
fn fragment_flags_name_their_switch() {
    assert_eq!(fragment_flag_uniform(FragmentFlag::Albedo), Some("visualize_albedo"));
    assert_eq!(fragment_flag_uniform(FragmentFlag::CascadeZones), Some("visualize_cascade_zone"));
    assert_eq!(fragment_flag_uniform(FragmentFlag::Default), None);
    assert_eq!(FragmentFlag::default(), FragmentFlag::Default);
}

#[test]
fn postfx_groups_round_up() {
    assert_eq!(postfx_work_groups(0), 0);
    assert_eq!(postfx_work_groups(1), 1);
    assert_eq!(postfx_work_groups(32), 1);
    assert_eq!(postfx_work_groups(33), 2);
    assert_eq!(postfx_work_groups(1920), 60);
    assert_eq!(postfx_work_groups(1080), 34);
}

#[test]
fn unloading_frees_listed_slots() {
    let mut v: OptionVec<u8> = OptionVec::new();
    for x in 0..4 {
        v.insert(x);
    }
    let mut idx = vec![1, 3, 9];
    delete_all_indexed(&mut v, &mut idx);
    assert!(idx.is_empty());
    assert_eq!(v.count(), 2);
    assert_eq!(v.get_element(0), Some(&0));
    assert_eq!(v.get_element(1), None);
    assert_eq!(v.get_element(3), None);
}

#[test]
fn skybox_scan_counts_unreadable_entries() {
    let entries = vec![
        Some("day".to_string()),
        None,
        Some("night".to_string()),
        Some("dusk".to_string()),
    ];
    let (names, active) = scan_skybox_entries(&entries, "night");
    assert_eq!(names, vec!["day", "night", "dusk"]);
    assert_eq!(active, 2);
    let (_, active) = scan_skybox_entries(&entries, "none");
    assert_eq!(active, 0);
}
