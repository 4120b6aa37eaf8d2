use loop_studio::track::{LoopRegion, Marker, NamedLoop};
use loop_studio::ui::loops::{clamp_active_loop, clamp_loops, LoopDeck, LoopNews, LoopsAction};
use loop_studio::ui::shortcuts::{handle, KeyAction, LoopEndpoint, Playhead, Press};

fn named(start: u64, end: u64, label: &str) -> NamedLoop {
    NamedLoop { start, end, label: label.to_string() }
}

fn region(start: u64, end: u64) -> LoopRegion {
    LoopRegion { start, end }
}

fn head(position: u64) -> Playhead {
    Playhead { position, total_frames: 10_000, sample_rate: 100, playing: false }
}

#[test]
fn first_end_waits_and_second_makes_the_loop() {
    let mut d = LoopDeck::new();
    assert_eq!(d.apply_endpoint(LoopEndpoint::Start(100)), LoopNews::Nothing);
    assert_eq!(d.pending_loop, Some(LoopEndpoint::Start(100)));
    assert_eq!(
        d.apply_endpoint(LoopEndpoint::End(300)),
        LoopNews::SetLoop(Some(region(100, 300)))
    );
    assert_eq!(d.loop_region, Some(region(100, 300)));
    assert_eq!(d.pending_loop, None);
}

#[test]
fn ends_in_the_wrong_order_are_swapped() {
    let mut d = LoopDeck::new();
    d.apply_endpoint(LoopEndpoint::End(100));
    d.apply_endpoint(LoopEndpoint::Start(300));
    assert_eq!(d.loop_region, Some(region(100, 300)));
    assert_eq!(
        d.apply_endpoint(LoopEndpoint::Start(900)),
        LoopNews::SetLoop(Some(region(300, 900)))
    );
}

#[test]
fn same_kind_of_end_replaces_the_waiting_one() {
    let mut d = LoopDeck::new();
    d.apply_endpoint(LoopEndpoint::Start(100));
    d.apply_endpoint(LoopEndpoint::Start(200));
    assert_eq!(d.pending_loop, Some(LoopEndpoint::Start(200)));
    assert_eq!(d.loop_region, None);
}

#[test]
fn two_ends_at_one_frame_make_no_loop() {
    let mut d = LoopDeck::new();
    d.apply_endpoint(LoopEndpoint::Start(100));
    assert_eq!(d.apply_endpoint(LoopEndpoint::End(100)), LoopNews::Nothing);
    assert_eq!(d.loop_region, None);
    assert_eq!(d.pending_loop, Some(LoopEndpoint::Start(100)));
}

#[test]
fn saving_activating_and_editing_keep_the_slot_in_step() {
    let mut d = LoopDeck::new();
    assert_eq!(d.act(LoopsAction::SaveCurrent), LoopNews::Nothing);
    assert_eq!(d.loops.len(), 0);
    d.draw(region(10, 20));
    d.act(LoopsAction::SaveCurrent);
    assert_eq!(d.active_loop, Some(0));
    d.draw(region(50, 90));
    assert_eq!(d.active_loop, None);
    d.act(LoopsAction::SaveCurrent);
    assert_eq!(d.act(LoopsAction::Activate(0)), LoopNews::SetLoop(Some(region(10, 20))));
    d.apply_endpoint(LoopEndpoint::End(40));
    assert_eq!(d.loops[0], named(10, 40, ""));
    assert_eq!(d.loops[1], named(50, 90, ""));
    assert_eq!(d.act(LoopsAction::Activate(7)), LoopNews::Nothing);
}

#[test]
fn deleting_shifts_or_ends_the_active_slot() {
    let mut d = LoopDeck::new();
    for i in 0..3 {
        d.draw(region(i * 10, i * 10 + 5));
        d.act(LoopsAction::SaveCurrent);
    }
    assert_eq!(d.active_loop, Some(2));
    assert_eq!(d.act(LoopsAction::Delete(0)), LoopNews::Nothing);
    assert_eq!(d.active_loop, Some(1));
    assert_eq!(d.loop_region, Some(region(20, 25)));
    assert_eq!(d.act(LoopsAction::Delete(1)), LoopNews::SetLoop(None));
    assert_eq!(d.active_loop, None);
    assert_eq!(d.loop_region, None);
    assert_eq!(d.act(LoopsAction::Delete(5)), LoopNews::Nothing);
    assert_eq!(d.loops.len(), 1);
}

#[test]
fn deleting_a_slot_spares_an_unsaved_loop() {
    let mut d = LoopDeck::new();
    d.draw(region(1, 2));
    d.act(LoopsAction::SaveCurrent);
    d.draw(region(5, 9));
    assert_eq!(d.act(LoopsAction::Delete(0)), LoopNews::Nothing);
    assert_eq!(d.loop_region, Some(region(5, 9)));
}

#[test]
fn there_are_nine_slots() {
    let mut d = LoopDeck::new();
    for i in 0..12 {
        d.draw(region(i, i + 1));
        d.act(LoopsAction::SaveCurrent);
    }
    assert_eq!(d.loops.len(), 9);
}

#[test]
fn clamping_loops_cuts_drops_and_keeps_order() {
    let l = vec![
        named(50, 200, "cut"),
        named(100, 120, "beyond"),
        named(30, 30, "empty"),
        named(0, 10, "whole"),
        named(9, 3, "reversed"),
    ];
    let r = clamp_loops(l, 100);
    assert_eq!(r, vec![named(50, 100, "cut"), named(0, 10, "whole")]);
    assert_eq!(clamp_loops(r.clone(), 100), r);
    assert_eq!(clamp_active_loop(Some(1), &r), Some(1));
    assert_eq!(clamp_active_loop(Some(2), &r), None);
    assert_eq!(clamp_active_loop(None, &r), None);
}

#[test]
fn space_plays_or_pauses() {
    let mut d = LoopDeck::new();
    let mut m: Vec<Marker> = Vec::new();
    assert_eq!(handle(Press::PlayPause, head(0), &mut d, &mut m), KeyAction::Play);
    let playing = Playhead { playing: true, ..head(0) };
    assert_eq!(handle(Press::PlayPause, playing, &mut d, &mut m), KeyAction::Pause);
}

#[test]
fn arrows_go_one_or_five_seconds() {
    let mut d = LoopDeck::new();
    let mut m: Vec<Marker> = Vec::new();
    let mut press = |p, at| handle(p, head(at), &mut d, &mut m);
    assert_eq!(press(Press::Back { small: false }, 1000), KeyAction::Seek(500));
    assert_eq!(press(Press::Back { small: true }, 1000), KeyAction::Seek(900));
    assert_eq!(press(Press::Back { small: false }, 300), KeyAction::Seek(0));
    assert_eq!(press(Press::Forward { small: false }, 1000), KeyAction::Seek(1500));
    assert_eq!(press(Press::Forward { small: true }, 1000), KeyAction::Seek(1100));
    assert_eq!(press(Press::Forward { small: false }, 9900), KeyAction::Seek(10_000));
    assert_eq!(press(Press::Back { small: true }, 99_999), KeyAction::Seek(9_900));
}

#[test]
fn home_and_end_stay_in_the_loop() {
    let mut d = LoopDeck::new();
    let mut m: Vec<Marker> = Vec::new();
    assert_eq!(handle(Press::Home, head(5), &mut d, &mut m), KeyAction::Seek(0));
    assert_eq!(handle(Press::End, head(5), &mut d, &mut m), KeyAction::Seek(10_000));
    d.draw(region(200, 300));
    assert_eq!(handle(Press::Home, head(5), &mut d, &mut m), KeyAction::Seek(200));
    assert_eq!(handle(Press::End, head(5), &mut d, &mut m), KeyAction::Seek(299));
}

#[test]
fn escape_clears_the_loop_and_the_waiting_end() {
    let mut d = LoopDeck::new();
    let mut m: Vec<Marker> = Vec::new();
    handle(Press::LoopStart, head(100), &mut d, &mut m);
    assert_eq!(handle(Press::Escape, head(0), &mut d, &mut m), KeyAction::Nothing);
    assert_eq!(d.pending_loop, None);
    handle(Press::LoopStart, head(100), &mut d, &mut m);
    assert_eq!(
        handle(Press::LoopEnd, head(400), &mut d, &mut m),
        KeyAction::SetLoop(Some(region(100, 400)))
    );
    d.act(LoopsAction::SaveCurrent);
    assert_eq!(handle(Press::Escape, head(0), &mut d, &mut m), KeyAction::SetLoop(None));
    assert_eq!(d.loop_region, None);
    assert_eq!(d.active_loop, None);
    assert_eq!(d.loops.len(), 1);
    assert_eq!(
        handle(Press::ActivateLoop(1), head(0), &mut d, &mut m),
        KeyAction::SetLoop(Some(region(100, 400)))
    );
    assert_eq!(handle(Press::ActivateLoop(2), head(0), &mut d, &mut m), KeyAction::Nothing);
    assert_eq!(handle(Press::ActivateLoop(0), head(0), &mut d, &mut m), KeyAction::Nothing);
}

#[test]
fn marker_keys_add_and_jump() {
    let mut d = LoopDeck::new();
    let mut m: Vec<Marker> = Vec::new();
    handle(Press::AddMarker, head(700), &mut d, &mut m);
    handle(Press::AddMarker, head(200), &mut d, &mut m);
    handle(Press::AddMarker, head(200), &mut d, &mut m);
    assert_eq!(m.len(), 2);
    assert_eq!(handle(Press::JumpToMarker(2), head(0), &mut d, &mut m), KeyAction::Seek(700));
    assert_eq!(handle(Press::JumpToMarker(3), head(0), &mut d, &mut m), KeyAction::Nothing);
    assert_eq!(handle(Press::NextMarker, head(200), &mut d, &mut m), KeyAction::Seek(700));
    assert_eq!(handle(Press::PreviousMarker, head(720), &mut d, &mut m), KeyAction::Seek(200));
    assert_eq!(handle(Press::PreviousMarker, head(210), &mut d, &mut m), KeyAction::Nothing);
}
