use cosmic_workspace::affinity::{Output, OutputMatch};
use cosmic_workspace::animation::OverviewMode;
use cosmic_workspace::geometry::{Point, Rect, Size};
use cosmic_workspace::layout::{ManagedLayer, Mapped, ResizeDirection, ResizeEdge};
use cosmic_workspace::render::{FullscreenPhase, WorkspaceRenderElement};
use cosmic_workspace::workspace::{
    KeyboardFocusTarget, MinimizedState, PinnedWorkspace, TilingState, Workspace,
};

fn output(name: &str, edid: Option<u64>, w: i32, h: i32) -> Output {
    Output { name: name.to_string(), edid, geometry: Rect::new(0, 0, w, h) }
}

fn window(id: u64, x: i32, y: i32, w: i32, h: i32) -> Mapped {
    Mapped { id, geometry: Rect::new(x, y, w, h), maximized: None }
}

fn floating_ids(ws: &Workspace) -> Vec<u64> {
    ws.floating_layer.mapped()
}

fn tiling_ids(ws: &Workspace) -> Vec<u64> {
    ws.tiling_layer.mapped()
}

#[test]
fn minimize_then_unminimize_floating_keeps_position() {
    let mut ws = Workspace::new(1, output("DP-1", Some(7), 1920, 1080), false);
    ws.floating_layer.map(window(10, 100, 200, 640, 480));
    ws.floating_layer.map(window(11, 300, 50, 200, 100));
    let rec = ws.minimize(10, Rect::new(0, 0, 10, 10), 5000).unwrap();
    assert_eq!(rec.previous_state, MinimizedState::Floating { position: Point { x: 100, y: 200 } });
    assert_eq!(floating_ids(&ws), vec![11]);
    assert!(ws.unminimize(rec, Rect::new(0, 0, 10, 10), 0, 6000).is_none());
    assert_eq!(floating_ids(&ws), vec![11, 10]);
    assert_eq!(ws.element_geometry(10), Some(Rect::new(100, 200, 640, 480)));
    assert!(ws.is_floating(10));
}

#[test]
fn minimize_then_unminimize_tiled_returns_to_its_place() {
    let mut ws = Workspace::new(1, output("DP-1", None, 1920, 1080), true);
    ws.tiling_layer.map(window(1, 0, 0, 960, 1080));
    ws.tiling_layer.map(window(2, 960, 0, 960, 1080));
    ws.tiling_layer.map(window(3, 960, 540, 960, 540));
    let rec = ws.minimize(2, Rect::new(0, 0, 1, 1), 0).unwrap();
    assert_eq!(
        rec.previous_state,
        MinimizedState::Tiling { tiling_state: Some(1), was_maximized: false }
    );
    assert_eq!(tiling_ids(&ws), vec![1, 3]);
    ws.unminimize(rec, Rect::new(0, 0, 1, 1), 0, 10);
    assert_eq!(tiling_ids(&ws), vec![1, 2, 3]);
    assert!(ws.is_tiled(2));
}

#[test]
fn unminimize_rescales_after_resolution_change() {
    let mut ws = Workspace::new(1, output("DP-1", Some(7), 1920, 1080), false);
    ws.floating_layer.map(window(10, 960, 540, 300, 200));
    let rec = ws.minimize(10, Rect::new(0, 0, 1, 1), 0).unwrap();
    ws.set_output(&output("DP-1", Some(7), 1280, 720), false);
    ws.unminimize(rec, Rect::new(0, 0, 1, 1), 0, 0);
    assert_eq!(ws.element_geometry(10), Some(Rect::new(640, 360, 300, 200)));
}

#[test]
fn exit_during_enter_stays_within_duration_and_releases_blocker() {
    let mut ws = Workspace::new(1, output("DP-1", None, 1920, 1080), false);
    ws.floating_layer.map(window(5, 10, 10, 400, 300));
    ws.fullscreen_request(5, Some((ManagedLayer::Floating, 1)), Rect::new(0, 0, 1, 1), 0, 1000);
    let first = ws.fullscreen.unwrap().animation_signal.unwrap();
    assert!(!ws.signals.is_released(first));
    let back = ws.unfullscreen_request(5, 1050);
    assert_eq!(back, Some((ManagedLayer::Floating, 1)));
    let f = ws.fullscreen.unwrap();
    assert_eq!(f.start_at, None);
    // 50 ms of enter were used, so the exit has 150 ms left: 200 ms in all
    assert_eq!(f.ended_at, Some(1000));
    assert_eq!((1050 - 1000) + (f.ended_at.unwrap() + 200 - 1050), 200);
    assert!(ws.signals.is_released(first));
    let second = f.animation_signal.unwrap();
    assert_ne!(first, second);
    assert!(!ws.signals.is_released(second));
    // past the exit's midpoint its blocker is released, and at its end fullscreen is gone
    assert!(ws.update_animations(1100).is_empty());
    assert_eq!(ws.update_animations(1101), vec![5]);
    assert!(ws.signals.is_released(second));
    assert!(ws.fullscreen.is_some());
    assert!(ws.update_animations(1199).is_empty());
    assert!(ws.fullscreen.is_some());
    assert!(ws.update_animations(1200).is_empty());
    assert!(ws.fullscreen.is_none());
    assert!(ws.animations_going());
    assert!(!ws.animations_going());
}

#[test]
fn tiling_on_then_off_keeps_floating_windows() {
    let mut ws = Workspace::new(1, output("DP-1", None, 1920, 1080), false);
    ws.floating_layer.map(window(1, 10, 20, 300, 200));
    ws.floating_layer.map(window(2, 400, 20, 300, 250));
    ws.floating_layer.map(window(3, 10, 500, 800, 200));
    assert_eq!(ws.set_tiling(true, 0), TilingState::TilingEnabled);
    assert_eq!(tiling_ids(&ws), vec![1, 2, 3]);
    assert!(floating_ids(&ws).is_empty());
    assert_eq!(ws.set_tiling(false, 0), TilingState::FloatingOnly);
    assert_eq!(floating_ids(&ws), vec![1, 2, 3]);
    assert!(tiling_ids(&ws).is_empty());
    assert_eq!(ws.element_geometry(1), Some(Rect::new(10, 20, 300, 200)));
    assert_eq!(ws.element_geometry(2), Some(Rect::new(400, 20, 300, 250)));
    assert_eq!(ws.element_geometry(3), Some(Rect::new(10, 500, 800, 200)));
}

#[test]
fn no_window_is_both_tiled_and_floating() {
    let mut ws = Workspace::new(1, output("DP-1", None, 1920, 1080), true);
    assert!(ws.map_window(window(1, 0, 0, 100, 100)));
    assert!(ws.map_window(window(2, 0, 0, 100, 100)));
    assert!(!ws.map_window(window(2, 5, 5, 100, 100)));
    ws.set_tiling(false, 0);
    assert!(ws.map_window(window(3, 0, 0, 100, 100)));
    assert!(!ws.map_window(window(1, 0, 0, 100, 100)));
    ws.set_tiling(true, 0);
    ws.toggle_floating_window(0, 1);
    ws.toggle_floating_window(0, 3);
    ws.set_tiling(false, 0);
    ws.set_tiling(true, 0);
    let rec = ws.minimize(2, Rect::new(0, 0, 1, 1), 0).unwrap();
    assert!(ws.add_minimized(rec));
    for id in 1..=3u64 {
        let places = [ws.floating_layer.contains(id), ws.tiling_layer.contains(id), ws.find_minimized(id).is_some()];
        assert_eq!(places.iter().filter(|p| **p).count(), 1, "window {id}");
    }
    assert!(!ws.add_minimized(rec));
}

#[test]
fn same_identifier_rename_keeps_preference() {
    let a = output("DP-1", Some(42), 1920, 1080);
    let b = output("DP-2", Some(42), 1920, 1080);
    let mut ws = Workspace::new(1, a.duplicate(), false);
    assert!(ws.prefers_output(&a));
    ws.set_output(&b, false);
    assert!(ws.prefers_output(&a));
    assert_eq!(ws.output_stack.len(), 2);
    ws.set_output(&a, false);
    assert!(ws.prefers_output(&a));
    assert_eq!(ws.output_stack.len(), 1);
    assert_eq!(ws.explicit_output().name, "DP-1");
}

#[test]
fn explicit_move_forgets_history() {
    let a = output("DP-1", Some(1), 1920, 1080);
    let b = output("HDMI-1", Some(2), 1920, 1080);
    let mut ws = Workspace::new(1, a.duplicate(), false);
    ws.set_output(&b, false);
    assert!(ws.prefers_output(&a));
    ws.set_output(&b, true);
    assert!(!ws.prefers_output(&a));
    assert_eq!(ws.explicit_output().name, "HDMI-1");
}

#[test]
fn replacing_pending_blocker_releases_it_early() {
    let mut ws = Workspace::new(1, output("DP-1", None, 1920, 1080), false);
    ws.floating_layer.map(window(5, 0, 0, 100, 100));
    ws.fullscreen_request(5, None, Rect::new(0, 0, 1, 1), 0, 2000);
    let first = ws.fullscreen.unwrap().animation_signal.unwrap();
    assert!(ws.update_animations(2000).is_empty());
    assert!(!ws.signals.is_released(first));
    let _ = ws.unfullscreen_request(5, 2000);
    assert!(ws.signals.is_released(first));
}

#[test]
fn second_fullscreen_request_is_ignored() {
    let mut ws = Workspace::new(1, output("DP-1", None, 1920, 1080), false);
    ws.floating_layer.map(window(5, 0, 0, 100, 100));
    ws.floating_layer.map(window(6, 0, 0, 100, 100));
    ws.fullscreen_request(5, None, Rect::new(0, 0, 1, 1), 0, 100);
    ws.fullscreen_request(6, None, Rect::new(0, 0, 1, 1), 0, 150);
    assert_eq!(ws.get_fullscreen(), Some(5));
    assert!(ws.is_fullscreen(5));
    assert!(!ws.is_fullscreen(6));
    assert!(!ws.is_floating(5));
}

#[test]
fn minimizing_fullscreen_window_carries_snapshot() {
    let mut ws = Workspace::new(1, output("DP-1", None, 1920, 1080), false);
    ws.floating_layer.map(window(5, 10, 10, 400, 300));
    ws.fullscreen_request(5, None, Rect::new(0, 0, 1, 1), 0, 1000);
    let rec = ws.minimize(5, Rect::new(0, 0, 1, 1), 1100).unwrap();
    let snap = rec.fullscreen.unwrap();
    assert_eq!(snap.surface, 5);
    assert_eq!(snap.start_at, Some(1000));
    let live = ws.fullscreen.unwrap();
    // 100 ms of enter used, 100 ms of exit left
    assert_eq!(live.ended_at, Some(1000));
    assert_eq!(live.start_at, None);
    assert!(ws.add_minimized(rec));
    assert!(ws.is_fullscreen(5));
    assert_eq!(ws.unfullscreen_request(5, 1200), None);
    assert!(!ws.is_fullscreen(5));
    assert!(ws.is_floating(5));
}

#[test]
fn unminimize_restores_fullscreen_with_new_enter() {
    let mut ws = Workspace::new(1, output("DP-1", None, 1920, 1080), false);
    ws.floating_layer.map(window(5, 10, 10, 400, 300));
    ws.fullscreen_request(5, None, Rect::new(0, 0, 1, 1), 0, 1000);
    let rec = ws.minimize(5, Rect::new(0, 0, 1, 1), 1300).unwrap();
    ws.update_animations(1600);
    assert!(ws.fullscreen.is_none());
    ws.unminimize(rec, Rect::new(0, 0, 1, 1), 0, 2000);
    let f = ws.fullscreen.unwrap();
    assert_eq!(f.surface, 5);
    assert_eq!(f.start_at, Some(2000));
    assert_eq!(f.ended_at, None);
}

#[test]
fn unmap_reports_layer_and_clears_focus() {
    let mut ws = Workspace::new(1, output("DP-1", None, 1920, 1080), true);
    ws.tiling_layer.map(window(1, 0, 0, 100, 100));
    ws.floating_layer.map(window(2, 0, 0, 100, 100));
    ws.focus_stack.append(9, 1);
    ws.focus_stack.append(9, 2);
    assert_eq!(ws.focus_stack.get(9), vec![1, 2]);
    let st = ws.unmap(1).unwrap();
    assert_eq!(st.layer, ManagedLayer::Tiling);
    assert!(st.was_fullscreen.is_none());
    assert_eq!(ws.focus_stack.get(9), vec![2]);
    assert_eq!(ws.unmap(2).unwrap().layer, ManagedLayer::Floating);
    assert!(ws.unmap(2).is_none());
    assert!(ws.is_empty());
    assert!(ws.can_auto_remove(false));
    assert!(!ws.can_auto_remove(true));
}

#[test]
fn focus_append_moves_window_to_top() {
    let mut ws = Workspace::new(1, output("DP-1", None, 1920, 1080), true);
    ws.focus_stack.append(1, 10);
    ws.focus_stack.append(1, 11);
    ws.focus_stack.append(1, 10);
    ws.focus_stack.append(2, 12);
    assert_eq!(ws.focus_stack.get(1), vec![11, 10]);
    assert_eq!(ws.focus_stack.focused(1), Some(10));
    assert_eq!(ws.focus_stack.get(2), vec![12]);
    assert_eq!(ws.focus_stack.focused(3), None);
}

#[test]
fn refresh_focus_stack_drops_unmapped() {
    let mut ws = Workspace::new(1, output("DP-1", None, 1920, 1080), true);
    ws.tiling_layer.map(window(1, 0, 0, 100, 100));
    ws.focus_stack.append(1, 1);
    ws.focus_stack.append(1, 2);
    ws.focus_stack.append(1, 3);
    ws.refresh_focus_stack();
    assert_eq!(ws.focus_stack.get(1), vec![1]);
}

#[test]
fn toggle_focused_window_moves_it() {
    let mut ws = Workspace::new(1, output("DP-1", None, 1920, 1080), true);
    ws.tiling_layer.map(window(1, 0, 0, 100, 100));
    ws.tiling_layer.map(window(2, 0, 0, 100, 100));
    ws.focus_stack.append(4, 2);
    ws.toggle_floating_window_focused(4);
    assert_eq!(tiling_ids(&ws), vec![1]);
    assert_eq!(floating_ids(&ws), vec![2]);
    ws.set_tiling(false, 4);
    ws.toggle_floating_window(4, 2);
    assert_eq!(floating_ids(&ws), vec![2, 1]);
}

#[test]
fn maximize_and_unmaximize() {
    let mut ws = Workspace::new(1, output("DP-1", None, 1920, 1080), false);
    ws.floating_layer.map(window(1, 50, 60, 300, 200));
    assert!(ws.maximize_request(1));
    assert!(!ws.maximize_request(1));
    assert_eq!(ws.element_geometry(1), Some(Rect::new(0, 0, 1920, 1080)));
    assert!(ws.is_maximized(1));
    assert_eq!(ws.unmaximize_request(1), Some(Size { w: 300, h: 200 }));
    assert_eq!(ws.element_geometry(1), Some(Rect::new(50, 60, 300, 200)));
    assert_eq!(ws.unmaximize_request(1), None);
}

#[test]
fn maximized_window_survives_tiling_switch() {
    let mut ws = Workspace::new(1, output("DP-1", None, 1920, 1080), false);
    ws.floating_layer.map(window(1, 50, 60, 300, 200));
    ws.maximize_request(1);
    ws.set_tiling(true, 0);
    assert!(ws.is_maximized(1));
    let st = ws.tiling_layer.get(0).maximized.unwrap();
    assert_eq!(st.original_layer, ManagedLayer::Tiling);
    assert_eq!(st.original_geometry, Rect::new(50, 60, 300, 200));
}

#[test]
fn minimized_maximized_tiled_window_comes_back_maximized() {
    let mut ws = Workspace::new(1, output("DP-1", None, 1920, 1080), true);
    ws.tiling_layer.map(window(1, 0, 0, 960, 1080));
    ws.maximize_request(1);
    let rec = ws.minimize(1, Rect::new(0, 0, 1, 1), 0).unwrap();
    assert_eq!(rec.previous_state, MinimizedState::Tiling { tiling_state: Some(0), was_maximized: true });
    ws.unminimize(rec, Rect::new(0, 0, 1, 1), 0, 0);
    assert!(ws.is_maximized(1));
    assert_eq!(ws.element_geometry(1), Some(Rect::new(0, 0, 1920, 1080)));
}

#[test]
fn unmaximize_minimized_window_resets_record() {
    let mut ws = Workspace::new(1, output("DP-1", None, 1920, 1080), false);
    ws.floating_layer.map(window(1, 50, 60, 300, 200));
    ws.maximize_request(1);
    let rec = ws.minimize(1, Rect::new(0, 0, 1, 1), 0).unwrap();
    assert!(ws.add_minimized(rec));
    assert_eq!(ws.unmaximize_request(1), Some(Size { w: 300, h: 200 }));
    let m = ws.take_minimized(1).unwrap();
    assert_eq!(m.previous_state, MinimizedState::Floating { position: Point { x: 50, y: 60 } });
    assert!(m.window.maximized.is_none());
    assert!(ws.take_minimized(1).is_none());
}

#[test]
fn fullscreen_request_unminimizes_first() {
    let mut ws = Workspace::new(1, output("DP-1", None, 1920, 1080), false);
    ws.floating_layer.map(window(1, 50, 60, 300, 200));
    let rec = ws.minimize(1, Rect::new(0, 0, 1, 1), 0).unwrap();
    ws.add_minimized(rec);
    ws.fullscreen_request(1, None, Rect::new(0, 0, 1, 1), 0, 10);
    assert!(ws.find_minimized(1).is_none());
    assert!(ws.floating_layer.contains(1));
    assert_eq!(ws.fullscreen.unwrap().original_geometry, Rect::new(50, 60, 300, 200));
}

#[test]
fn remove_fullscreen_returns_window() {
    let mut ws = Workspace::new(1, output("DP-1", None, 1920, 1080), true);
    ws.tiling_layer.map(window(3, 0, 0, 100, 100));
    ws.fullscreen_request(3, Some((ManagedLayer::Tiling, 1)), Rect::new(0, 0, 1, 1), 0, 10);
    assert_eq!(ws.remove_fullscreen(20), Some((3, ManagedLayer::Tiling, 1)));
    assert_eq!(ws.get_fullscreen(), None);
    assert_eq!(ws.remove_fullscreen(30), None);
}

#[test]
fn pinned_round_trip() {
    let pinned = PinnedWorkspace {
        output: OutputMatch { name: "DP-3".to_string(), edid: Some(99) },
        tiling_enabled: true,
    };
    let ws = Workspace::from_pinned(&pinned, 4, output("DP-1", Some(5), 1920, 1080));
    assert!(ws.pinned);
    assert_eq!(ws.output_stack.len(), 2);
    let back = ws.to_pinned().unwrap();
    assert_eq!(back.output.name, "DP-3");
    assert_eq!(back.output.edid, Some(99));
    assert!(back.tiling_enabled);
    let same = Workspace::from_pinned(&pinned, 4, output("DP-3", Some(99), 1920, 1080));
    assert_eq!(same.output_stack.len(), 1);
    assert!(!same.can_auto_remove(false));
    assert!(Workspace::new(1, output("DP-1", None, 10, 10), false).to_pinned().is_none());
}

#[test]
fn set_output_lists_windows_to_notify() {
    let mut ws = Workspace::new(1, output("DP-1", None, 1920, 1080), true);
    ws.tiling_layer.map(window(1, 0, 0, 100, 100));
    ws.floating_layer.map(window(2, 0, 0, 100, 100));
    let rec = ws.minimize(1, Rect::new(0, 0, 1, 1), 0).unwrap();
    ws.add_minimized(rec);
    let mut moved = ws.set_output(&output("DP-2", None, 800, 600), false);
    moved.sort();
    assert_eq!(moved, vec![1, 2]);
    assert_eq!(ws.output().name, "DP-2");
}

#[test]
fn render_orders_fullscreen_windows_and_backdrop() {
    let mut ws = Workspace::new(1, output("DP-1", None, 1920, 1080), true);
    ws.floating_layer.map(window(2, 0, 0, 100, 100));
    ws.tiling_layer.map(window(1, 0, 0, 100, 100));
    ws.focus_stack.append(7, 1);
    let frame = ws.render(0, OverviewMode::Active, Some(7), Size { w: 1920, h: 1080 }, true).unwrap();
    assert_eq!(
        frame,
        vec![
            WorkspaceRenderElement::Window { window: 2, alpha: 600, focused: false },
            WorkspaceRenderElement::Window { window: 1, alpha: 600, focused: true },
            WorkspaceRenderElement::Backdrop { geometry: Rect::new(0, 0, 1920, 1080), alpha: 850 },
        ]
    );
    let frame = ws.render(0, OverviewMode::Inactive, None, Size { w: 1920, h: 1080 }, true).unwrap();
    assert_eq!(frame.len(), 2);
    assert!(ws.render(0, OverviewMode::Inactive, None, Size { w: 1, h: 1 }, false).is_err());
    assert!(ws.render_popups(0, OverviewMode::Inactive, Size { w: 1, h: 1 }, false).is_err());
}

#[test]
fn render_fullscreen_phases() {
    let mut ws = Workspace::new(1, output("DP-1", None, 1920, 1080), false);
    ws.floating_layer.map(window(5, 100, 100, 800, 600));
    ws.fullscreen_request(5, None, Rect::new(0, 0, 1, 1), 0, 1000);
    let frame = ws.render(1050, OverviewMode::Inactive, None, Size { w: 1920, h: 1080 }, true).unwrap();
    assert_eq!(frame.len(), 2);
    match frame[0] {
        WorkspaceRenderElement::Fullscreen(e) => {
            assert_eq!(e.phase, FullscreenPhase::Entering);
            assert_eq!(e.progress, 250);
            assert_eq!(e.from, Rect::new(100, 100, 800, 600));
            assert_eq!(e.to, Rect::new(0, 0, 1920, 1080));
        }
        _ => panic!("fullscreen first"),
    }
    ws.update_animations(1300);
    // steady fullscreen covers everything else; smaller content is centred
    let frame = ws.render(1300, OverviewMode::Inactive, None, Size { w: 1280, h: 1080 }, false).unwrap();
    assert_eq!(frame.len(), 1);
    match frame[0] {
        WorkspaceRenderElement::Fullscreen(e) => {
            assert_eq!(e.phase, FullscreenPhase::Steady);
            assert_eq!(e.to, Rect::new(320, 0, 1280, 1080));
        }
        _ => panic!("fullscreen first"),
    }
    let popups = ws.render_popups(1300, OverviewMode::Inactive, Size { w: 1920, h: 1080 }, true).unwrap();
    assert!(matches!(popups[0], WorkspaceRenderElement::FullscreenPopup(_)));
    assert_eq!(ws.fullscreen_geometry(Size { w: 1920, h: 540 }), Some(Rect::new(0, 270, 1920, 540)));
}

#[test]
fn map_window_follows_tiling_mode() {
    let mut ws = Workspace::new(1, output("DP-1", None, 1920, 1080), true);
    assert!(ws.map_window(window(1, 0, 0, 100, 100)));
    assert_eq!(tiling_ids(&ws), vec![1]);
    ws.toggle_tiling(0);
    assert!(!ws.tiling_enabled);
    assert!(ws.map_window(window(2, 0, 0, 100, 100)));
    assert_eq!(floating_ids(&ws), vec![1, 2]);
    let rec = ws.minimize(2, Rect::new(0, 0, 1, 1), 0).unwrap();
    assert!(ws.add_minimized(rec));
    assert!(!ws.map_window(window(2, 0, 0, 100, 100)));
}

#[test]
fn unminimize_fullscreen_replaces_current_fullscreen() {
    let mut ws = Workspace::new(1, output("DP-1", None, 1920, 1080), false);
    ws.map_window(window(5, 10, 10, 400, 300));
    ws.map_window(window(6, 10, 10, 400, 300));
    ws.fullscreen_request(5, Some((ManagedLayer::Floating, 1)), Rect::new(0, 0, 1, 1), 0, 1000);
    let rec = ws.minimize(5, Rect::new(0, 0, 1, 1), 1300).unwrap();
    ws.update_animations(1600);
    ws.fullscreen_request(6, Some((ManagedLayer::Floating, 1)), Rect::new(0, 0, 1, 1), 0, 2000);
    let sixth = ws.fullscreen.unwrap().animation_signal.unwrap();
    let back = ws.unminimize(rec, Rect::new(0, 0, 1, 1), 0, 2100);
    assert_eq!(back, Some((6, ManagedLayer::Floating, 1)));
    assert_eq!(ws.get_fullscreen(), Some(5));
    assert!(ws.signals.is_released(sixth));
}

#[test]
fn late_exit_request_stays_within_duration() {
    let mut ws = Workspace::new(1, output("DP-1", None, 1920, 1080), false);
    ws.map_window(window(5, 10, 10, 400, 300));
    ws.fullscreen_request(5, None, Rect::new(0, 0, 1, 1), 0, 1000);
    let _ = ws.unfullscreen_request(5, 1150);
    let e = ws.fullscreen.unwrap().ended_at.unwrap();
    assert_eq!(e, 1000);
    assert_eq!(e + 200, 1200);
}

#[test]
fn dirty_tick_waits_for_animation_end() {
    let mut ws = Workspace::new(1, output("DP-1", None, 1920, 1080), false);
    ws.map_window(window(5, 10, 10, 400, 300));
    ws.dirty = true;
    ws.fullscreen_request(5, None, Rect::new(0, 0, 1, 1), 0, 1000);
    assert!(ws.animations_going());
    assert!(ws.dirty);
    ws.update_animations(1201);
    assert!(ws.animations_going());
    assert!(!ws.dirty);
    assert!(!ws.animations_going());
}

#[test]
fn unmap_clears_every_focus_stack() {
    let mut ws = Workspace::new(1, output("DP-1", None, 1920, 1080), false);
    ws.map_window(window(5, 10, 10, 400, 300));
    ws.map_window(window(6, 10, 10, 400, 300));
    ws.focus_stack.append(1, 5);
    ws.focus_stack.append(2, 6);
    ws.focus_stack.append(2, 5);
    ws.unmap(5);
    assert_eq!(ws.focus_stack.get(1), Vec::<u64>::new());
    assert_eq!(ws.focus_stack.get(2), vec![6]);
}

#[test]
fn restored_snapshot_on_new_output_releases_old_blocker() {
    let mut ws = Workspace::new(1, output("DP-1", None, 1920, 1080), false);
    ws.map_window(window(5, 10, 10, 400, 300));
    ws.fullscreen_request(5, None, Rect::new(0, 0, 1, 1), 0, 1000);
    let first = ws.fullscreen.unwrap().animation_signal.unwrap();
    let rec = ws.minimize(5, Rect::new(0, 0, 1, 1), 1010).unwrap();
    assert_eq!(rec.fullscreen.unwrap().animation_signal, Some(first));
    assert!(!ws.signals.is_released(first));
    ws.set_output(&output("DP-2", None, 1280, 720), false);
    ws.unminimize(rec, Rect::new(0, 0, 1, 1), 0, 1020);
    assert!(ws.signals.is_released(first));
    let fresh = ws.fullscreen.unwrap().animation_signal.unwrap();
    assert_ne!(fresh, first);
    assert!(!ws.signals.is_released(fresh));
}

#[test]
fn stored_snapshot_drops_its_signal() {
    let mut ws = Workspace::new(1, output("DP-1", None, 1920, 1080), false);
    ws.map_window(window(5, 10, 10, 400, 300));
    ws.fullscreen_request(5, None, Rect::new(0, 0, 1, 1), 0, 1000);
    let rec = ws.minimize(5, Rect::new(0, 0, 1, 1), 1010).unwrap();
    assert!(ws.add_minimized(rec));
    let stored = ws.minimized_windows[0];
    assert_eq!(stored.fullscreen.unwrap().animation_signal, None);
    assert_eq!(stored.fullscreen.unwrap().surface, 5);
    // a window that is the live fullscreen window is not stored as minimized
    let mut other = Workspace::new(2, output("DP-1", None, 1920, 1080), false);
    other.fullscreen_request(9, None, Rect::new(0, 0, 1, 1), 0, 0);
    let mut rec9 = rec;
    rec9.window.id = 9;
    rec9.fullscreen = None;
    assert!(!other.add_minimized(rec9));
}

#[test]
fn resize_moves_edges_and_refuses_fullscreen() {
    let mut ws = Workspace::new(1, output("DP-1", None, 1920, 1080), false);
    ws.map_window(window(5, 100, 100, 400, 300));
    let all = ResizeEdge { top: true, bottom: false, left: true, right: false };
    assert!(ws.resize(&KeyboardFocusTarget::Element(5), ResizeDirection::Outwards, all, 10));
    assert_eq!(ws.element_geometry(5), Some(Rect::new(90, 90, 410, 310)));
    let right = ResizeEdge { top: false, bottom: false, left: false, right: true };
    assert!(ws.resize(&KeyboardFocusTarget::Element(5), ResizeDirection::Inwards, right, 10));
    assert_eq!(ws.element_geometry(5), Some(Rect::new(90, 90, 400, 310)));
    assert!(!ws.resize(&KeyboardFocusTarget::Element(5), ResizeDirection::Inwards, right, 400));
    assert_eq!(ws.element_geometry(5), Some(Rect::new(90, 90, 400, 310)));
    assert!(!ws.resize(&KeyboardFocusTarget::Element(6), ResizeDirection::Outwards, right, 1));
    ws.fullscreen_request(5, None, Rect::new(0, 0, 1, 1), 0, 0);
    assert!(!ws.resize(&KeyboardFocusTarget::Fullscreen(5), ResizeDirection::Outwards, right, 1));
    assert!(!ws.resize(&KeyboardFocusTarget::Element(5), ResizeDirection::Outwards, right, 1));
    assert_eq!(ws.element_geometry(5), Some(Rect::new(90, 90, 400, 310)));
}
