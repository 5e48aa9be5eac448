use cosmic_workspace::animation::{
    backdrop_alpha, fade, overview_alpha, past_midpoint, progress, reversed_start, window_alpha,
    OverviewMode,
};
use cosmic_workspace::blur::{blur_state_for_region, BackdropFill, BlurState, Blurred};
use cosmic_workspace::geometry::{center_in_output, rescale_coord, rescale_position, Point, Rect, Size};
use cosmic_workspace::signal::BlockerSignals;
use cosmic_workspace::stable_id::{hex_string, random_id};
use cosmic_workspace::workspace::{FocusResult, KeyboardFocusTarget, MoveResult, WindowGroup, Workspace};
use cosmic_workspace::affinity::{output_matches, Output, OutputMatch};

#[test]
fn rescale_examples() {
    assert_eq!(rescale_coord(960, 1920, 1280), 640);
    assert_eq!(rescale_coord(540, 1080, 720), 360);
    assert_eq!(rescale_coord(-1, 2, 1), -1);
    assert_eq!(rescale_coord(-3, 2, 1), -2);
    assert_eq!(rescale_coord(7, 2, 1), 3);
    assert_eq!(rescale_coord(i32::MAX, 1, 2), i32::MAX);
    assert_eq!(
        rescale_position(Point { x: 960, y: 540 }, Size { w: 1920, h: 1080 }, Size { w: 1280, h: 720 }),
        Point { x: 640, y: 360 }
    );
}

#[test]
fn centering_examples() {
    assert_eq!(center_in_output(Size { w: 1920, h: 1080 }, Size { w: 1920, h: 1080 }), Rect::new(0, 0, 1920, 1080));
    assert_eq!(center_in_output(Size { w: 1000, h: 2000 }, Size { w: 1920, h: 1080 }), Rect::new(460, 0, 1000, 1080));
}

#[test]
fn animation_timing() {
    assert_eq!(reversed_start(1050, Some(1000)), 1000);
    assert_eq!(reversed_start(1150, Some(1000)), 1000);
    assert_eq!(reversed_start(1500, Some(1000)), 1300);
    assert_eq!(reversed_start(1500, None), 1500);
    assert_eq!(reversed_start(10, Some(0)), 0);
    assert_eq!(progress(1000, 1100), 500);
    assert_eq!(progress(1000, 999), 0);
    assert_eq!(progress(1000, 5000), 1000);
    assert!(!past_midpoint(1000, 1100));
    assert!(past_midpoint(1000, 1101));
}

#[test]
fn overview_opacity() {
    assert_eq!(fade(0, 50), 500);
    assert_eq!(overview_alpha(OverviewMode::Inactive, 0), None);
    assert_eq!(overview_alpha(OverviewMode::Started(0), 25), Some(250));
    assert_eq!(overview_alpha(OverviewMode::Ended(0), 25), Some(750));
    assert_eq!(overview_alpha(OverviewMode::Active, 25), Some(1000));
    assert_eq!(window_alpha(OverviewMode::Inactive, 0), 1000);
    assert_eq!(window_alpha(OverviewMode::Active, 0), 600);
    assert_eq!(window_alpha(OverviewMode::Started(0), 50), 800);
    assert_eq!(window_alpha(OverviewMode::Ended(0), 200), 1000);
    assert_eq!(backdrop_alpha(1000), 850);
    assert_eq!(backdrop_alpha(500), 425);
}

#[test]
fn signals_are_one_shot() {
    let mut s = BlockerSignals::new();
    let a = s.create();
    let b = s.create();
    assert_eq!((a, b), (0, 1));
    assert!(!s.is_released(a));
    s.release(a);
    s.release(a);
    assert!(s.is_released(a));
    assert!(!s.is_released(b));
    assert!(s.is_released(7));
    assert_eq!(s.len(), 2);
}

#[test]
fn hex_ids() {
    assert_eq!(hex_string(0), "0");
    assert_eq!(hex_string(255), "ff");
    assert_eq!(hex_string(0x1ab3c), "1ab3c");
    for _ in 0..20 {
        let id = random_id();
        assert!(!id.is_empty() && id.len() <= 7);
        let n = u32::from_str_radix(&id, 16).unwrap();
        assert!(n < 33554432);
        assert_eq!(hex_string(n), id);
    }
}

#[test]
fn output_matching() {
    let m = OutputMatch { name: "DP-1".to_string(), edid: Some(3) };
    let same_id = Output { name: "DP-2".to_string(), edid: Some(3), geometry: Rect::new(0, 0, 1, 1) };
    assert!(output_matches(&m, &same_id, false));
    assert!(!output_matches(&m, &same_id, true));
    let no_id = OutputMatch { name: "DP-2".to_string(), edid: None };
    let plain = Output { name: "DP-2".to_string(), edid: None, geometry: Rect::new(0, 0, 1, 1) };
    assert!(output_matches(&no_id, &plain, false));
    assert!(!output_matches(&no_id, &same_id, false));
}

#[test]
fn blur_states() {
    let b = Blurred::new(5u32, BlurState::Blurred);
    assert_eq!(*b.inner(), 5);
    assert_eq!(b.backdrop_fill(), BackdropFill::Black);
    let mut p = Blurred::new(1u32, blur_state_for_region(Some(vec![Rect::new(0, 0, 2, 2)])));
    *p.inner_mut() = 9;
    assert_eq!(*p.inner(), 9);
    assert_eq!(p.backdrop_fill(), BackdropFill::Nothing);
    assert!(matches!(blur_state_for_region(None), BlurState::Blurred));
    assert_eq!(Blurred::new(0u8, BlurState::Unblurred).backdrop_fill(), BackdropFill::Nothing);
}

#[test]
fn or_else_only_on_nothing() {
    let r = FocusResult::Nothing.or_else(|| FocusResult::Handled);
    assert!(matches!(r, FocusResult::Handled));
    let r = FocusResult::Target(KeyboardFocusTarget::Element(3)).or_else(|| FocusResult::Handled);
    assert!(matches!(r, FocusResult::Target(KeyboardFocusTarget::Element(3))));
    let r = MoveResult::Done.or_else(|| MoveResult::Nothing);
    assert!(matches!(r, MoveResult::Done));
    let r = MoveResult::Nothing.or_else(|| MoveResult::ShiftFocus(KeyboardFocusTarget::Fullscreen(1)));
    assert!(matches!(r, MoveResult::ShiftFocus(KeyboardFocusTarget::Fullscreen(1))));
}

#[test]
fn node_descriptions() {
    let mut ws = Workspace::new(8, Output { name: "DP-1".to_string(), edid: None, geometry: Rect::new(0, 0, 100, 100) }, true);
    ws.tiling_layer.map(cosmic_workspace::layout::Mapped { id: 1, geometry: Rect::new(0, 0, 50, 50), maximized: None });
    let d = ws.node_desc(KeyboardFocusTarget::Element(1)).unwrap();
    assert_eq!((d.handle, d.node, d.stack_window, d.focus_stack), (8, 1, None, vec![1]));
    assert!(ws.node_desc(KeyboardFocusTarget::Element(2)).is_none());
    assert!(ws.node_desc(KeyboardFocusTarget::Fullscreen(1)).is_none());
    let g = ws.node_desc(KeyboardFocusTarget::Group(WindowGroup { node: 4, focus_stack: vec![1, 2] })).unwrap();
    assert_eq!((g.node, g.focus_stack), (4, vec![1, 2]));
    ws.maximize_request(1);
    assert!(ws.node_desc(KeyboardFocusTarget::Element(1)).is_none());
}
