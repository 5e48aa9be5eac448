//! Per-frame composition: the ordered elements a workspace draws.
use vstd::prelude::*;

use crate::animation::{
    backdrop_alpha, backdrop_alpha_spec, overview_alpha, overview_alpha_spec, progress,
    progress_spec, window_alpha, window_alpha_spec, OverviewMode, FULL,
};
use crate::geometry::{center_in_output, centered_rect, Point, Rect, Size};
use crate::layout::{geometry_in, has_id, Layout, Mapped};
use crate::workspace::{FullscreenSurface, Workspace};

verus! {

/// Where the fullscreen animation is.
#[derive(Clone, Copy, Debug, PartialEq, Eq, Structural)]
pub enum FullscreenPhase {
    Entering,
    Steady,
    Exiting,
}

/// The fullscreen window as drawn this frame: interpolated from `from` to `to` by `progress`
/// (thousandths, eased when drawn), fading in while entering and out while exiting.
#[derive(Clone, Copy, Debug, PartialEq, Eq, Structural)]
pub struct FullscreenElement {
    pub window: u64,
    pub phase: FullscreenPhase,
    pub from: Rect,
    pub to: Rect,
    pub progress: u32,
}

/// One element of a frame, in drawing order.
#[derive(Clone, Copy, Debug, PartialEq, Eq, Structural)]
pub enum WorkspaceRenderElement {
    OverrideRedirect { surface: u64 },
    Fullscreen(FullscreenElement),
    FullscreenPopup(FullscreenElement),
    /// A floating or tiled window, with its opacity in thousandths.
    Window { window: u64, alpha: u32, focused: bool },
    /// The darkening quad behind windows in overview, opacity in thousandths.
    Backdrop { geometry: Rect, alpha: u32 },
}

/// The output the workspace draws on is not mapped.
#[derive(Clone, Copy, Debug, PartialEq, Eq, Structural)]
pub struct OutputNotMapped;

/// The element of a layer's window.
pub open spec fn window_element(m: Mapped, alpha: u32, focused: Option<u64>) -> WorkspaceRenderElement {
    WorkspaceRenderElement::Window { window: m.id, alpha, focused: focused == Some(m.id) }
}

pub open spec fn window_elements(s: Seq<Mapped>, alpha: u32, focused: Option<u64>) -> Seq<
    WorkspaceRenderElement,
> {
    s.map_values(|m: Mapped| window_element(m, alpha, focused))
}

/// Where the fullscreen window starts from or returns to: its place in its layer (at the
/// origin when it has none), at its pre-fullscreen size.
pub open spec fn element_rect(ws: &Workspace, f: FullscreenSurface) -> Rect {
    let loc = if has_id(ws.floating_layer@, f.surface) {
        geometry_in(ws.floating_layer@, f.surface).loc
    } else if has_id(ws.tiling_layer@, f.surface) {
        geometry_in(ws.tiling_layer@, f.surface).loc
    } else {
        Point { x: 0, y: 0 }
    };
    Rect { loc, size: f.original_geometry.size }
}

/// The rectangle the fullscreen window covers: the whole output while entering, and once
/// steady its content centred where it is smaller than the output.
pub open spec fn full_rect(ws: &Workspace, f: FullscreenSurface, bbox: Size) -> Rect {
    if f.start_at.is_some() {
        Rect { loc: Point { x: 0, y: 0 }, size: ws.output.geometry.size }
    } else {
        centered_rect(bbox, ws.output.geometry.size)
    }
}

pub open spec fn fullscreen_element_spec(ws: &Workspace, f: FullscreenSurface, bbox: Size, now: u64) -> FullscreenElement {
    match (f.start_at, f.ended_at) {
        (Some(s), _) => FullscreenElement {
            window: f.surface,
            phase: FullscreenPhase::Entering,
            from: element_rect(ws, f),
            to: full_rect(ws, f, bbox),
            progress: progress_spec(s, now) as u32,
        },
        (None, Some(e)) => FullscreenElement {
            window: f.surface,
            phase: FullscreenPhase::Exiting,
            from: full_rect(ws, f, bbox),
            to: element_rect(ws, f),
            progress: progress_spec(e, now) as u32,
        },
        (None, None) => FullscreenElement {
            window: f.surface,
            phase: FullscreenPhase::Steady,
            from: full_rect(ws, f, bbox),
            to: full_rect(ws, f, bbox),
            progress: FULL,
        },
    }
}

/// Whether floating and tiled windows are drawn: unless a fullscreen window covers them
/// without animating.
pub open spec fn windows_visible(ws: &Workspace) -> bool {
    match ws.fullscreen {
        Some(f) => f.start_at.is_some() || f.ended_at.is_some(),
        None => true,
    }
}

/// The seat's focused window, drawn with a focus indicator when nothing is fullscreen.
pub open spec fn focus_spec(ws: &Workspace, seat: Option<u64>) -> Option<u64> {
    match seat {
        Some(s) => if ws.fullscreen.is_none() && ws.focus_stack.stack_of(s).len() > 0 {
            Some(ws.focus_stack.stack_of(s).last())
        } else {
            None
        },
        None => None,
    }
}

/// The frame: the fullscreen window first; then, unless it covers them, floating windows,
/// tiled windows, and in overview a backdrop over the whole output.
pub open spec fn frame_spec(
    ws: &Workspace,
    now: u64,
    overview: OverviewMode,
    seat: Option<u64>,
    bbox: Size,
) -> Seq<WorkspaceRenderElement> {
    let head = match ws.fullscreen {
        Some(f) => seq![WorkspaceRenderElement::Fullscreen(fullscreen_element_spec(ws, f, bbox, now))],
        None => Seq::empty(),
    };
    if windows_visible(ws) {
        let alpha = window_alpha_spec(overview, now) as u32;
        let focused = focus_spec(ws, seat);
        let tail = match overview_alpha_spec(overview, now) {
            Some(a) => seq![
                WorkspaceRenderElement::Backdrop {
                    geometry: Rect { loc: Point { x: 0, y: 0 }, size: ws.output.geometry.size },
                    alpha: backdrop_alpha_spec(a) as u32,
                },
            ],
            None => Seq::empty(),
        };
        head + window_elements(ws.floating_layer@, alpha, focused) + window_elements(
            ws.tiling_layer@,
            alpha,
            focused,
        ) + tail
    } else {
        head
    }
}

/// The popup frame: the fullscreen window's popups first, then, unless it covers them, the
/// popups of floating and tiled windows.
pub open spec fn popup_frame_spec(
    ws: &Workspace,
    now: u64,
    overview: OverviewMode,
    bbox: Size,
) -> Seq<WorkspaceRenderElement> {
    let head = match ws.fullscreen {
        Some(f) => seq![
            WorkspaceRenderElement::FullscreenPopup(fullscreen_element_spec(ws, f, bbox, now)),
        ],
        None => Seq::empty(),
    };
    if windows_visible(ws) {
        let alpha = window_alpha_spec(overview, now) as u32;
        head + window_elements(ws.floating_layer@, alpha, None) + window_elements(
            ws.tiling_layer@,
            alpha,
            None,
        )
    } else {
        head
    }
}

fn push_windows(
    out: &mut Vec<WorkspaceRenderElement>,
    layer: &Layout,
    alpha: u32,
    focused: Option<u64>,
)
    ensures
        final(out)@ == old(out)@ + window_elements(layer@, alpha, focused),
{
    let ghost start = out@;
    let n = layer.len();
    let mut i: usize = 0;
    while i < n
        invariant
            n == layer@.len(),
            i <= n,
            out@ == start + window_elements(layer@.subrange(0, i as int), alpha, focused),
        decreases n - i,
    {
        let m = layer.get(i);
        let focus = match focused {
            Some(f) => f == m.id,
            None => false,
        };
        out.push(WorkspaceRenderElement::Window { window: m.id, alpha, focused: focus });
        assert(window_elements(layer@.subrange(0, i + 1), alpha, focused) =~= window_elements(
            layer@.subrange(0, i as int),
            alpha,
            focused,
        ).push(window_element(m, alpha, focused)));
        i = i + 1;
    }
    assert(layer@.subrange(0, n as int) =~= layer@);
}

impl Workspace {
    fn fullscreen_element(&self, f: FullscreenSurface, bbox: Size, now: u64) -> (r: FullscreenElement)
        requires
            self.wf(),
            bbox.is_valid(),
            f.wf(self.signals@.len()),
        ensures
            r == fullscreen_element_spec(self, f, bbox, now),
    {
        let out = self.output.geometry.size;
        let loc = match self.element_geometry(f.surface) {
            Some(g) => g.loc,
            None => Point { x: 0, y: 0 },
        };
        let element = Rect { loc, size: f.original_geometry.size };
        let full = if f.start_at.is_some() {
            Rect::from_size(out)
        } else {
            center_in_output(bbox, out)
        };
        match (f.start_at, f.ended_at) {
            (Some(s), _) => FullscreenElement {
                window: f.surface,
                phase: FullscreenPhase::Entering,
                from: element,
                to: full,
                progress: progress(s, now),
            },
            (None, Some(e)) => FullscreenElement {
                window: f.surface,
                phase: FullscreenPhase::Exiting,
                from: full,
                to: element,
                progress: progress(e, now),
            },
            (None, None) => FullscreenElement {
                window: f.surface,
                phase: FullscreenPhase::Steady,
                from: full,
                to: full,
                progress: FULL,
            },
        }
    }

    /// The elements of a frame at `now`, in drawing order; `bbox` is the size the fullscreen
    /// window's content has. Fails when the windows are to be drawn on an output that is not
    /// mapped.
    pub fn render(
        &self,
        now: u64,
        overview: OverviewMode,
        draw_focus_indicator: Option<u64>,
        bbox: Size,
        output_mapped: bool,
    ) -> (r: Result<Vec<WorkspaceRenderElement>, OutputNotMapped>)
        requires
            self.wf(),
            bbox.is_valid(),
        ensures
            r.is_err() == (windows_visible(self) && !output_mapped),
            r matches Ok(v) ==> v@ == frame_spec(self, now, overview, draw_focus_indicator, bbox),
    {
        let mut elements: Vec<WorkspaceRenderElement> = Vec::new();
        if let Some(f) = self.fullscreen {
            elements.push(WorkspaceRenderElement::Fullscreen(self.fullscreen_element(f, bbox, now)));
        }
        let visible = match &self.fullscreen {
            Some(f) => f.is_animating(),
            None => true,
        };
        if visible {
            let focused = match draw_focus_indicator {
                Some(seat) => if self.fullscreen.is_none() {
                    self.focus_stack.focused(seat)
                } else {
                    None
                },
                None => None,
            };
            let alpha = window_alpha(overview, now);
            push_windows(&mut elements, &self.floating_layer, alpha, focused);
            if !output_mapped {
                return Err(OutputNotMapped);
            }
            push_windows(&mut elements, &self.tiling_layer, alpha, focused);
            if let Some(a) = overview_alpha(overview, now) {
                elements.push(
                    WorkspaceRenderElement::Backdrop {
                        geometry: Rect::from_size(self.output.geometry.size),
                        alpha: backdrop_alpha(a),
                    },
                );
            }
        }
        proof {
            let spec = frame_spec(self, now, overview, draw_focus_indicator, bbox);
            assert(elements@ =~= spec);
        }
        Ok(elements)
    }

    /// The popup elements of a frame at `now`, in drawing order.
    pub fn render_popups(
        &self,
        now: u64,
        overview: OverviewMode,
        bbox: Size,
        output_mapped: bool,
    ) -> (r: Result<Vec<WorkspaceRenderElement>, OutputNotMapped>)
        requires
            self.wf(),
            bbox.is_valid(),
        ensures
            r.is_err() == (windows_visible(self) && !output_mapped),
            r matches Ok(v) ==> v@ == popup_frame_spec(self, now, overview, bbox),
    {
        let mut elements: Vec<WorkspaceRenderElement> = Vec::new();
        if let Some(f) = self.fullscreen {
            elements.push(
                WorkspaceRenderElement::FullscreenPopup(self.fullscreen_element(f, bbox, now)),
            );
        }
        let visible = match &self.fullscreen {
            Some(f) => f.is_animating(),
            None => true,
        };
        if visible {
            let alpha = window_alpha(overview, now);
            push_windows(&mut elements, &self.floating_layer, alpha, None);
            if !output_mapped {
                return Err(OutputNotMapped);
            }
            push_windows(&mut elements, &self.tiling_layer, alpha, None);
        }
        proof {
            assert(elements@ =~= popup_frame_spec(self, now, overview, bbox));
        }
        Ok(elements)
    }
}

} // verus!
