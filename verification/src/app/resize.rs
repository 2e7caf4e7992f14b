//! Resizing panes and sidebars with the mouse.
use vstd::prelude::*;
use vstd::string::*;

use super::App;
use crate::docks::{Side, SideView, SIDEBAR_WIDTH_MAX, SIDEBAR_WIDTH_MIN};
use crate::geometry;
use crate::geometry::Rect;
use crate::ids::PaneId;
use crate::layout::{Axis, Divider};
use crate::menus::{Mode, ResizeDrag};
use crate::text;

verus! {

/// How far from a divider it can still be grabbed.
pub const RESIZE_GRAB_TOL: u16 = 2;

/// How far beside the edge of a sidebar, on the side of the panes, it can still
/// be grabbed.
pub const SIDEBAR_GRAB_TOL: u16 = 2;

/// How many columns are always left to the panes.
pub const CONTENT_MIN: u16 = 24;

/// The first pane from `n` on that is at the cell.
pub open spec fn pane_at(rects: Seq<(PaneId, Rect)>, c: u16, r: u16, n: int) -> Option<int>
    decreases rects.len() - n,
{
    if n < 0 || n >= rects.len() {
        None
    } else if rects[n].1.has_cell(c, r) {
        Some(n)
    } else {
        pane_at(rects, c, r, n + 1)
    }
}

/// The pane that is at the cell.
fn find_at(rects: &Vec<(PaneId, Rect)>, c: u16, r: u16) -> (at: Option<usize>)
    ensures
        match at {
            Some(i) => i < rects@.len() && pane_at(rects@, c, r, 0) == Some(i as int),
            None => pane_at(rects@, c, r, 0) is None,
        },
{
    let mut n: usize = 0;
    while n < rects.len()
        invariant
            n <= rects@.len(),
            pane_at(rects@, c, r, 0) == pane_at(rects@, c, r, n as int),
        decreases rects@.len() - n,
    {
        if rects[n].1.contains(c, r) {
            return Some(n);
        }
        n = n + 1;
    }
    None
}

/// Whether the cell is in the rectangle, where there is one.
pub open spec fn opt_has_cell(rect: Option<Rect>, c: u16, r: u16) -> bool {
    rect is Some && rect->0.has_cell(c, r)
}

fn opt_contains(rect: Option<Rect>, c: u16, r: u16) -> (b: bool)
    ensures
        b == opt_has_cell(rect, c, r),
{
    match rect {
        Some(x) => x.contains(c, r),
        None => false,
    }
}

impl App {
    /// Whether the cell is on a button or a title on the border of a pane.
    pub open spec fn on_chrome(&self, c: u16, r: u16) -> bool {
        ||| opt_has_cell(self.pane_close_rect, c, r)
        ||| opt_has_cell(self.pane_zoom_rect, c, r)
        ||| pane_at(self.pane_title_rects@, c, r, 0) is Some
    }

    /// Whether the cell is on a button or a title on the border of a pane. Those
    /// always win over a resize.
    pub fn on_pane_chrome(&self, c: u16, r: u16) -> (b: bool)
        ensures
            b == self.on_chrome(c, r),
    {
        opt_contains(self.pane_close_rect, c, r) || opt_contains(self.pane_zoom_rect, c, r)
            || find_at(&self.pane_title_rects, c, r).is_some()
    }

    /// The pane whose content is at the cell.
    pub open spec fn content_at(&self, c: u16, r: u16) -> Option<PaneId> {
        match pane_at(self.pane_content_rects@, c, r, 0) {
            Some(i) => Some(self.pane_content_rects@[i].0),
            None => None,
        }
    }

    /// The pane whose content is at the cell.
    pub fn pane_content_at(&self, c: u16, r: u16) -> (p: Option<PaneId>)
        ensures
            p == self.content_at(c, r),
    {
        match find_at(&self.pane_content_rects, c, r) {
            Some(i) => Some(self.pane_content_rects[i].0),
            None => None,
        }
    }

    /// Whether the program in the pane tracks the mouse.
    pub open spec fn tracks_mouse(&self, p: Option<PaneId>) -> bool {
        p is Some && self.panes@.dom().contains(p->0) && self.panes@[p->0].mouse_report
    }

    fn is_tracking(&self, p: Option<PaneId>) -> (b: bool)
        requires
            self.maps_wf(),
        ensures
            b == self.tracks_mouse(p),
    {
        match p {
            Some(id) => match self.panes.get(id) {
                Some(pane) => pane.mouse_report,
                None => false,
            },
            None => false,
        }
    }

    /// Whether panes can be resized from the cell: the active tab has panes to
    /// resize, and the cell is on no button or title.
    pub open spec fn can_resize(&self, c: u16, r: u16) -> bool {
        &&& self.active_tab().git is None
        &&& !self.active_tab().orch
        &&& !self.on_chrome(c, r)
    }

    /// What grabbing a divider leaves behind.
    pub open spec fn grabbed(&self, after: &App, divider: Divider) -> bool {
        &&& after.resize_drag is Some
        &&& after.resize_drag->0.path == divider.path
        &&& after.resize_drag->0.axis == divider.axis
        &&& *after == (App { resize_drag: after.resize_drag, ..*self })
    }

    /// Starts to drag a divider. `divider` is the one within reach of the cell.
    /// Buttons, titles and the contents of panes keep their clicks. Says whether
    /// a drag began.
    pub fn begin_resize(&mut self, c: u16, r: u16, divider: Option<Divider>) -> (began: bool)
        requires
            old(self).wf(),
            old(self).workspaces@.len() > 0,
        ensures
            final(self).wf(),
            began == (old(self).can_resize(c, r) && old(self).content_at(c, r) is None
                && divider is Some),
            began ==> old(self).grabbed(final(self), divider->0),
            !began ==> *final(self) == *old(self),
    {
        if self.active_is_git() || self.active_is_orch() || self.on_pane_chrome(c, r) {
            return false;
        }
        if self.pane_content_at(c, r).is_some() {
            return false;
        }
        match divider {
            Some(d) => {
                self.resize_drag = Some(ResizeDrag { path: d.path, axis: d.axis });
                true
            },
            None => false,
        }
    }

    /// Starts to drag the nearest divider from anywhere but a pane whose program
    /// tracks the mouse. Says whether a drag began.
    pub fn begin_resize_nearest(&mut self, c: u16, r: u16, divider: Option<Divider>) -> (began: bool)
        requires
            old(self).wf(),
            old(self).workspaces@.len() > 0,
        ensures
            final(self).wf(),
            began == (old(self).can_resize(c, r) && !old(self).tracks_mouse(
                old(self).outer_pane_at(c, r),
            ) && divider is Some),
            began ==> old(self).grabbed(final(self), divider->0),
            !began ==> *final(self) == *old(self),
    {
        if self.active_is_git() || self.active_is_orch() || self.on_pane_chrome(c, r) {
            return false;
        }
        let under: Option<PaneId> = match find_at(&self.pane_rects, c, r) {
            Some(i) => Some(self.pane_rects[i].0),
            None => None,
        };
        if self.is_tracking(under) {
            return false;
        }
        match divider {
            Some(d) => {
                self.resize_drag = Some(ResizeDrag { path: d.path, axis: d.axis });
                true
            },
            None => false,
        }
    }

    /// The pane that is at the cell, its border included.
    pub open spec fn outer_pane_at(&self, c: u16, r: u16) -> Option<PaneId> {
        match pane_at(self.pane_rects@, c, r, 0) {
            Some(i) => Some(self.pane_rects@[i].0),
            None => None,
        }
    }

    /// Which share of its split the dragged divider gives to the first part, as a
    /// fraction. `rect` is the area of the split.
    pub fn update_resize(&self, rect: Option<Rect>, c: u16, r: u16) -> (share: Option<(u16, u16)>)
        ensures
            match (self.resize_drag, rect) {
                (Some(drag), Some(area)) => share == Some(
                    match drag.axis {
                        Axis::Col => (
                            geometry::sat_sub(c, area.x),
                            geometry::max16(area.width, 1),
                        ),
                        Axis::Row => (
                            geometry::sat_sub(r, area.y),
                            geometry::max16(area.height, 1),
                        ),
                    },
                ),
                _ => share is None,
            },
            share is Some ==> (share->0).1 > 0,
            self.resize_drag is Some && rect is Some && rect->0.has_cell(c, r) ==> {
                let (part, whole) = share->0;
                let area = rect->0;
                match self.resize_drag->0.axis {
                    Axis::Col => area.x + part == c && whole == area.width,
                    Axis::Row => area.y + part == r && whole == area.height,
                }
            },
    {
        match (&self.resize_drag, rect) {
            (Some(drag), Some(area)) => {
                let (at, size): (u16, u16) = match drag.axis {
                    Axis::Col => (c.saturating_sub(area.x), area.width),
                    Axis::Row => (r.saturating_sub(area.y), area.height),
                };
                Some(
                    (
                        at,
                        if size > 1 {
                            size
                        } else {
                            1
                        },
                    ),
                )
            },
            _ => None,
        }
    }

    /// Ends the drag of a divider.
    pub fn end_resize(&mut self)
        requires
            old(self).wf(),
        ensures
            final(self).wf(),
            *final(self) == (App { resize_drag: None, ..*old(self) }),
    {
        self.resize_drag = None;
    }

    /// Highlights the divider within reach of the cell, where it could be
    /// grabbed.
    pub fn update_hover_divider(&mut self, c: u16, r: u16, divider: Option<Divider>)
        requires
            old(self).wf(),
            old(self).workspaces@.len() > 0,
        ensures
            final(self).wf(),
            *final(self) == (App {
                hover_divider: if old(self).can_resize(c, r) && old(self).content_at(c, r) is None {
                    divider
                } else {
                    None
                },
                ..*old(self)
            }),
    {
        self.hover_divider = if self.active_is_git() || self.active_is_orch() || self.on_pane_chrome(
            c,
            r,
        ) || self.pane_content_at(c, r).is_some() {
            None
        } else {
            divider
        };
    }

    /// Lets keys resize the focused pane, where there is more than one.
    pub fn enter_resize_mode(&mut self)
        requires
            old(self).wf(),
            old(self).workspaces@.len() > 0,
        ensures
            final(self).wf(),
            if old(self).active_tab().git is None && !old(self).active_tab().orch && old(
                self,
            ).active_tab().layout.leaf_seq().len() >= 2 {
                &&& final(self).toast is Some
                &&& final(self).toast->0@ == old(self).catalog.mode_resize_hint@
                &&& *final(self) == (App {
                    mode: Mode::Resize,
                    toast: final(self).toast,
                    ..*old(self)
                })
            } else {
                *final(self) == *old(self)
            },
    {
        if self.active_is_git() || self.active_is_orch() || self.layout().len() < 2 {
            return ;
        }
        self.mode = Mode::Resize;
        let msg = self.catalog.mode_resize_hint.to_owned();
        self.show_toast(msg);
    }

    // -----------------------------------------------------------------------
    // Sidebars
    // -----------------------------------------------------------------------

    /// Whether the edge of a sidebar is grabbed at the cell: on the edge itself,
    /// or a little beside it on the side of the panes, but not over a pane whose
    /// program tracks the mouse.
    pub open spec fn grabs_seam(&self, seam: Option<Rect>, side: Side, c: u16, r: u16) -> bool {
        &&& seam is Some
        &&& seam->0.y <= r
        &&& r < seam->0.bottom_spec()
        &&& ({
            let d = match side {
                Side::Left => c - seam->0.x,
                Side::Right => seam->0.x - c,
            };
            ||| d == 0
            ||| 1 <= d <= SIDEBAR_GRAB_TOL && !self.tracks_mouse(self.content_at(c, r))
        })
    }

    /// The sidebar whose edge is at the cell.
    pub open spec fn seam_at(&self, c: u16, r: u16) -> Option<Side> {
        if !(self.last_pane_area.y <= r && r < self.last_pane_area.bottom_spec()) {
            None
        } else if self.grabs_seam(self.left_seam, Side::Left, c, r) {
            Some(Side::Left)
        } else if self.grabs_seam(self.right_seam, Side::Right, c, r) {
            Some(Side::Right)
        } else {
            None
        }
    }

    fn is_on_seam(&self, seam: Option<Rect>, side: Side, c: u16, r: u16) -> (b: bool)
        requires
            self.maps_wf(),
        ensures
            b == self.grabs_seam(seam, side, c, r),
    {
        match seam {
            Some(s) => {
                if r < s.y || r >= s.bottom() {
                    return false;
                }
                if c == s.x {
                    return true;
                }
                let beside: bool = match side {
                    Side::Left => c > s.x && c - s.x <= SIDEBAR_GRAB_TOL,
                    Side::Right => s.x > c && s.x - c <= SIDEBAR_GRAB_TOL,
                };
                beside && !self.is_tracking(self.pane_content_at(c, r))
            },
            None => false,
        }
    }

    /// The sidebar whose edge is at the cell. Only the rows of the panes count.
    pub fn sidebar_seam_at(&self, c: u16, r: u16) -> (side: Option<Side>)
        requires
            self.wf(),
        ensures
            side == self.seam_at(c, r),
    {
        if r < self.last_pane_area.y || r >= self.last_pane_area.bottom() {
            return None;
        }
        if self.is_on_seam(self.left_seam, Side::Left, c, r) {
            return Some(Side::Left);
        }
        if self.is_on_seam(self.right_seam, Side::Right, c, r) {
            return Some(Side::Right);
        }
        None
    }

    /// Starts to drag the edge of a sidebar. Says whether a drag began.
    pub fn begin_sidebar_resize(&mut self, c: u16, r: u16) -> (began: bool)
        requires
            old(self).wf(),
        ensures
            final(self).wf(),
            began == (old(self).seam_at(c, r) is Some),
            *final(self) == (App {
                sidebar_resize: if began {
                    old(self).seam_at(c, r)
                } else {
                    old(self).sidebar_resize
                },
                ..*old(self)
            }),
    {
        match self.sidebar_seam_at(c, r) {
            Some(side) => {
                self.sidebar_resize = Some(side);
                true
            },
            None => false,
        }
    }

    /// Highlights the edge of the sidebar at the cell.
    pub fn update_hover_sidebar(&mut self, c: u16, r: u16)
        requires
            old(self).wf(),
        ensures
            final(self).wf(),
            *final(self) == (App { hover_sidebar: old(self).seam_at(c, r), ..*old(self) }),
    {
        self.hover_sidebar = self.sidebar_seam_at(c, r);
    }

    /// How wide the sidebar that is not dragged is drawn.
    pub open spec fn other_width(&self, side: Side) -> u16 {
        let main = self.last_main_area;
        match side {
            Side::Left => match self.right_seam {
                Some(s) => geometry::sat_sub(main.right_spec(), s.x),
                None => 0,
            },
            Side::Right => match self.left_seam {
                Some(s) => geometry::sat_add(geometry::sat_sub(s.x, main.x), 1),
                None => 0,
            },
        }
    }

    /// How wide the dragged sidebar would be by the column of the pointer.
    pub open spec fn wanted_width(&self, side: Side, c: u16) -> u16 {
        let main = self.last_main_area;
        match side {
            Side::Left => geometry::sat_add(geometry::sat_sub(c, main.x), 1),
            Side::Right => geometry::sat_sub(main.right_spec(), c),
        }
    }

    /// The width that a drag gives to a sidebar: as wanted, within the bounds, and
    /// so that the panes keep their columns.
    pub open spec fn dragged_width(&self, side: Side, c: u16) -> u16 {
        let cap = geometry::clamp16(
            geometry::sat_sub(
                self.last_main_area.width,
                (CONTENT_MIN + self.other_width(side)) as u16,
            ),
            SIDEBAR_WIDTH_MIN,
            SIDEBAR_WIDTH_MAX,
        );
        geometry::clamp16(self.wanted_width(side, c), SIDEBAR_WIDTH_MIN, cap)
    }

    /// Drags the edge of a sidebar to the column of the pointer. This is saved
    /// when the drag ends.
    pub fn update_sidebar_resize(&mut self, c: u16)
        requires
            old(self).wf(),
            old(self).sidebar_resize is Some ==> CONTENT_MIN + old(self).other_width(
                old(self).sidebar_resize->0,
            ) <= u16::MAX,
        ensures
            final(self).wf(),
            match old(self).sidebar_resize {
                Some(Side::Left) => final(self).sidebars@ == (
                    SideView {
                        width: old(self).dragged_width(Side::Left, c),
                        ..old(self).sidebars@.0
                    },
                    old(self).sidebars@.1,
                ),
                Some(Side::Right) => final(self).sidebars@ == (
                    old(self).sidebars@.0,
                    SideView {
                        width: old(self).dragged_width(Side::Right, c),
                        ..old(self).sidebars@.1
                    },
                ),
                None => final(self).sidebars == old(self).sidebars,
            },
            *final(self) == (App { sidebars: final(self).sidebars, ..*old(self) }),
            old(self).sidebar_resize matches Some(side) ==> forall|w: u16|
                seams_on_screen(*old(self)) && #[trigger] edge_is_at(
                    old(self).last_main_area,
                    side,
                    w as int,
                    c as int,
                ) && SIDEBAR_WIDTH_MIN <= w <= SIDEBAR_WIDTH_MAX && columns_between(
                    *old(self),
                    side,
                    w as int,
                ) >= CONTENT_MIN ==> w == (match side {
                    Side::Left => final(self).sidebars@.0.width,
                    Side::Right => final(self).sidebars@.1.width,
                }),
    {
        let side: Side = match self.sidebar_resize {
            Some(s) => s,
            None => {
                return ;
            },
        };
        let main = self.last_main_area;
        let other: u16 = match side {
            Side::Left => match self.right_seam {
                Some(s) => main.right().saturating_sub(s.x),
                None => 0,
            },
            Side::Right => match self.left_seam {
                Some(s) => s.x.saturating_sub(main.x).saturating_add(1),
                None => 0,
            },
        };
        let want: u16 = match side {
            Side::Left => c.saturating_sub(main.x).saturating_add(1),
            Side::Right => main.right().saturating_sub(c),
        };
        let room: u16 = main.width.saturating_sub(CONTENT_MIN + other);
        let cap: u16 = if room < SIDEBAR_WIDTH_MIN {
            SIDEBAR_WIDTH_MIN
        } else if room > SIDEBAR_WIDTH_MAX {
            SIDEBAR_WIDTH_MAX
        } else {
            room
        };
        let width: u16 = if want < SIDEBAR_WIDTH_MIN {
            SIDEBAR_WIDTH_MIN
        } else if want > cap {
            cap
        } else {
            want
        };
        match side {
            Side::Left => {
                self.sidebars.left.width = width;
            },
            Side::Right => {
                self.sidebars.right.width = width;
            },
        }
    }

    /// Ends the drag of a sidebar and has its width saved.
    pub fn end_sidebar_resize(&mut self)
        requires
            old(self).wf(),
        ensures
            final(self).wf(),
            if old(self).sidebar_resize is Some {
                &&& final(self).sidebars == old(self).sidebars
                &&& (App { sidebar_resize: None, ..*old(self) }).sides_saved(
                    final(self),
                    text::texts(old(self).config.docks_off@),
                )
            } else {
                *final(self) == *old(self)
            },
    {
        if self.sidebar_resize.is_some() {
            self.sidebar_resize = None;
            self.save_sidebars();
        }
    }

    /// Sets up the colours for a terminal. Says whether the theme is to be reduced
    /// to what a terminal without true colour can show.
    pub fn set_color_mode(&mut self, truecolor: bool) -> (reduce: bool)
        requires
            old(self).wf(),
        ensures
            final(self).wf(),
            reduce == !truecolor,
            *final(self) == (App {
                downsample: old(self).downsample || !truecolor,
                ..*old(self)
            }),
    {
        if !truecolor {
            self.downsample = true;
        }
        !truecolor
    }

    /// Whether a theme made of the terminal's colours is to be reduced, as every
    /// theme is on a terminal without true colour.
    pub fn apply_terminal_colors(&self) -> (reduce: bool)
        ensures
            reduce == self.downsample,
    {
        self.downsample
    }
}

/// The edge of a sidebar is grabbed at its seam or from the side of the panes,
/// never from within the sidebar, and never from a pane whose program tracks the
/// mouse.
pub proof fn law_seams_spare_sidebars_and_programs(app: App, c: u16, r: u16)
    ensures
        app.seam_at(c, r) == Some(Side::Left) ==> app.left_seam is Some && c >= app.left_seam->0.x
            && (c > app.left_seam->0.x ==> !app.tracks_mouse(app.content_at(c, r))),
        app.seam_at(c, r) == Some(Side::Right) ==> app.right_seam is Some && c
            <= app.right_seam->0.x && (c < app.right_seam->0.x ==> !app.tracks_mouse(
            app.content_at(c, r),
        )),
{
}

/// An edge that is drawn beside the panes can be grabbed wherever the pointer is on
/// it, whatever the programs do, and up to two columns beside it from where no
/// program tracks the mouse. Further away there is nothing to grab.
pub proof fn law_seams_can_be_grabbed(app: App, c: u16, r: u16)
    requires
        app.last_pane_area.y <= r < app.last_pane_area.bottom_spec(),
    ensures
        app.left_seam matches Some(s) ==> s.has_cell(c, r) && s.width == 1 ==> app.seam_at(c, r)
            == Some(Side::Left),
        app.right_seam matches Some(s) ==> s.has_cell(c, r) && s.width == 1 ==> app.seam_at(c, r)
            is Some,
        app.left_seam matches Some(s) ==> s.y <= r < s.bottom_spec() && s.x < c <= s.x + 2
            && !app.tracks_mouse(app.content_at(c, r)) ==> app.seam_at(c, r) == Some(Side::Left),
        app.right_seam matches Some(s) ==> s.y <= r < s.bottom_spec() && c < s.x <= c + 2
            && !app.tracks_mouse(app.content_at(c, r)) ==> app.seam_at(c, r) is Some,
        app.seam_at(c, r) == Some(Side::Left) ==> app.left_seam->0.x <= c <= app.left_seam->0.x + 2,
        app.seam_at(c, r) == Some(Side::Right) ==> app.right_seam->0.x - 2 <= c
            <= app.right_seam->0.x,
{
}

/// Whether a sidebar on this side, of this width, has its edge at the column: the
/// left one ends there, the right one begins there.
pub open spec fn edge_is_at(main: Rect, side: Side, width: int, column: int) -> bool {
    match side {
        Side::Left => main.x + width - 1 == column,
        Side::Right => main.x + main.width - width == column,
    }
}

/// How many columns are left between a sidebar of this width and the other one,
/// which reaches to its seam, or to the border of the screen without one.
pub open spec fn columns_between(app: App, side: Side, width: int) -> int {
    let main = app.last_main_area;
    match side {
        Side::Left => (match app.right_seam {
            Some(s) => s.x as int,
            None => main.x + main.width,
        }) - (main.x + width),
        Side::Right => (main.x + main.width - width) - (match app.left_seam {
            Some(s) => s.x + 1,
            None => main.x as int,
        }),
    }
}

/// Whether the drawn seams lie on the screen, and all of it within `u16`.
pub open spec fn seams_on_screen(app: App) -> bool {
    let main = app.last_main_area;
    &&& main.x + main.width + CONTENT_MIN <= u16::MAX
    &&& app.left_seam matches Some(s) ==> main.x <= s.x < main.x + main.width
    &&& app.right_seam matches Some(s) ==> main.x <= s.x < main.x + main.width
}

/// The dragged edge follows the pointer: it is at the pointer's column. It stops
/// short of a pointer that would make the sidebar narrower than the smallest
/// width, and of one that would make it wider than the largest or take columns
/// that the panes need.
pub proof fn law_dragged_edge_follows_the_pointer(app: App, side: Side, c: u16)
    requires
        seams_on_screen(app),
    ensures
        ({
            let w = app.dragged_width(side, c) as int;
            let main = app.last_main_area;
            let narrower = match side {
                Side::Left => c < main.x + w - 1,
                Side::Right => c > main.x + main.width - w,
            };
            if edge_is_at(main, side, w, c as int) {
                true
            } else if narrower {
                w == SIDEBAR_WIDTH_MIN
            } else {
                w == SIDEBAR_WIDTH_MAX || columns_between(app, side, w + 1) < CONTENT_MIN
            }
        }),
{
}

/// Wherever the bounds do not cut it, the left sidebar ends at the column of the
/// pointer and the right one begins there.
pub proof fn law_dragged_edge_is_at_the_pointer(app: App, side: Side, c: u16, width: u16)
    requires
        seams_on_screen(app),
        edge_is_at(app.last_main_area, side, width as int, c as int),
        SIDEBAR_WIDTH_MIN <= width <= SIDEBAR_WIDTH_MAX,
        columns_between(app, side, width as int) >= CONTENT_MIN,
    ensures
        app.dragged_width(side, c) == width,
{
}

/// The nearer the pointer is to the middle, the wider the sidebar: moving it left
/// never makes the right sidebar narrower or the left one wider.
pub proof fn law_drags_are_monotone(app: App, c: u16, d: u16)
    requires
        c <= d,
    ensures
        app.dragged_width(Side::Left, c) <= app.dragged_width(Side::Left, d),
        app.dragged_width(Side::Right, c) >= app.dragged_width(Side::Right, d),
{
}

/// A drag leaves the panes their columns between the two sidebars, wherever the
/// smallest width of the dragged one does.
pub proof fn law_drag_keeps_the_columns_between(app: App, side: Side, c: u16)
    requires
        seams_on_screen(app),
        columns_between(app, side, SIDEBAR_WIDTH_MIN as int) >= CONTENT_MIN,
    ensures
        columns_between(app, side, app.dragged_width(side, c) as int) >= CONTENT_MIN,
{
}

/// A drag keeps the width of a sidebar within the bounds, and leaves the panes
/// their columns wherever the bounds allow it.
pub proof fn law_drag_leaves_room_for_panes(app: App, side: Side, c: u16)
    requires
        CONTENT_MIN + app.other_width(side) <= u16::MAX,
    ensures
        SIDEBAR_WIDTH_MIN <= app.dragged_width(side, c) <= SIDEBAR_WIDTH_MAX,
        app.last_main_area.width >= SIDEBAR_WIDTH_MIN + CONTENT_MIN + app.other_width(side)
            ==> app.last_main_area.width - app.dragged_width(side, c) - app.other_width(side)
            >= CONTENT_MIN,
{
}

} // verus!
