//! The sidebars and the docks that they hold.
use vstd::prelude::*;
use vstd::string::*;

use crate::config;
use crate::config::{SideConfig, SideConfigView, SidebarsConfig};
use crate::geometry;
use crate::geometry::Rect;
use crate::text;
use crate::text::same_text;

verus! {

/// The width of a new sidebar.
pub const SIDEBAR_WIDTH_DEFAULT: u16 = 26;

/// The smallest width of a sidebar.
pub const SIDEBAR_WIDTH_MIN: u16 = 18;

/// The largest width of a sidebar.
pub const SIDEBAR_WIDTH_MAX: u16 = 44;

/// How many docks a sidebar holds at most.
pub const MAX_DOCKS_PER_SIDE: usize = 3;

/// A section of a sidebar.
#[derive(Debug, PartialEq, Eq)]
pub enum DockKind {
    Workspaces,
    Agents,
    /// The file tree of the active workspace.
    Files,
    /// A dock that a module contributes.
    Module(String),
}

/// Which dock a [`DockKind`] is.
pub enum DockView {
    Workspaces,
    Agents,
    Files,
    Module(Seq<char>),
}

impl View for DockKind {
    type V = DockView;

    open spec fn view(&self) -> DockView {
        match *self {
            DockKind::Workspaces => DockView::Workspaces,
            DockKind::Agents => DockView::Agents,
            DockKind::Files => DockView::Files,
            DockKind::Module(id) => DockView::Module(id@),
        }
    }
}

impl DockView {
    /// The stable id of the dock.
    pub open spec fn id_text(self) -> Seq<char> {
        match self {
            DockView::Workspaces => "workspaces"@,
            DockView::Agents => "agents"@,
            DockView::Files => "files"@,
            DockView::Module(id) => id,
        }
    }

    /// The dock of an id: one of our own, or else a module's.
    pub open spec fn of_id(id: Seq<char>) -> DockView {
        if id == "workspaces"@ {
            DockView::Workspaces
        } else if id == "agents"@ {
            DockView::Agents
        } else if id == "files"@ {
            DockView::Files
        } else {
            DockView::Module(id)
        }
    }
}

/// The three docks of our own have three ids.
pub proof fn lemma_builtin_ids_differ()
    ensures
        "workspaces"@ != "agents"@,
        "workspaces"@ != "files"@,
        "agents"@ != "files"@,
{
    reveal_strlit("workspaces");
    reveal_strlit("agents");
    reveal_strlit("files");
    assert("workspaces"@.len() == 10);
    assert("agents"@.len() == 6);
    assert("files"@.len() == 5);
}

/// An id names the dock that it came from; only a module that takes one of our
/// own ids is read as our own dock.
pub proof fn law_dock_ids_round_trip(kind: DockView, id: Seq<char>)
    ensures
        DockView::of_id(id).id_text() == id,
        DockView::of_id(kind.id_text()) == kind || (kind is Module && (kind->Module_0
            == "workspaces"@ || kind->Module_0 == "agents"@ || kind->Module_0 == "files"@)),
{
    lemma_builtin_ids_differ();
}

impl DockKind {
    /// The stable id of the dock.
    pub fn id(&self) -> (id: &str)
        ensures
            id@ == self@.id_text(),
    {
        match self {
            DockKind::Workspaces => "workspaces",
            DockKind::Agents => "agents",
            DockKind::Files => "files",
            DockKind::Module(id) => id.as_str(),
        }
    }

    /// The dock of an id: one of our own, or else a module's.
    pub fn from_id(id: &str) -> (kind: DockKind)
        ensures
            kind@ == DockView::of_id(id@),
    {
        if same_text(id, "workspaces") {
            DockKind::Workspaces
        } else if same_text(id, "agents") {
            DockKind::Agents
        } else if same_text(id, "files") {
            DockKind::Files
        } else {
            DockKind::Module(id.to_owned())
        }
    }

    /// Whether two docks are the same.
    pub fn same(&self, other: &DockKind) -> (same: bool)
        ensures
            same == (self@ == other@),
    {
        match (self, other) {
            (DockKind::Workspaces, DockKind::Workspaces) => true,
            (DockKind::Agents, DockKind::Agents) => true,
            (DockKind::Files, DockKind::Files) => true,
            (DockKind::Module(a), DockKind::Module(b)) => same_text(a.as_str(), b.as_str()),
            _ => false,
        }
    }

    /// The same dock once more.
    pub fn copy(&self) -> (kind: DockKind)
        ensures
            kind@ == self@,
    {
        match self {
            DockKind::Workspaces => DockKind::Workspaces,
            DockKind::Agents => DockKind::Agents,
            DockKind::Files => DockKind::Files,
            DockKind::Module(id) => DockKind::Module(id.clone()),
        }
    }
}

/// Which sidebar.
#[derive(Clone, Copy, Debug, PartialEq, Eq, Structural)]
pub enum Side {
    Left,
    Right,
}

/// One entry in the context menu of a dock row.
#[derive(Debug, PartialEq, Eq)]
pub struct DockRowMenuItem {
    pub title: String,
    /// The action to run; none for a divider.
    pub action: String,
    /// A payload for this entry, in place of the row's.
    pub value: Option<String>,
    pub destructive: bool,
}

impl DockRowMenuItem {
    /// Whether the entry is a divider, which has no action.
    pub fn is_divider(&self) -> (b: bool)
        ensures
            b == (self.action@.len() == 0),
    {
        self.action.as_str().is_empty()
    }
}

/// One row that a module shows in its dock.
#[derive(Debug)]
pub struct DockRow {
    pub text: String,
    /// The name of a state, shown as a coloured dot.
    pub dot: Option<String>,
    /// The action that a click runs.
    pub action: Option<String>,
    /// A payload for that action.
    pub value: Option<String>,
    /// What a right click offers.
    pub menu: Vec<DockRowMenuItem>,
}

/// The open context menu of a dock row, with everything that a click needs: the
/// rows may be replaced while it is open.
#[derive(Debug)]
pub struct DockMenu {
    pub dock_id: String,
    pub row_index: usize,
    pub anchor: (u16, u16),
    pub items: Vec<DockRowMenuItem>,
    pub row_text: String,
    pub row_value: Option<String>,
    pub owner: Option<String>,
    pub rects: Vec<Rect>,
}

/// What a module shows in its dock.
#[derive(Debug)]
pub struct ModuleDock {
    pub title: String,
    pub rows: Vec<DockRow>,
}

/// One sidebar.
#[derive(Debug)]
pub struct SideState {
    pub visible: bool,
    pub width: u16,
    /// Its docks from top to bottom.
    pub docks: Vec<DockKind>,
}

/// What a [`SideState`] says.
#[verifier::ext_equal]
pub struct SideView {
    pub visible: bool,
    pub width: u16,
    pub docks: Seq<DockView>,
}

/// Which docks a list holds.
pub open spec fn dock_views(docks: Seq<DockKind>) -> Seq<DockView> {
    Seq::new(docks.len(), |i: int| docks[i]@)
}

impl View for SideState {
    type V = SideView;

    open spec fn view(&self) -> SideView {
        SideView { visible: self.visible, width: self.width, docks: dock_views(self.docks@) }
    }
}

impl SideView {
    /// A sidebar holds no more docks than it may and has a width that it may
    /// have.
    pub open spec fn wf(self) -> bool {
        &&& self.docks.len() <= MAX_DOCKS_PER_SIDE
        &&& SIDEBAR_WIDTH_MIN <= self.width <= SIDEBAR_WIDTH_MAX
    }

    /// The sidebar that the settings describe: the first docks that fit, at a
    /// width within the bounds.
    pub open spec fn of_config(c: SideConfigView) -> SideView {
        let n = if c.docks.len() < MAX_DOCKS_PER_SIDE {
            c.docks.len()
        } else {
            MAX_DOCKS_PER_SIDE as nat
        };
        SideView {
            visible: c.visible,
            width: geometry::clamp16(c.width, SIDEBAR_WIDTH_MIN, SIDEBAR_WIDTH_MAX),
            docks: Seq::new(n, |i: int| DockView::of_id(c.docks[i])),
        }
    }

    /// The settings that describe the sidebar.
    pub open spec fn config(self) -> SideConfigView {
        SideConfigView {
            visible: self.visible,
            width: self.width,
            docks: Seq::new(self.docks.len(), |i: int| self.docks[i].id_text()),
        }
    }
}

/// A sidebar comes back from its settings as it was, as long as no module takes
/// an id of our own.
pub proof fn law_sidebar_survives_its_settings(side: SideView)
    requires
        side.wf(),
        forall|i: int|
            0 <= i < side.docks.len() ==> DockView::of_id((#[trigger] side.docks[i]).id_text())
                == side.docks[i],
    ensures
        SideView::of_config(side.config()) == side,
{
    assert(SideView::of_config(side.config()).docks =~= side.docks);
}

/// Whatever the settings say, the sidebar keeps to its bounds.
pub proof fn law_loaded_sidebar_is_within_bounds(c: SideConfigView)
    ensures
        SideView::of_config(c).wf(),
{
}

/// Whether the list holds the dock.
pub fn has_dock(docks: &Vec<DockKind>, kind: &DockKind) -> (b: bool)
    ensures
        b == dock_views(docks@).contains(kind@),
{
    let ghost all = dock_views(docks@);
    let mut i: usize = 0;
    while i < docks.len()
        invariant
            i <= docks@.len(),
            all == dock_views(docks@),
            forall|k: int| 0 <= k < i ==> #[trigger] all[k] != kind@,
        decreases docks@.len() - i,
    {
        if docks[i].same(kind) {
            assert(all[i as int] == kind@);
            return true;
        }
        i = i + 1;
    }
    false
}

/// The list without a dock.
pub open spec fn without_dock(docks: Seq<DockView>, kind: DockView) -> Seq<DockView>
    decreases docks.len(),
{
    if docks.len() == 0 {
        docks
    } else if docks.last() == kind {
        without_dock(docks.drop_last(), kind)
    } else {
        without_dock(docks.drop_last(), kind).push(docks.last())
    }
}

/// Dropping a dock never makes the list longer and leaves no trace of it.
pub proof fn lemma_without_dock(docks: Seq<DockView>, kind: DockView)
    ensures
        without_dock(docks, kind).len() <= docks.len(),
        docks.contains(kind) ==> without_dock(docks, kind).len() < docks.len(),
        !without_dock(docks, kind).contains(kind),
        forall|k: DockView|
            k != kind ==> (#[trigger] without_dock(docks, kind).contains(k) == docks.contains(k)),
    decreases docks.len(),
{
    if docks.len() > 0 {
        let rest = docks.drop_last();
        lemma_without_dock(rest, kind);
        let before = without_dock(rest, kind);
        let out = without_dock(docks, kind);
        if docks.contains(kind) && docks.last() != kind {
            let m = choose|m: int| 0 <= m < docks.len() && docks[m] == kind;
            assert(rest[m] == kind);
        }
        assert(!out.contains(kind)) by {
            if out.contains(kind) {
                let m = choose|m: int| 0 <= m < out.len() && out[m] == kind;
                if m < before.len() {
                    assert(before[m] == kind);
                }
            }
        }
        assert forall|k: DockView| k != kind implies (#[trigger] out.contains(k) == docks.contains(
            k,
        )) by {
            if out.contains(k) {
                let m = choose|m: int| 0 <= m < out.len() && out[m] == k;
                if m < before.len() {
                    assert(before[m] == k);
                    assert(before.contains(k));
                    let j = choose|j: int| 0 <= j < rest.len() && rest[j] == k;
                    assert(docks[j] == k);
                } else {
                    assert(docks[docks.len() - 1] == k);
                }
            }
            if docks.contains(k) {
                let m = choose|m: int| 0 <= m < docks.len() && docks[m] == k;
                if m < rest.len() {
                    assert(rest[m] == k);
                    assert(before.contains(k));
                    let j = choose|j: int| 0 <= j < before.len() && before[j] == k;
                    assert(out[j] == k);
                } else {
                    assert(out[out.len() - 1] == k);
                }
            }
        }
    }
}

/// Drops every occurrence of the dock from the list.
pub fn drop_dock(docks: &mut Vec<DockKind>, kind: &DockKind)
    ensures
        dock_views(final(docks)@) == without_dock(dock_views(old(docks)@), kind@),
{
    let ghost all = dock_views(docks@);
    let mut out: Vec<DockKind> = Vec::new();
    let mut i: usize = 0;
    assert(all.take(0) =~= Seq::<DockView>::empty());
    assert(dock_views(out@) =~= Seq::<DockView>::empty());
    while i < docks.len()
        invariant
            i <= docks@.len(),
            all == dock_views(docks@),
            dock_views(out@) == without_dock(all.take(i as int), kind@),
        decreases docks@.len() - i,
    {
        assert(all.take(i + 1).drop_last() =~= all.take(i as int));
        let ghost before = dock_views(out@);
        if !docks[i].same(kind) {
            out.push(docks[i].copy());
            assert(dock_views(out@) =~= before.push(all[i as int]));
        }
        i = i + 1;
    }
    assert(all.take(i as int) =~= all);
    *docks = out;
}

impl SideState {
    /// The sidebar that the settings describe.
    pub fn from_config(c: &SideConfig) -> (side: SideState)
        ensures
            side@ == SideView::of_config(c@),
            side@.wf(),
    {
        let n: usize = if c.docks.len() < MAX_DOCKS_PER_SIDE {
            c.docks.len()
        } else {
            MAX_DOCKS_PER_SIDE
        };
        let ghost target = SideView::of_config(c@).docks;
        let mut docks: Vec<DockKind> = Vec::new();
        let mut i: usize = 0;
        while i < n
            invariant
                n <= c.docks@.len(),
                n == target.len(),
                i <= n,
                forall|k: int| 0 <= k < n ==> #[trigger] target[k] == DockView::of_id(c@.docks[k]),
                dock_views(docks@) == target.take(i as int),
            decreases n - i,
        {
            let ghost before = dock_views(docks@);
            docks.push(DockKind::from_id(c.docks[i].as_str()));
            assert(dock_views(docks@) =~= before.push(target[i as int]));
            i = i + 1;
            assert(dock_views(docks@) =~= target.take(i as int));
        }
        assert(target.take(i as int) =~= target);
        let width: u16 = if c.width < SIDEBAR_WIDTH_MIN {
            SIDEBAR_WIDTH_MIN
        } else if c.width > SIDEBAR_WIDTH_MAX {
            SIDEBAR_WIDTH_MAX
        } else {
            c.width
        };
        SideState { visible: c.visible, width, docks }
    }

    /// The settings that describe the sidebar.
    pub fn to_config(&self) -> (c: SideConfig)
        ensures
            c@ == self@.config(),
    {
        let ghost target = self@.config().docks;
        let mut docks: Vec<String> = Vec::new();
        let mut i: usize = 0;
        while i < self.docks.len()
            invariant
                i <= self.docks@.len(),
                target == self@.config().docks,
                text::texts(docks@) == target.take(i as int),
            decreases self.docks@.len() - i,
        {
            let ghost before = text::texts(docks@);
            docks.push(self.docks[i].id().to_owned());
            assert(text::texts(docks@) =~= before.push(target[i as int]));
            i = i + 1;
            assert(text::texts(docks@) =~= target.take(i as int));
        }
        assert(target.take(i as int) =~= target);
        SideConfig { visible: self.visible, width: self.width, docks }
    }

    /// Whether the sidebar takes up space: it is visible and has a dock.
    pub fn shown(&self) -> (b: bool)
        ensures
            b == (self@.visible && self@.docks.len() > 0),
    {
        self.visible && self.docks.len() > 0
    }

    /// Whether the sidebar holds the dock.
    pub fn has(&self, kind: &DockKind) -> (b: bool)
        ensures
            b == self@.docks.contains(kind@),
    {
        has_dock(&self.docks, kind)
    }
}

/// Both sidebars.
#[derive(Debug)]
pub struct Sidebars {
    pub left: SideState,
    pub right: SideState,
}

impl View for Sidebars {
    type V = (SideView, SideView);

    open spec fn view(&self) -> (SideView, SideView) {
        (self.left@, self.right@)
    }
}

impl Sidebars {
    /// Both sidebars keep to their bounds.
    pub open spec fn wf(&self) -> bool {
        self.left@.wf() && self.right@.wf()
    }

    /// One of the sidebars.
    pub open spec fn side(&self, side: Side) -> SideState {
        match side {
            Side::Left => self.left,
            Side::Right => self.right,
        }
    }

    /// Which side holds the dock: the left, where both do.
    pub open spec fn holder(&self, kind: DockView) -> Option<Side> {
        if self.left@.docks.contains(kind) {
            Some(Side::Left)
        } else if self.right@.docks.contains(kind) {
            Some(Side::Right)
        } else {
            None
        }
    }

    /// One of the sidebars.
    pub fn get(&self, side: Side) -> (s: &SideState)
        ensures
            *s == self.side(side),
    {
        match side {
            Side::Left => &self.left,
            Side::Right => &self.right,
        }
    }

    /// One of the sidebars, to change it.
    pub fn get_mut(&mut self, side: Side) -> (s: &mut SideState)
        ensures
            *s == old(self).side(side),
            *final(self) == (match side {
                Side::Left => Sidebars { left: *final(s), right: old(self).right },
                Side::Right => Sidebars { left: old(self).left, right: *final(s) },
            }),
    {
        match side {
            Side::Left => &mut self.left,
            Side::Right => &mut self.right,
        }
    }

    /// The sidebars that the settings describe.
    pub fn from_config(cfg: &SidebarsConfig) -> (s: Sidebars)
        ensures
            s@ == (SideView::of_config(cfg.left@), SideView::of_config(cfg.right@)),
            s.wf(),
    {
        Sidebars {
            left: SideState::from_config(&cfg.left),
            right: SideState::from_config(&cfg.right),
        }
    }

    /// The settings that describe the sidebars.
    pub fn to_config(&self) -> (cfg: SidebarsConfig)
        ensures
            cfg@ == (self.left@.config(), self.right@.config()),
    {
        SidebarsConfig { left: self.left.to_config(), right: self.right.to_config() }
    }

    /// Whether the side takes one more dock.
    pub fn has_room(&self, side: Side) -> (b: bool)
        ensures
            b == (self.side(side)@.docks.len() < MAX_DOCKS_PER_SIDE),
    {
        self.get(side).docks.len() < MAX_DOCKS_PER_SIDE
    }

    /// Which side holds the dock.
    pub fn side_of(&self, kind: &DockKind) -> (side: Option<Side>)
        ensures
            side == self.holder(kind@),
    {
        if self.left.has(kind) {
            Some(Side::Left)
        } else if self.right.has(kind) {
            Some(Side::Right)
        } else {
            None
        }
    }
}

/// The sidebars with a dock at the end of one side and nowhere else.
pub open spec fn docks_moved(sides: (SideView, SideView), kind: DockView, target: Side) -> (
    SideView,
    SideView,
) {
    let left = without_dock(sides.0.docks, kind);
    let right = without_dock(sides.1.docks, kind);
    match target {
        Side::Left => (
            SideView { docks: left.push(kind), ..sides.0 },
            SideView { docks: right, ..sides.1 },
        ),
        Side::Right => (
            SideView { docks: left, ..sides.0 },
            SideView { docks: right.push(kind), ..sides.1 },
        ),
    }
}

/// The sidebars without a dock.
pub open spec fn docks_without(sides: (SideView, SideView), kind: DockView) -> (
    SideView,
    SideView,
) {
    (
        SideView { docks: without_dock(sides.0.docks, kind), ..sides.0 },
        SideView { docks: without_dock(sides.1.docks, kind), ..sides.1 },
    )
}

/// After a dock was placed it is on that side and on no other, and a side that
/// kept to its bounds still does where it had room or held the dock already.
pub proof fn law_placed_dock_is_on_one_side(
    sides: (SideView, SideView),
    kind: DockView,
    target: Side,
)
    requires
        sides.0.wf(),
        sides.1.wf(),
        ({
            let side = if target is Left {
                sides.0
            } else {
                sides.1
            };
            side.docks.contains(kind) || side.docks.len() < MAX_DOCKS_PER_SIDE
        }),
    ensures
        docks_moved(sides, kind, target).0.wf(),
        docks_moved(sides, kind, target).1.wf(),
        docks_moved(sides, kind, target).0.docks.contains(kind) == (target is Left),
        docks_moved(sides, kind, target).1.docks.contains(kind) == (target is Right),
        forall|other: DockView|
            other != kind ==> #[trigger] docks_moved(sides, kind, target).0.docks.contains(other)
                == sides.0.docks.contains(other),
        forall|other: DockView|
            other != kind ==> #[trigger] docks_moved(sides, kind, target).1.docks.contains(other)
                == sides.1.docks.contains(other),
{
    lemma_without_dock(sides.0.docks, kind);
    lemma_without_dock(sides.1.docks, kind);
    let left = without_dock(sides.0.docks, kind);
    let right = without_dock(sides.1.docks, kind);
    lemma_push_contains(left, kind);
    lemma_push_contains(right, kind);
}

proof fn lemma_push_contains(s: Seq<DockView>, kind: DockView)
    ensures
        forall|k: DockView| #[trigger] s.push(kind).contains(k) == (s.contains(k) || k == kind),
{
    let t = s.push(kind);
    assert forall|k: DockView| #[trigger] t.contains(k) == (s.contains(k) || k == kind) by {
        if s.contains(k) {
            let i = choose|i: int| 0 <= i < s.len() && s[i] == k;
            assert(t[i] == k);
        }
        if t.contains(k) {
            let i = choose|i: int| 0 <= i < t.len() && t[i] == k;
            if i < s.len() {
                assert(s[i] == k);
            }
        }
        assert(t[s.len() as int] == kind);
    }
}

impl Sidebars {
    /// Puts a dock at the end of a side that has room for it or holds it, and
    /// takes it from where it was.
    pub fn place(&mut self, kind: &DockKind, target: Side)
        requires
            old(self).wf(),
            old(self).side(target)@.docks.contains(kind@) || old(self).side(target)@.docks.len()
                < MAX_DOCKS_PER_SIDE,
        ensures
            final(self).wf(),
            final(self)@ == docks_moved(old(self)@, kind@, target),
    {
        let ghost before = self@;
        proof {
            law_placed_dock_is_on_one_side(before, kind@, target);
        }
        drop_dock(&mut self.left.docks, kind);
        drop_dock(&mut self.right.docks, kind);
        match target {
            Side::Left => {
                self.left.docks.push(kind.copy());
            },
            Side::Right => {
                self.right.docks.push(kind.copy());
            },
        }
        assert(self@.0.docks =~= docks_moved(before, kind@, target).0.docks);
        assert(self@.1.docks =~= docks_moved(before, kind@, target).1.docks);
    }

    /// Takes a dock off both sides.
    pub fn unplace(&mut self, kind: &DockKind)
        requires
            old(self).wf(),
        ensures
            final(self).wf(),
            final(self)@ == docks_without(old(self)@, kind@),
    {
        proof {
            lemma_without_dock(self@.0.docks, kind@);
            lemma_without_dock(self@.1.docks, kind@);
        }
        drop_dock(&mut self.left.docks, kind);
        drop_dock(&mut self.right.docks, kind);
    }
}

/// A dock that is placed is the last of its side, and every other dock keeps its
/// place among the others. Nothing else of the sidebars changes.
pub proof fn law_placed_docks_come_last(sides: (SideView, SideView), kind: DockView, target: Side)
    ensures
        ({
            let out = docks_moved(sides, kind, target);
            &&& out.0.width == sides.0.width && out.0.visible == sides.0.visible
            &&& out.1.width == sides.1.width && out.1.visible == sides.1.visible
            &&& target is Left && !sides.0.docks.contains(kind) ==> out.0.docks.drop_last()
                == sides.0.docks
            &&& target is Right && !sides.1.docks.contains(kind) ==> out.1.docks.drop_last()
                == sides.1.docks
            &&& target is Left && !sides.1.docks.contains(kind) ==> out.1 == sides.1
            &&& target is Right && !sides.0.docks.contains(kind) ==> out.0 == sides.0
            &&& target is Left ==> out.0.docks.last() == kind
            &&& target is Right ==> out.1.docks.last() == kind
        }),
{
    let out = docks_moved(sides, kind, target);
    if !sides.0.docks.contains(kind) {
        lemma_without_absent_dock(sides.0.docks, kind);
        assert(sides.0.docks.push(kind).drop_last() =~= sides.0.docks);
    }
    if !sides.1.docks.contains(kind) {
        lemma_without_absent_dock(sides.1.docks, kind);
        assert(sides.1.docks.push(kind).drop_last() =~= sides.1.docks);
    }
}

proof fn lemma_without_absent_dock(docks: Seq<DockView>, kind: DockView)
    requires
        !docks.contains(kind),
    ensures
        without_dock(docks, kind) == docks,
    decreases docks.len(),
{
    if docks.len() > 0 {
        let rest = docks.drop_last();
        assert(docks[docks.len() - 1] == docks.last());
        assert(!rest.contains(kind)) by {
            if rest.contains(kind) {
                let k = choose|k: int| 0 <= k < rest.len() && rest[k] == kind;
                assert(docks[k] == kind);
            }
        }
        lemma_without_absent_dock(rest, kind);
        assert(rest.push(docks.last()) =~= docks);
    }
}

} // verus!
