//! The sidebars of a session and the docks in them.
use vstd::prelude::*;
use vstd::string::*;

use super::{App, Effect, Module};
use crate::config::Config;
use crate::docks;
use crate::docks::{
    has_dock, DockKind, DockRow, DockView, ModuleDock, Side, SideView, Sidebars,
    MAX_DOCKS_PER_SIDE, SIDEBAR_WIDTH_MAX, SIDEBAR_WIDTH_MIN,
};
use crate::geometry;
use crate::text;
use crate::text::{drop_text, has_text, insert_in_order, same_text};

verus! {

/// Whether the settings describe the sidebars.
pub open spec fn config_holds(config: Config, sidebars: Sidebars) -> bool {
    &&& config.sidebars is Some
    &&& config.sidebars->0@ == (sidebars.left@.config(), sidebars.right@.config())
    &&& config.sidebar_width == sidebars.left.width
}

/// The sidebars without the docks of modules with these ids.
pub open spec fn docks_without_all(sides: (SideView, SideView), ids: Seq<Seq<char>>) -> (
    SideView,
    SideView,
)
    decreases ids.len(),
{
    if ids.len() == 0 {
        sides
    } else {
        docks::docks_without(docks_without_all(sides, ids.drop_last()), DockView::Module(ids.last()))
    }
}

/// Which module docks are turned off once a dock was placed.
pub open spec fn off_without(off: Seq<Seq<char>>, kind: DockView) -> Seq<Seq<char>> {
    match kind {
        DockView::Module(id) => text::without_text(off, id),
        _ => off,
    }
}

/// Which module docks are turned off once a dock was.
pub open spec fn off_with(off: Seq<Seq<char>>, kind: DockView) -> Seq<Seq<char>> {
    match kind {
        DockView::Module(id) => if off.contains(id) {
            off
        } else {
            off.push(id)
        },
        _ => off,
    }
}

/// Forgets that a module dock was turned off.
fn turn_on(off: &mut Vec<String>, kind: &DockKind)
    ensures
        text::texts(final(off)@) == off_without(text::texts(old(off)@), kind@),
{
    match kind {
        DockKind::Module(id) => {
            drop_text(off, id.as_str());
        },
        _ => {},
    }
}

/// Remembers that a module dock was turned off.
fn turn_off(off: &mut Vec<String>, kind: &DockKind)
    ensures
        text::texts(final(off)@) == off_with(text::texts(old(off)@), kind@),
{
    match kind {
        DockKind::Module(id) => {
            if !has_text(off, id.as_str()) {
                let ghost before = text::texts(off@);
                off.push(id.clone());
                assert(text::texts(off@) =~= before.push(id@));
            }
        },
        _ => {},
    }
}

impl App {
    /// Writes the sidebars into the settings and has them saved.
    pub fn save_sidebars(&mut self)
        ensures
            config_holds(final(self).config, old(self).sidebars),
            final(self).config == (Config {
                sidebars: final(self).config.sidebars,
                sidebar_width: old(self).sidebars.left.width,
                ..old(self).config
            }),
            final(self).outbox@ == old(self).outbox@.push(Effect::SaveConfig),
            *final(self) == (App {
                config: final(self).config,
                outbox: final(self).outbox,
                ..*old(self)
            }),
    {
        self.config.sidebars = Some(self.sidebars.to_config());
        self.config.sidebar_width = self.sidebars.left.width;
        self.outbox.push(Effect::SaveConfig);
    }

    /// Whether the sidebars may differ and the settings describe them, with
    /// nothing else changed but the module docks that are turned off.
    pub open spec fn sides_saved(&self, after: &App, off: Seq<Seq<char>>) -> bool {
        &&& config_holds(after.config, after.sidebars)
        &&& text::texts(after.config.docks_off@) == off
        &&& after.config == (Config {
            sidebars: after.config.sidebars,
            sidebar_width: after.config.sidebar_width,
            docks_off: after.config.docks_off,
            ..self.config
        })
        &&& after.outbox@ == self.outbox@.push(Effect::SaveConfig)
        &&& *after == (App {
            sidebars: after.sidebars,
            config: after.config,
            outbox: after.outbox,
            ..*self
        })
    }

    /// Sets the width of a sidebar, within the bounds.
    pub fn set_side_width(&mut self, side: Side, cols: u16)
        requires
            old(self).wf(),
        ensures
            final(self).wf(),
            final(self).sidebars@ == ({
                let width = geometry::clamp16(cols, SIDEBAR_WIDTH_MIN, SIDEBAR_WIDTH_MAX);
                match side {
                    Side::Left => (
                        SideView { width, ..old(self).sidebars@.0 },
                        old(self).sidebars@.1,
                    ),
                    Side::Right => (
                        old(self).sidebars@.0,
                        SideView { width, ..old(self).sidebars@.1 },
                    ),
                }
            }),
            old(self).sides_saved(final(self), text::texts(old(self).config.docks_off@)),
    {
        let width: u16 = if cols < SIDEBAR_WIDTH_MIN {
            SIDEBAR_WIDTH_MIN
        } else if cols > SIDEBAR_WIDTH_MAX {
            SIDEBAR_WIDTH_MAX
        } else {
            cols
        };
        match side {
            Side::Left => {
                self.sidebars.left.width = width;
            },
            Side::Right => {
                self.sidebars.right.width = width;
            },
        }
        self.save_sidebars();
    }

    /// Shows or hides a sidebar; this is not saved.
    pub fn toggle_side(&mut self, side: Side)
        requires
            old(self).wf(),
        ensures
            final(self).wf(),
            final(self).sidebars@ == (match side {
                Side::Left => (
                    SideView {
                        visible: !old(self).sidebars.left.visible,
                        ..old(self).sidebars@.0
                    },
                    old(self).sidebars@.1,
                ),
                Side::Right => (
                    old(self).sidebars@.0,
                    SideView {
                        visible: !old(self).sidebars.right.visible,
                        ..old(self).sidebars@.1
                    },
                ),
            }),
            *final(self) == (App { sidebars: final(self).sidebars, ..*old(self) }),
    {
        match side {
            Side::Left => {
                self.sidebars.left.visible = !self.sidebars.left.visible;
            },
            Side::Right => {
                self.sidebars.right.visible = !self.sidebars.right.visible;
            },
        }
    }

    /// Hides both sidebars where one is shown, else shows both; this is not
    /// saved.
    pub fn toggle_all_sides(&mut self)
        requires
            old(self).wf(),
        ensures
            final(self).wf(),
            ({
                let shown = !(old(self).sidebars.left.visible || old(self).sidebars.right.visible);
                final(self).sidebars@ == (
                    SideView { visible: shown, ..old(self).sidebars@.0 },
                    SideView { visible: shown, ..old(self).sidebars@.1 },
                )
            }),
            *final(self) == (App { sidebars: final(self).sidebars, ..*old(self) }),
    {
        let target: bool = !(self.sidebars.left.visible || self.sidebars.right.visible);
        self.sidebars.left.visible = target;
        self.sidebars.right.visible = target;
    }

    /// Every dock that is placed: those of the left side, then those of the
    /// right.
    pub fn docks_flat(&self) -> (v: Vec<DockKind>)
        ensures
            docks::dock_views(v@) == self.sidebars@.0.docks + self.sidebars@.1.docks,
    {
        let mut v: Vec<DockKind> = Vec::new();
        push_docks(&mut v, &self.sidebars.left.docks);
        push_docks(&mut v, &self.sidebars.right.docks);
        assert(docks::dock_views(v@) =~= self.sidebars@.0.docks + self.sidebars@.1.docks);
        v
    }

    /// Places a dock at the end of a side. A side that is full refuses it, and
    /// says so, unless the dock is there already. A module dock that was turned
    /// off counts as turned on again.
    pub fn move_dock(&mut self, kind: &DockKind, target: Side) -> (moved: bool)
        requires
            old(self).wf(),
        ensures
            final(self).wf(),
            moved == (old(self).sidebars.side(target)@.docks.contains(kind@) || old(
                self,
            ).sidebars.side(target)@.docks.len() < MAX_DOCKS_PER_SIDE),
            moved ==> final(self).sidebars@ == docks::docks_moved(old(self).sidebars@, kind@, target)
                && old(self).sides_saved(
                final(self),
                off_without(text::texts(old(self).config.docks_off@), kind@),
            ),
            !moved ==> final(self).toast is Some && final(self).toast->0@ == old(
                self,
            ).catalog.sidebar_full@ && *final(self) == (App {
                toast: final(self).toast,
                ..*old(self)
            }),
    {
        if !self.sidebars.get(target).has(kind) && !self.sidebars.has_room(target) {
            let msg = self.catalog.sidebar_full.to_owned();
            self.show_toast(msg);
            return false;
        }
        self.sidebars.place(kind, target);
        turn_on(&mut self.config.docks_off, kind);
        self.save_sidebars();
        true
    }

    /// Takes a dock off both sides. Of a module dock it is remembered that it is
    /// turned off, so that the module cannot bring it back itself.
    pub fn unmount_dock(&mut self, kind: &DockKind)
        requires
            old(self).wf(),
        ensures
            final(self).wf(),
            final(self).sidebars@ == docks::docks_without(old(self).sidebars@, kind@),
            old(self).sides_saved(
                final(self),
                off_with(text::texts(old(self).config.docks_off@), kind@),
            ),
    {
        self.sidebars.unplace(kind);
        turn_off(&mut self.config.docks_off, kind);
        self.save_sidebars();
    }
}

/// Adds the docks at the end of the list.
fn push_docks(v: &mut Vec<DockKind>, more: &Vec<DockKind>)
    ensures
        docks::dock_views(final(v)@) == docks::dock_views(old(v)@) + docks::dock_views(more@),
{
    let ghost before = docks::dock_views(v@);
    let ghost all = docks::dock_views(more@);
    let mut i: usize = 0;
    assert(before + all.take(0) =~= before);
    while i < more.len()
        invariant
            i <= more@.len(),
            all == docks::dock_views(more@),
            docks::dock_views(v@) == before + all.take(i as int),
        decreases more@.len() - i,
    {
        let ghost middle = docks::dock_views(v@);
        v.push(more[i].copy());
        assert(docks::dock_views(v@) =~= middle.push(all[i as int]));
        assert(before + all.take(i + 1) =~= (before + all.take(i as int)).push(all[i as int]));
        i = i + 1;
    }
    assert(all.take(i as int) =~= all);
}

// ---------------------------------------------------------------------------
// Docks of modules
// ---------------------------------------------------------------------------

/// Whether the module dock is cached at this position.
pub open spec fn cached_at(cache: Seq<(String, ModuleDock)>, id: Seq<char>, i: int) -> bool {
    0 <= i < cache.len() && cache[i].0@ == id
}

/// Whether the module dock is cached.
pub open spec fn is_cached(cache: Seq<(String, ModuleDock)>, id: Seq<char>) -> bool {
    exists|i: int| #[trigger] cached_at(cache, id, i)
}

/// Where the module dock is cached.
pub open spec fn cache_position(cache: Seq<(String, ModuleDock)>, id: Seq<char>) -> int {
    choose|i: int| #[trigger] cached_at(cache, id, i)
}

/// The cache without a module dock.
pub open spec fn cache_without(cache: Seq<(String, ModuleDock)>, id: Seq<char>) -> Seq<
    (String, ModuleDock),
> {
    if is_cached(cache, id) {
        cache.remove(cache_position(cache, id))
    } else {
        cache
    }
}

/// The cache without the module docks.
pub open spec fn cache_without_all(cache: Seq<(String, ModuleDock)>, ids: Seq<Seq<char>>) -> Seq<
    (String, ModuleDock),
>
    decreases ids.len(),
{
    if ids.len() == 0 {
        cache
    } else {
        cache_without(cache_without_all(cache, ids.drop_last()), ids.last())
    }
}

/// Where the module dock is cached.
pub fn find_cached(cache: &Vec<(String, ModuleDock)>, id: &str) -> (at: Option<usize>)
    requires
        super::module_docks_wf(cache@),
    ensures
        match at {
            Some(i) => cached_at(cache@, id@, i as int) && is_cached(cache@, id@) && i
                == cache_position(cache@, id@),
            None => !is_cached(cache@, id@),
        },
{
    let mut i: usize = 0;
    while i < cache.len()
        invariant
            super::module_docks_wf(cache@),
            i <= cache@.len(),
            forall|k: int| 0 <= k < i ==> !cached_at(cache@, id@, k),
        decreases cache@.len() - i,
    {
        if same_text(cache[i].0.as_str(), id) {
            assert(cached_at(cache@, id@, i as int));
            return Some(i);
        }
        i = i + 1;
    }
    None
}

/// Drops a module dock from the cache.
fn drop_cached(cache: &mut Vec<(String, ModuleDock)>, id: &str)
    requires
        super::module_docks_wf(old(cache)@),
    ensures
        super::module_docks_wf(final(cache)@),
        final(cache)@ == cache_without(old(cache)@, id@),
{
    match find_cached(cache, id) {
        Some(i) => {
            let ghost before = cache@;
            let _ = cache.remove(i);
            assert forall|a: int, b: int| 0 <= a < b < cache@.len() implies (
            #[trigger] cache@[a]).0@ != (#[trigger] cache@[b]).0@ by {
                let x = if a < i {
                    a
                } else {
                    a + 1
                };
                let y = if b < i {
                    b
                } else {
                    b + 1
                };
                assert(cache@[a] == before[x] && cache@[b] == before[y]);
            }
        },
        None => {},
    }
}

/// What a push makes of the cache: rows are replaced, and a title that comes
/// with them; a new dock without a title is called by its id.
pub open spec fn cache_pushed(
    cache: Seq<(String, ModuleDock)>,
    now: Seq<(String, ModuleDock)>,
    id: Seq<char>,
    title: Option<String>,
    rows: Vec<DockRow>,
) -> bool {
    if is_cached(cache, id) {
        let i = cache_position(cache, id);
        &&& now == cache.update(i, now[i])
        &&& now[i].0@ == id
        &&& now[i].1.rows == rows
        &&& now[i].1.title == (match title {
            Some(t) => t,
            None => cache[i].1.title,
        })
    } else {
        &&& now == cache.push(now.last())
        &&& now.last().0@ == id
        &&& now.last().1.rows == rows
        &&& now.last().1.title@ == (match title {
            Some(t) => t@,
            None => id,
        })
    }
}

/// Takes a push into the cache.
fn cache_dock(
    cache: &mut Vec<(String, ModuleDock)>,
    id: &str,
    title: Option<String>,
    rows: Vec<DockRow>,
)
    requires
        super::module_docks_wf(old(cache)@),
    ensures
        super::module_docks_wf(final(cache)@),
        cache_pushed(old(cache)@, final(cache)@, id@, title, rows),
{
    match find_cached(cache, id) {
        Some(i) => {
            let ghost before = cache@;
            match title {
                Some(t) => {
                    cache[i].1.title = t;
                },
                None => {},
            }
            cache[i].1.rows = rows;
            assert(cache@ =~= before.update(i as int, cache@[i as int]));
            assert(super::module_docks_wf(cache@));
        },
        None => {
            let ghost before = cache@;
            let title: String = match title {
                Some(t) => t,
                None => id.to_owned(),
            };
            cache.push((id.to_owned(), ModuleDock { title, rows }));
            assert(super::module_docks_wf(cache@)) by {
                let now = cache@;
                assert forall|a: int, b: int| 0 <= a < b < now.len() implies (
                #[trigger] now[a]).0@ != (#[trigger] now[b]).0@ by {
                    if b == before.len() {
                        assert(!cached_at(before, id@, a));
                    }
                }
            }
        },
    }
}

/// The title that a module declares for a dock.
pub open spec fn title_in(module: Module, id: Seq<char>, n: int) -> Option<Seq<char>>
    decreases module.docks@.len() - n,
{
    if n < 0 || n >= module.docks@.len() {
        None
    } else if module.docks@[n].id@ == id {
        Some(module.docks@[n].title@)
    } else {
        title_in(module, id, n + 1)
    }
}

/// The title that the first of the modules declares for a dock.
pub open spec fn declared_title(modules: Seq<Module>, id: Seq<char>, n: int) -> Option<Seq<char>>
    decreases modules.len() - n,
{
    if n < 0 || n >= modules.len() {
        None
    } else {
        match title_in(modules[n], id, 0) {
            Some(t) => Some(t),
            None => declared_title(modules, id, n + 1),
        }
    }
}

/// The title that a module declares for a dock.
fn find_title(module: &Module, id: &str) -> (title: Option<String>)
    ensures
        text::opt_text(title) == title_in(*module, id@, 0),
{
    let mut n: usize = 0;
    while n < module.docks.len()
        invariant
            n <= module.docks@.len(),
            title_in(*module, id@, 0) == title_in(*module, id@, n as int),
        decreases module.docks@.len() - n,
    {
        if same_text(module.docks[n].id.as_str(), id) {
            return Some(module.docks[n].title.clone());
        }
        n = n + 1;
    }
    None
}

impl App {
    /// The title of a module dock.
    pub open spec fn module_title(&self, id: Seq<char>) -> Seq<char> {
        if is_cached(self.module_docks@, id) {
            self.module_docks@[cache_position(self.module_docks@, id)].1.title@
        } else {
            match declared_title(self.modules@, id, 0) {
                Some(t) => t,
                None => id,
            }
        }
    }

    /// The title of a module dock: the one that the module gave it, else the one
    /// that an installed module declares, else its id.
    pub fn module_dock_title(&self, id: &str) -> (title: String)
        requires
            self.wf(),
        ensures
            title@ == self.module_title(id@),
    {
        match find_cached(&self.module_docks, id) {
            Some(i) => {
                return self.module_docks[i].1.title.clone();
            },
            None => {},
        }
        let mut n: usize = 0;
        while n < self.modules.len()
            invariant
                !is_cached(self.module_docks@, id@),
                n <= self.modules@.len(),
                declared_title(self.modules@, id@, 0) == declared_title(
                    self.modules@,
                    id@,
                    n as int,
                ),
            decreases self.modules@.len() - n,
        {
            match find_title(&self.modules[n], id) {
                Some(t) => {
                    return t;
                },
                None => {},
            }
            n = n + 1;
        }
        id.to_owned()
    }

    /// The label of a dock.
    pub fn dock_label(&self, kind: &DockKind) -> (label: String)
        requires
            self.wf(),
        ensures
            label@ == (match kind@ {
                DockView::Workspaces => self.catalog.workspaces@,
                DockView::Agents => self.catalog.agents@,
                DockView::Files => self.catalog.files@,
                DockView::Module(id) => self.module_title(id),
            }),
    {
        match kind {
            DockKind::Workspaces => self.catalog.workspaces.to_owned(),
            DockKind::Agents => self.catalog.agents.to_owned(),
            DockKind::Files => self.catalog.files.to_owned(),
            DockKind::Module(id) => self.module_dock_title(id.as_str()),
        }
    }

    /// Whether a pushed dock is placed without the user's doing.
    pub open spec fn mounts(&self, id: Seq<char>, placement: Side) -> bool {
        &&& !text::texts(self.config.docks_off@).contains(id)
        &&& self.sidebars.holder(DockView::Module(id)) is None
        &&& self.sidebars.side(placement)@.docks.len() < MAX_DOCKS_PER_SIDE
    }

    /// Takes what a module shows in its dock. A dock that is placed nowhere and
    /// was not turned off is placed, where there is room.
    pub fn push_module_dock(
        &mut self,
        id: &str,
        title: Option<String>,
        placement: Side,
        rows: Vec<DockRow>,
    )
        requires
            old(self).wf(),
        ensures
            final(self).wf(),
            cache_pushed(old(self).module_docks@, final(self).module_docks@, id@, title, rows),
            if old(self).mounts(id@, placement) {
                &&& final(self).sidebars@ == docks::docks_moved(
                    old(self).sidebars@,
                    DockView::Module(id@),
                    placement,
                )
                &&& (App { module_docks: final(self).module_docks, ..*old(self) }).sides_saved(
                    final(self),
                    text::without_text(text::texts(old(self).config.docks_off@), id@),
                )
            } else {
                *final(self) == (App { module_docks: final(self).module_docks, ..*old(self) })
            },
    {
        cache_dock(&mut self.module_docks, id, title, rows);
        let kind = DockKind::Module(id.to_owned());
        let off: bool = has_text(&self.config.docks_off, id);
        if !off && self.sidebars.side_of(&kind).is_none() && self.sidebars.has_room(placement) {
            let _ = self.move_dock(&kind, placement);
        }
    }

    /// Drops the docks of modules: from the sides and from the cache.
    pub fn remove_module_docks(&mut self, ids: &Vec<String>)
        requires
            old(self).wf(),
        ensures
            final(self).wf(),
            if ids@.len() == 0 {
                *final(self) == *old(self)
            } else {
                &&& final(self).sidebars@ == docks_without_all(
                    old(self).sidebars@,
                    text::texts(ids@),
                )
                &&& final(self).module_docks@ == cache_without_all(
                    old(self).module_docks@,
                    text::texts(ids@),
                )
                &&& (App { module_docks: final(self).module_docks, ..*old(self) }).sides_saved(
                    final(self),
                    text::texts(old(self).config.docks_off@),
                )
            },
    {
        if ids.len() == 0 {
            return ;
        }
        let ghost start = *self;
        let ghost all = text::texts(ids@);
        let mut i: usize = 0;
        assert(all.take(0) =~= Seq::<Seq<char>>::empty());
        while i < ids.len()
            invariant
                i <= ids@.len(),
                all == text::texts(ids@),
                self.wf(),
                self.sidebars@ == docks_without_all(start.sidebars@, all.take(i as int)),
                self.module_docks@ == cache_without_all(start.module_docks@, all.take(i as int)),
                *self == (App {
                    sidebars: self.sidebars,
                    module_docks: self.module_docks,
                    ..start
                }),
            decreases ids@.len() - i,
        {
            assert(all.take(i + 1).drop_last() =~= all.take(i as int));
            assert(all.take(i + 1).last() == ids@[i as int]@);
            let kind = DockKind::Module(ids[i].clone());
            self.sidebars.unplace(&kind);
            drop_cached(&mut self.module_docks, ids[i].as_str());
            i = i + 1;
        }
        assert(all.take(i as int) =~= all);
        self.save_sidebars();
    }
}

// ---------------------------------------------------------------------------
// The registry of docks
// ---------------------------------------------------------------------------

/// The list with a dock that it may hold already.
pub open spec fn with_dock(list: Seq<DockView>, kind: DockView) -> Seq<DockView> {
    if list.contains(kind) {
        list
    } else {
        list.push(kind)
    }
}

/// The list with the first docks that a module declares.
pub open spec fn with_declared(list: Seq<DockView>, module: Module, n: nat) -> Seq<DockView>
    decreases n,
{
    if n == 0 {
        list
    } else {
        with_dock(
            with_declared(list, module, (n - 1) as nat),
            DockView::Module(module.docks@[n - 1].id@),
        )
    }
}

/// Our own docks, then those that the first modules declare, as far as they can
/// run.
pub open spec fn declared_docks(modules: Seq<Module>, n: nat) -> Seq<DockView>
    decreases n,
{
    if n == 0 {
        seq![DockView::Workspaces, DockView::Agents, DockView::Files]
    } else {
        let before = declared_docks(modules, (n - 1) as nat);
        let module = modules[n - 1];
        if module.runnable {
            with_declared(before, module, module.docks@.len())
        } else {
            before
        }
    }
}

/// Docks as a list of the ids of modules.
pub open spec fn module_views(ids: Seq<Seq<char>>) -> Seq<DockView> {
    Seq::new(ids.len(), |i: int| DockView::Module(ids[i]))
}

impl App {
    /// Whether a module dock is known without being declared: it is cached, was
    /// turned off, or is placed.
    pub open spec fn known_dock(&self, id: Seq<char>) -> bool {
        ||| is_cached(self.module_docks@, id)
        ||| text::texts(self.config.docks_off@).contains(id)
        ||| self.sidebars@.0.docks.contains(DockView::Module(id))
        ||| self.sidebars@.1.docks.contains(DockView::Module(id))
    }

    /// Whether these are the docks that can be placed: our own and the declared
    /// ones, then the others that are known, in the order of their ids. Where the
    /// docks are placed has no bearing on the order.
    pub open spec fn is_registry(&self, list: Seq<DockView>, rest: Seq<Seq<char>>) -> bool {
        let declared = declared_docks(self.modules@, self.modules@.len());
        &&& list == declared + module_views(rest)
        &&& text::in_order(rest)
        &&& forall|id: Seq<char>| #[trigger]
            rest.contains(id) == (self.known_dock(id) && !declared.contains(DockView::Module(id)))
    }
}

/// There is only one registry.
pub proof fn law_registry_is_unique(
    app: App,
    a: Seq<DockView>,
    b: Seq<DockView>,
    x: Seq<Seq<char>>,
    y: Seq<Seq<char>>,
)
    requires
        app.is_registry(a, x),
        app.is_registry(b, y),
    ensures
        a == b,
{
    text::lemma_ordered_lists_agree(x, y);
}

/// Adds a dock unless the list holds it.
fn add_dock(list: &mut Vec<DockKind>, kind: DockKind)
    ensures
        docks::dock_views(final(list)@) == with_dock(docks::dock_views(old(list)@), kind@),
{
    let ghost before = docks::dock_views(list@);
    if !has_dock(list, &kind) {
        list.push(kind);
        assert(docks::dock_views(list@) =~= before.push(kind@));
    }
}

/// Our own docks, then those that modules declare.
fn declared_list(modules: &Vec<Module>) -> (v: Vec<DockKind>)
    ensures
        docks::dock_views(v@) == declared_docks(modules@, modules@.len()),
{
    let mut v: Vec<DockKind> = Vec::new();
    v.push(DockKind::Workspaces);
    v.push(DockKind::Agents);
    v.push(DockKind::Files);
    assert(docks::dock_views(v@) =~= declared_docks(modules@, 0));
    let mut n: usize = 0;
    while n < modules.len()
        invariant
            n <= modules@.len(),
            docks::dock_views(v@) == declared_docks(modules@, n as nat),
        decreases modules@.len() - n,
    {
        if modules[n].runnable {
            let ghost before = docks::dock_views(v@);
            let mut k: usize = 0;
            while k < modules[n].docks.len()
                invariant
                    n < modules@.len(),
                    k <= modules@[n as int].docks@.len(),
                    docks::dock_views(v@) == with_declared(before, modules@[n as int], k as nat),
                decreases modules@[n as int].docks@.len() - k,
            {
                add_dock(&mut v, DockKind::Module(modules[n].docks[k].id.clone()));
                k = k + 1;
            }
        }
        n = n + 1;
    }
    v
}

impl App {
    /// The ids of the module docks that are known without being declared.
    fn known_ids(&self) -> (v: Vec<String>)
        requires
            self.wf(),
        ensures
            forall|id: Seq<char>| #[trigger] text::texts(v@).contains(id) == self.known_dock(id),
            text::in_order(text::texts(v@)),
    {
        let mut v: Vec<String> = Vec::new();
        let ghost cache = self.module_docks@;
        let mut i: usize = 0;
        while i < self.module_docks.len()
            invariant
                cache == self.module_docks@,
                i <= cache.len(),
                text::in_order(text::texts(v@)),
                forall|id: Seq<char>| #[trigger]
                    text::texts(v@).contains(id) == exists|k: int|
                        k < i && #[trigger] cached_at(cache, id, k),
            decreases cache.len() - i,
        {
            let ghost before = text::texts(v@);
            insert_in_order(&mut v, self.module_docks[i].0.clone());
            assert forall|id: Seq<char>| #[trigger] text::texts(v@).contains(id) == exists|k: int|
                k < i + 1 && #[trigger] cached_at(cache, id, k) by {
                if before.contains(id) {
                    let k = choose|k: int| k < i && #[trigger] cached_at(cache, id, k);
                    assert(k < i + 1 && cached_at(cache, id, k));
                }
                if cache[i as int].0@ == id {
                    assert(cached_at(cache, id, i as int));
                }
            }
            i = i + 1;
        }
        let ghost off = text::texts(self.config.docks_off@);
        let mut i: usize = 0;
        while i < self.config.docks_off.len()
            invariant
                cache == self.module_docks@,
                off == text::texts(self.config.docks_off@),
                i <= off.len(),
                text::in_order(text::texts(v@)),
                forall|id: Seq<char>| #[trigger]
                    text::texts(v@).contains(id) == (is_cached(cache, id) || off.take(
                        i as int,
                    ).contains(id)),
            decreases off.len() - i,
        {
            let ghost before = text::texts(v@);
            insert_in_order(&mut v, self.config.docks_off[i].clone());
            proof {
                text::lemma_take_contains(off, i as int);
            }
            i = i + 1;
        }
        assert(off.take(i as int) =~= off);
        let ghost left = self.sidebars@.0.docks;
        let ghost right = self.sidebars@.1.docks;
        let flat = self.docks_flat();
        let ghost placed = docks::dock_views(flat@);
        let mut i: usize = 0;
        while i < flat.len()
            invariant
                cache == self.module_docks@,
                off == text::texts(self.config.docks_off@),
                placed == docks::dock_views(flat@),
                i <= placed.len(),
                text::in_order(text::texts(v@)),
                forall|id: Seq<char>| #[trigger]
                    text::texts(v@).contains(id) == (is_cached(cache, id) || off.contains(id)
                        || placed.take(i as int).contains(DockView::Module(id))),
            decreases placed.len() - i,
        {
            let ghost before = text::texts(v@);
            match &flat[i] {
                DockKind::Module(id) => {
                    insert_in_order(&mut v, id.clone());
                },
                _ => {},
            }
            proof {
                text::lemma_take_contains(placed, i as int);
            }
            i = i + 1;
        }
        proof {
            assert(placed.take(i as int) =~= placed);
            assert forall|id: Seq<char>| #[trigger]
                text::texts(v@).contains(id) == self.known_dock(id) by {
                let k = DockView::Module(id);
                assert(placed == left + right);
                if placed.contains(k) {
                    let m = choose|m: int| 0 <= m < placed.len() && placed[m] == k;
                    if m < left.len() {
                        assert(left[m] == k);
                    } else {
                        assert(right[m - left.len()] == k);
                    }
                }
                if left.contains(k) {
                    let m = choose|m: int| 0 <= m < left.len() && left[m] == k;
                    assert(placed[m] == k);
                }
                if right.contains(k) {
                    let m = choose|m: int| 0 <= m < right.len() && right[m] == k;
                    assert(placed[m + left.len()] == k);
                }
            }
        }
        v
    }

    /// Every dock that can be placed: our own, those that modules declare, then
    /// the other known ones in the order of their ids.
    pub fn available_docks(&self) -> (v: Vec<DockKind>)
        requires
            self.wf(),
        ensures
            exists|rest: Seq<Seq<char>>| #[trigger]
                self.is_registry(docks::dock_views(v@), rest),
    {
        let mut v = declared_list(&self.modules);
        let ghost declared = docks::dock_views(v@);
        let known = self.known_ids();
        let ghost all = text::texts(known@);
        let ghost mut rest = Seq::<Seq<char>>::empty();
        let mut i: usize = 0;
        assert(declared + module_views(rest) =~= declared);
        while i < known.len()
            invariant
                i <= known@.len(),
                all == text::texts(known@),
                text::in_order(all),
                docks::dock_views(v@) == declared + module_views(rest),
                text::in_order(rest),
                forall|id: Seq<char>| #[trigger]
                    rest.contains(id) == (all.take(i as int).contains(id) && !declared.contains(
                        DockView::Module(id),
                    )),
            decreases known@.len() - i,
        {
            let ghost before = docks::dock_views(v@);
            let ghost id = all[i as int];
            let kind = DockKind::Module(known[i].clone());
            let fresh: bool = !has_dock(&v, &kind);
            if fresh {
                v.push(kind);
            }
            proof {
                text::lemma_take_contains(all, i as int);
                let k = DockView::Module(id);
                let old_rest = rest;
                let old_views = module_views(old_rest);
                assert(!old_rest.contains(id)) by {
                    if old_rest.contains(id) {
                        let first = all.take(i as int);
                        let m = choose|m: int| 0 <= m < first.len() && first[m] == id;
                        assert(text::text_less(all[m], all[i as int]));
                        text::lemma_text_order_total(all[m], all[i as int]);
                    }
                }
                assert(before.contains(k) == declared.contains(k)) by {
                    if before.contains(k) {
                        let x = choose|x: int| 0 <= x < before.len() && before[x] == k;
                        if x < declared.len() {
                            assert(declared[x] == k);
                        } else {
                            assert(old_views[x - declared.len()] == k);
                            assert(old_rest[x - declared.len()] == id);
                        }
                    }
                    if declared.contains(k) {
                        let x = choose|x: int| 0 <= x < declared.len() && declared[x] == k;
                        assert(before[x] == k);
                    }
                }
                if fresh {
                    rest = old_rest.push(id);
                    assert(docks::dock_views(v@) =~= before.push(k));
                    assert(module_views(rest) =~= old_views.push(k));
                    assert(docks::dock_views(v@) =~= declared + module_views(rest));
                    assert forall|a: int, b: int| 0 <= a < b < rest.len() implies text::text_less(
                        #[trigger] rest[a],
                        #[trigger] rest[b],
                    ) by {
                        if b == old_rest.len() {
                            let first = all.take(i as int);
                            assert(old_rest.contains(old_rest[a]));
                            let m = choose|m: int| 0 <= m < first.len() && first[m] == old_rest[a];
                            assert(text::text_less(all[m], all[i as int]));
                        }
                    }
                }
                assert forall|x: Seq<char>| #[trigger]
                    rest.contains(x) == (all.take(i + 1).contains(x) && !declared.contains(
                        DockView::Module(x),
                    )) by {
                    if fresh {
                        text::lemma_push_has(old_rest, id, x);
                    }
                }
            }
            i = i + 1;
        }
        proof {
            assert(all.take(i as int) =~= all);
            assert(self.is_registry(docks::dock_views(v@), rest));
        }
        v
    }
}

/// A module dock that the user takes off is remembered as turned off, and one that is
/// placed again is not; what is remembered of others stays.
pub proof fn law_docks_stay_off_until_they_are_placed(
    off: Seq<Seq<char>>,
    id: Seq<char>,
    other: Seq<char>,
)
    requires
        other != id,
    ensures
        off_with(off, DockView::Module(id)).contains(id),
        !off_without(off, DockView::Module(id)).contains(id),
        off_with(off, DockView::Module(id)).contains(other) == off.contains(other),
        off_without(off, DockView::Module(id)).contains(other) == off.contains(other),
{
    text::law_a_dropped_text_is_gone(off, id, id);
    text::law_a_dropped_text_is_gone(off, id, other);
    let more = off.push(id);
    assert(more[off.len() as int] == id);
    if off.contains(other) {
        let i = choose|i: int| 0 <= i < off.len() && off[i] == other;
        assert(more[i] == other);
    }
    if more.contains(other) {
        let i = choose|i: int| 0 <= i < more.len() && more[i] == other;
        assert(off[i] == other);
    }
}

/// Of the docks of modules that go, none stays on either side; every other dock stays
/// where it is.
pub proof fn law_docks_of_removed_modules_are_gone(
    sides: (SideView, SideView),
    ids: Seq<Seq<char>>,
    kind: DockView,
)
    ensures
        ({
            let now = docks_without_all(sides, ids);
            let gone = kind matches DockView::Module(id) && ids.contains(id);
            &&& now.0.docks.contains(kind) == (sides.0.docks.contains(kind) && !gone)
            &&& now.1.docks.contains(kind) == (sides.1.docks.contains(kind) && !gone)
            &&& now.0 == (SideView { docks: now.0.docks, ..sides.0 })
            &&& now.1 == (SideView { docks: now.1.docks, ..sides.1 })
        }),
    decreases ids.len(),
{
    if ids.len() > 0 {
        let rest = ids.drop_last();
        law_docks_of_removed_modules_are_gone(sides, rest, kind);
        let before = docks_without_all(sides, rest);
        docks::lemma_without_dock(before.0.docks, DockView::Module(ids.last()));
        docks::lemma_without_dock(before.1.docks, DockView::Module(ids.last()));
        match kind {
            DockView::Module(id) => {
                assert(ids[ids.len() - 1] == ids.last());
                if rest.contains(id) {
                    let i = choose|i: int| 0 <= i < rest.len() && rest[i] == id;
                    assert(ids[i] == id);
                }
                if ids.contains(id) && id != ids.last() {
                    let i = choose|i: int| 0 <= i < ids.len() && ids[i] == id;
                    assert(rest[i] == id);
                }
            },
            _ => {},
        }
    }
}

/// What a module pushed is what its dock shows: the rows, and the title where one came
/// with them. The docks of other modules show what they showed.
pub proof fn law_pushed_rows_are_shown(
    cache: Seq<(String, ModuleDock)>,
    now: Seq<(String, ModuleDock)>,
    id: Seq<char>,
    title: Option<String>,
    rows: Vec<DockRow>,
    other: Seq<char>,
)
    requires
        super::module_docks_wf(cache),
        super::module_docks_wf(now),
        cache_pushed(cache, now, id, title, rows),
        other != id,
    ensures
        is_cached(now, id),
        now[cache_position(now, id)].1.rows == rows,
        title is Some ==> now[cache_position(now, id)].1.title@ == title->0@,
        title is None && is_cached(cache, id) ==> now[cache_position(now, id)].1.title
            == cache[cache_position(cache, id)].1.title,
        title is None && !is_cached(cache, id) ==> now[cache_position(now, id)].1.title@ == id,
        is_cached(now, other) == is_cached(cache, other),
        is_cached(cache, other) ==> now[cache_position(now, other)].1
            == cache[cache_position(cache, other)].1,
{
    let at = if is_cached(cache, id) {
        cache_position(cache, id)
    } else {
        cache.len() as int
    };
    if is_cached(cache, id) {
        assert(cached_at(cache, id, at));
    }
    assert(cached_at(now, id, at));
    let found = cache_position(now, id);
    assert(cached_at(now, id, found));
    assert(found == at) by {
        if found < at {
            assert(now[found].0@ != now[at].0@);
        }
        if found > at {
            assert(now[at].0@ != now[found].0@);
        }
    }
    if is_cached(cache, other) {
        let i = cache_position(cache, other);
        assert(cached_at(cache, other, i));
        assert(now[i] == cache[i]);
        assert(cached_at(now, other, i));
        let j = cache_position(now, other);
        assert(cached_at(now, other, j));
        assert(i == j) by {
            if i < j {
                assert(now[i].0@ != now[j].0@);
            }
            if j < i {
                assert(now[j].0@ != now[i].0@);
            }
        }
    }
    if is_cached(now, other) {
        let j = cache_position(now, other);
        assert(cached_at(now, other, j));
        assert(j != at);
        assert(now[j] == cache[j]);
        assert(cached_at(cache, other, j));
    }
}

/// Whether this dock of this module declares the id.
pub open spec fn declares_at(modules: Seq<Module>, id: Seq<char>, m: int, d: int) -> bool {
    0 <= m < modules.len() && 0 <= d < modules[m].docks@.len() && modules[m].docks@[d].id@ == id
}

proof fn lemma_title_in(modules: Seq<Module>, id: Seq<char>, m: int, d: int, n: int)
    requires
        declares_at(modules, id, m, d),
        0 <= n <= d,
        forall|k: int| 0 <= k < d ==> !#[trigger] declares_at(modules, id, m, k),
    ensures
        title_in(modules[m], id, n) == Some(modules[m].docks@[d].title@),
    decreases d - n,
{
    if n < d {
        assert(!declares_at(modules, id, m, n));
        lemma_title_in(modules, id, m, d, n + 1);
    }
}

proof fn lemma_no_title_in(modules: Seq<Module>, id: Seq<char>, m: int, n: int)
    requires
        0 <= m < modules.len(),
        0 <= n <= modules[m].docks@.len(),
        forall|k: int| !#[trigger] declares_at(modules, id, m, k),
    ensures
        title_in(modules[m], id, n) is None,
    decreases modules[m].docks@.len() - n,
{
    if n < modules[m].docks@.len() {
        assert(!declares_at(modules, id, m, n));
        lemma_no_title_in(modules, id, m, n + 1);
    }
}

proof fn lemma_declared_title(modules: Seq<Module>, id: Seq<char>, m: int, d: int, n: int)
    requires
        declares_at(modules, id, m, d),
        0 <= n <= m,
        forall|k: int| 0 <= k < d ==> !#[trigger] declares_at(modules, id, m, k),
        forall|a: int, b: int| 0 <= a < m ==> !#[trigger] declares_at(modules, id, a, b),
    ensures
        declared_title(modules, id, n) == Some(modules[m].docks@[d].title@),
    decreases m - n,
{
    if n < m {
        lemma_no_title_in(modules, id, n, 0);
        lemma_declared_title(modules, id, m, d, n + 1);
    } else {
        lemma_title_in(modules, id, m, d, 0);
    }
}

/// A dock that nothing was pushed to goes by the title of its first declaration, in the
/// order of the modules and of their docks.
pub proof fn law_docks_go_by_their_first_declaration(app: App, id: Seq<char>, m: int, d: int)
    requires
        !is_cached(app.module_docks@, id),
        declares_at(app.modules@, id, m, d),
        forall|k: int| 0 <= k < d ==> !#[trigger] declares_at(app.modules@, id, m, k),
        forall|a: int, b: int| 0 <= a < m ==> !#[trigger] declares_at(app.modules@, id, a, b),
    ensures
        app.module_title(id) == app.modules@[m].docks@[d].title@,
{
    lemma_declared_title(app.modules@, id, m, d, 0);
}

proof fn lemma_with_declared(list: Seq<DockView>, module: Module, n: nat, kind: DockView)
    requires
        n <= module.docks@.len(),
    ensures
        with_declared(list, module, n).contains(kind) <==> list.contains(kind) || exists|d: int|
            0 <= d < n && kind == DockView::Module((#[trigger] module.docks@[d]).id@),
    decreases n,
{
    if n > 0 {
        let before = with_declared(list, module, (n - 1) as nat);
        let last = DockView::Module(module.docks@[n - 1].id@);
        lemma_with_declared(list, module, (n - 1) as nat, kind);
        lemma_with_dock(before, last, kind);
    }
}

proof fn lemma_with_dock(list: Seq<DockView>, more: DockView, kind: DockView)
    ensures
        with_dock(list, more).contains(kind) <==> list.contains(kind) || kind == more,
{
    if !list.contains(more) {
        let all = list.push(more);
        assert(all[list.len() as int] == more);
        if list.contains(kind) {
            let i = choose|i: int| 0 <= i < list.len() && list[i] == kind;
            assert(all[i] == kind);
        }
        if all.contains(kind) && kind != more {
            let i = choose|i: int| 0 <= i < all.len() && all[i] == kind;
            assert(list[i] == kind);
        }
    }
}

/// Whether one of the first modules can run and declares the dock.
pub open spec fn is_offered(modules: Seq<Module>, n: nat, id: Seq<char>) -> bool {
    exists|m: int, d: int|
        0 <= m < n && modules[m].runnable && #[trigger] declares_at(modules, id, m, d)
}

/// The docks of every module that can run are offered, and no docks of others; the
/// session's own always are.
pub proof fn law_docks_of_running_modules_are_offered(modules: Seq<Module>, n: nat, id: Seq<char>)
    requires
        n <= modules.len(),
    ensures
        declared_docks(modules, n).contains(DockView::Module(id)) <==> is_offered(modules, n, id),
        declared_docks(modules, n).contains(DockView::Workspaces),
        declared_docks(modules, n).contains(DockView::Agents),
        declared_docks(modules, n).contains(DockView::Files),
    decreases n,
{
    let kind = DockView::Module(id);
    if n == 0 {
        let own = declared_docks(modules, 0);
        assert(own[0] == DockView::Workspaces);
        assert(own[1] == DockView::Agents);
        assert(own[2] == DockView::Files);
    } else {
        let k = (n - 1) as nat;
        law_docks_of_running_modules_are_offered(modules, k, id);
        let before = declared_docks(modules, k);
        let module = modules[n - 1];
        let len = module.docks@.len();
        if module.runnable {
            lemma_with_declared(before, module, len, kind);
            lemma_with_declared(before, module, len, DockView::Workspaces);
            lemma_with_declared(before, module, len, DockView::Agents);
            lemma_with_declared(before, module, len, DockView::Files);
            if exists|d: int|
                0 <= d < len && kind == DockView::Module((#[trigger] module.docks@[d]).id@) {
                let d = choose|d: int|
                    0 <= d < len && kind == DockView::Module((#[trigger] module.docks@[d]).id@);
                assert(declares_at(modules, id, n - 1, d));
            }
        }
        if is_offered(modules, k, id) {
            let (m, d) = choose|m: int, d: int|
                0 <= m < k && modules[m].runnable && #[trigger] declares_at(modules, id, m, d);
            assert(declares_at(modules, id, m, d));
        }
        if is_offered(modules, n, id) {
            let (m, d) = choose|m: int, d: int|
                0 <= m < n && modules[m].runnable && #[trigger] declares_at(modules, id, m, d);
            assert(declares_at(modules, id, m, d));
            if m == n - 1 {
                assert(kind == DockView::Module(module.docks@[d].id@));
            }
        }
    }
}

} // verus!
