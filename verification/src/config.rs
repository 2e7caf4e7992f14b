//! The user's settings, as far as the session model reads them.
use vstd::prelude::*;
use vstd::string::*;

use crate::docks::SIDEBAR_WIDTH_DEFAULT;
use crate::text;
use crate::text::copy_texts;

verus! {

/// One sidebar as it is configured.
#[derive(Debug)]
pub struct SideConfig {
    pub visible: bool,
    pub width: u16,
    /// The ids of its docks from top to bottom.
    pub docks: Vec<String>,
}

/// Both sidebars as they are configured.
#[derive(Debug)]
pub struct SidebarsConfig {
    pub left: SideConfig,
    pub right: SideConfig,
}

/// What a [`SideConfig`] says.
#[verifier::ext_equal]
pub struct SideConfigView {
    pub visible: bool,
    pub width: u16,
    pub docks: Seq<Seq<char>>,
}

impl View for SideConfig {
    type V = SideConfigView;

    open spec fn view(&self) -> SideConfigView {
        SideConfigView {
            visible: self.visible,
            width: self.width,
            docks: text::texts(self.docks@),
        }
    }
}

impl View for SidebarsConfig {
    type V = (SideConfigView, SideConfigView);

    open spec fn view(&self) -> (SideConfigView, SideConfigView) {
        (self.left@, self.right@)
    }
}

/// The settings of the layout.
#[derive(Clone, Copy, Debug, PartialEq, Eq, Structural)]
pub struct LayoutConfig {
    /// New panes start at the workspace root instead of the focused pane's
    /// directory.
    pub new_pane_to_workspace_root: bool,
    /// A resumed session opens in its own workspace instead of the active one.
    pub resume_in_new_workspace: bool,
}

/// The settings.
#[derive(Debug)]
pub struct Config {
    /// The sidebars, once they were arranged.
    pub sidebars: Option<SidebarsConfig>,
    /// The width of the left sidebar, from before there were two.
    pub sidebar_width: u16,
    /// Module docks that the user turned off.
    pub docks_off: Vec<String>,
    pub layout: LayoutConfig,
}

impl Default for Config {
    fn default() -> (c: Config)
        ensures
            c.sidebars is None,
            c.sidebar_width == SIDEBAR_WIDTH_DEFAULT,
            c.docks_off@.len() == 0,
            c.layout == (LayoutConfig {
                new_pane_to_workspace_root: false,
                resume_in_new_workspace: true,
            }),
    {
        Config {
            sidebars: None,
            sidebar_width: SIDEBAR_WIDTH_DEFAULT,
            docks_off: Vec::new(),
            layout: LayoutConfig {
                new_pane_to_workspace_root: false,
                resume_in_new_workspace: true,
            },
        }
    }
}

/// The sidebars of settings that never arranged any: the workspaces above the
/// agents on the left, at the width of old, and an empty hidden sidebar on the
/// right.
pub open spec fn legacy_sidebars(width: u16) -> (SideConfigView, SideConfigView) {
    (
        SideConfigView { visible: true, width, docks: seq!["workspaces"@, "agents"@] },
        SideConfigView {
            visible: false,
            width: SIDEBAR_WIDTH_DEFAULT,
            docks: Seq::<Seq<char>>::empty(),
        },
    )
}

fn copy_side(c: &SideConfig) -> (out: SideConfig)
    ensures
        out@ == c@,
{
    SideConfig { visible: c.visible, width: c.width, docks: copy_texts(&c.docks) }
}

impl Config {
    /// The sidebars that these settings describe.
    pub fn sidebars(&self) -> (s: SidebarsConfig)
        ensures
            s@ == (match self.sidebars {
                Some(c) => c@,
                None => legacy_sidebars(self.sidebar_width),
            }),
    {
        match &self.sidebars {
            Some(c) => SidebarsConfig { left: copy_side(&c.left), right: copy_side(&c.right) },
            None => {
                let mut docks: Vec<String> = Vec::new();
                docks.push("workspaces".to_owned());
                docks.push("agents".to_owned());
                let s = SidebarsConfig {
                    left: SideConfig { visible: true, width: self.sidebar_width, docks },
                    right: SideConfig {
                        visible: false,
                        width: SIDEBAR_WIDTH_DEFAULT,
                        docks: Vec::new(),
                    },
                };
                assert(s.left@.docks =~= seq!["workspaces"@, "agents"@]);
                assert(s.right@.docks =~= Seq::<Seq<char>>::empty());
                s
            },
        }
    }
}

} // verus!
