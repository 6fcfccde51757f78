//! Panes as the cycle sees them: an identifier and the workspace that holds it.

use vstd::prelude::*;

verus! {

/// What a pane is, apart from how its strings are stored.
#[verifier::ext_equal]
pub struct PaneView {
    pub pane_id: Seq<char>,
    pub workspace_id: Seq<char>,
}

/// A pane in a cycle.
#[derive(Debug, Eq)]
pub struct CyclePane {
    pub pane_id: String,
    pub workspace_id: String,
}

impl View for CyclePane {
    type V = PaneView;

    open spec fn view(&self) -> PaneView {
        PaneView { pane_id: self.pane_id@, workspace_id: self.workspace_id@ }
    }
}

impl vstd::std_specs::cmp::PartialEqSpecImpl for CyclePane {
    open spec fn obeys_eq_spec() -> bool {
        true
    }

    open spec fn eq_spec(&self, other: &Self) -> bool {
        self@ == other@
    }
}

impl PartialEq for CyclePane {
    fn eq(&self, other: &Self) -> (r: bool) {
        let r = self.pane_id == other.pane_id && self.workspace_id == other.workspace_id;
        r
    }
}

impl Clone for CyclePane {
    fn clone(&self) -> (r: Self)
        ensures
            r == *self,
    {
        CyclePane { pane_id: self.pane_id.clone(), workspace_id: self.workspace_id.clone() }
    }
}

/// A live pane, as the layout lists it.
#[derive(Debug, Clone)]
pub struct NavigationNode {
    pub pane_id: String,
    pub workspace_id: String,
}

impl View for NavigationNode {
    type V = PaneView;

    open spec fn view(&self) -> PaneView {
        PaneView { pane_id: self.pane_id@, workspace_id: self.workspace_id@ }
    }
}

/// The pane that holds the focus.
#[derive(Debug, Clone)]
pub struct FocusedPaneInfo {
    pub pane_id: String,
    pub workspace_id: String,
}

impl View for FocusedPaneInfo {
    type V = PaneView;

    open spec fn view(&self) -> PaneView {
        PaneView { pane_id: self.pane_id@, workspace_id: self.workspace_id@ }
    }
}

/// The panes of `panes`, in order.
pub open spec fn pane_views(panes: Seq<CyclePane>) -> Seq<PaneView> {
    panes.map_values(|p: CyclePane| p@)
}

/// The live panes of `nodes`, in order.
pub open spec fn node_views(nodes: Seq<NavigationNode>) -> Seq<PaneView> {
    nodes.map_values(|n: NavigationNode| n@)
}

/// The view of a pane that may be absent.
pub open spec fn pane_view_opt(pane: Option<CyclePane>) -> Option<PaneView> {
    match pane {
        Some(p) => Some(p@),
        None => None,
    }
}

/// The view of a focused pane that may be absent, borrowed.
pub open spec fn focused_ref_view_opt(focused: Option<&FocusedPaneInfo>) -> Option<PaneView> {
    match focused {
        Some(f) => Some(f@),
        None => None,
    }
}

/// The view of a focused pane that may be absent.
pub open spec fn focused_view_opt(focused: Option<FocusedPaneInfo>) -> Option<PaneView> {
    match focused {
        Some(f) => Some(f@),
        None => None,
    }
}

} // verus!
