//! The panel along the top of the output, with one indicator per workspace.
use vstd::prelude::*;
use crate::geometry::{Point, Size, Rect};
use crate::window::{PANEL_HEIGHT, bump};

verus! {

/// Left edge of the first workspace indicator.
pub const INDICATOR_START_X: i32 = 10;

/// Distance from the panel's top edge to the indicators.
pub const INDICATOR_Y: i32 = 6;

pub const INDICATOR_WIDTH: i32 = 30;

pub const INDICATOR_GAP: i32 = 4;

/// One workspace indicator to draw.
#[derive(Clone, Copy, Debug, PartialEq, Eq, Structural)]
pub struct Indicator {
    pub rect: Rect,
    /// Whether this is the current workspace (drawn highlighted).
    pub current: bool,
    /// Changes whenever the indicator must be redrawn.
    pub commit: u64,
}

/// The indicator of workspace `i`: 30 wide, 12 less than the panel high,
/// spaced 34 apart from x = 10.
pub open spec fn indicator_rect(i: int) -> Rect {
    Rect {
        loc: Point {
            x: (INDICATOR_START_X + i * (INDICATOR_WIDTH + INDICATOR_GAP)) as i32,
            y: INDICATOR_Y,
        },
        size: Size { w: INDICATOR_WIDTH, h: (PANEL_HEIGHT - 12) as i32 },
    }
}

/// Whether the indicators of `count` workspaces can be placed in `i32`
/// coordinates.
pub open spec fn indicators_fit(count: nat) -> bool {
    count == 0 || INDICATOR_START_X + (count - 1) * (INDICATOR_WIDTH + INDICATOR_GAP) <= i32::MAX
}

/// The panel's state.
pub struct Panel {
    current_workspace: usize,
    workspace_count: usize,
    commit: u64,
    indicator_commits: Vec<u64>,
}

impl Panel {
    pub closed spec fn spec_current(&self) -> usize {
        self.current_workspace
    }

    pub closed spec fn spec_count(&self) -> usize {
        self.workspace_count
    }

    pub closed spec fn spec_commit(&self) -> u64 {
        self.commit
    }

    /// Redraw counters of the indicators drawn so far.
    pub closed spec fn spec_indicator_commits(&self) -> Seq<u64> {
        self.indicator_commits@
    }

    /// A panel for `workspace_count` workspaces, the first one current.
    pub fn new(workspace_count: usize) -> (r: Panel)
        ensures
            r.spec_current() == 0,
            r.spec_count() == workspace_count,
            r.spec_commit() == 0,
            r.spec_indicator_commits().len() == 0,
    {
        Panel {
            current_workspace: 0,
            workspace_count,
            commit: 0,
            indicator_commits: Vec::new(),
        }
    }

    /// Records the current workspace and the workspace count, and marks the
    /// panel and every indicator for redrawing.
    pub fn update(&mut self, current_workspace: usize, workspace_count: usize)
        ensures
            final(self).spec_current() == current_workspace,
            final(self).spec_count() == workspace_count,
            final(self).spec_commit() == bump(old(self).spec_commit()),
            final(self).spec_indicator_commits() == old(self).spec_indicator_commits().map_values(
                |c: u64| bump(c),
            ),
    {
        self.current_workspace = current_workspace;
        self.workspace_count = workspace_count;
        self.commit = if self.commit == u64::MAX {
            0
        } else {
            self.commit + 1
        };
        let ghost old_commits = self.indicator_commits@;
        let n = self.indicator_commits.len();
        let mut i: usize = 0;
        while i < n
            invariant
                n == self.indicator_commits@.len(),
                n == old_commits.len(),
                self.current_workspace == current_workspace,
                self.workspace_count == workspace_count,
                self.commit == bump(old(self).commit),
                i <= n,
                forall|j: int| 0 <= j < i ==> self.indicator_commits@[j] == bump(old_commits[j]),
                forall|j: int| i <= j < n ==> self.indicator_commits@[j] == old_commits[j],
            decreases n - i,
        {
            let c = self.indicator_commits[i];
            self.indicator_commits.set(i, if c == u64::MAX { 0 } else { c + 1 });
            i += 1;
        }
        assert(self.indicator_commits@ =~= old_commits.map_values(|c: u64| bump(c)));
    }

    /// The background's redraw counter.
    pub fn commit(&self) -> (r: u64)
        ensures
            r == self.spec_commit(),
    {
        self.commit
    }

    /// The panel's background: the full output width, `PANEL_HEIGHT` high.
    pub fn background_rect(&self, output_size: Size) -> (r: Rect)
        ensures
            r == (Rect { loc: Point { x: 0, y: 0 }, size: Size { w: output_size.w, h: PANEL_HEIGHT } }),
    {
        Rect { loc: Point { x: 0, y: 0 }, size: Size { w: output_size.w, h: PANEL_HEIGHT } }
    }

    /// The workspace indicators, first to last; indicators drawn for the
    /// first time get a fresh redraw counter.
    pub fn indicators(&mut self) -> (r: Vec<Indicator>)
        requires
            indicators_fit(old(self).spec_count() as nat),
        ensures
            final(self).spec_current() == old(self).spec_current(),
            final(self).spec_count() == old(self).spec_count(),
            final(self).spec_commit() == old(self).spec_commit(),
            r@.len() == old(self).spec_count(),
            forall|i: int|
                0 <= i < r@.len() ==> (#[trigger] r@[i]).rect == indicator_rect(i) && r@[i].current
                    == (i == old(self).spec_current()) && r@[i].commit
                    == final(self).spec_indicator_commits()[i],
            final(self).spec_indicator_commits().len() == if old(self).spec_indicator_commits().len()
                >= old(self).spec_count() {
                old(self).spec_indicator_commits().len()
            } else {
                old(self).spec_count() as nat
            },
            forall|i: int|
                old(self).spec_indicator_commits().len() <= i
                    < final(self).spec_indicator_commits().len() ==> (#[trigger] final(self).spec_indicator_commits()[i])
                    == 0,
            forall|i: int|
                0 <= i < old(self).spec_indicator_commits().len() ==> (
                #[trigger] final(self).spec_indicator_commits()[i])
                    == old(self).spec_indicator_commits()[i],
    {
        let mut out: Vec<Indicator> = Vec::new();
        let ghost old_commits = self.indicator_commits@;
        let mut i: usize = 0;
        while i < self.workspace_count
            invariant
                indicators_fit(self.workspace_count as nat),
                self.current_workspace == old(self).current_workspace,
                self.workspace_count == old(self).workspace_count,
                self.commit == old(self).commit,
                old_commits == old(self).indicator_commits@,
                i <= self.workspace_count,
                out@.len() == i,
                self.indicator_commits@.len() == if old_commits.len() >= i {
                    old_commits.len()
                } else {
                    i as nat
                },
                forall|j: int|
                    old_commits.len() <= j < self.indicator_commits@.len() ==> (
                    #[trigger] self.indicator_commits@[j]) == 0,
                forall|j: int|
                    0 <= j < old_commits.len() ==> (#[trigger] self.indicator_commits@[j])
                        == old_commits[j],
                forall|j: int|
                    0 <= j < i ==> (#[trigger] out@[j]).rect == indicator_rect(j) && out@[j].current
                        == (j == self.current_workspace) && out@[j].commit
                        == self.indicator_commits@[j],
            decreases self.workspace_count - i,
        {
            proof {
                assert(INDICATOR_START_X + i * (INDICATOR_WIDTH + INDICATOR_GAP) <= i32::MAX) by (nonlinear_arith)
                    requires
                        i < self.workspace_count,
                        INDICATOR_START_X + (self.workspace_count - 1) * (INDICATOR_WIDTH
                            + INDICATOR_GAP) <= i32::MAX,
                ;
            }
            let x = INDICATOR_START_X + (i as i32) * (INDICATOR_WIDTH + INDICATOR_GAP);
            if self.indicator_commits.len() <= i {
                self.indicator_commits.push(0);
            }
            out.push(
                Indicator {
                    rect: Rect {
                        loc: Point { x, y: INDICATOR_Y },
                        size: Size { w: INDICATOR_WIDTH, h: PANEL_HEIGHT - 12 },
                    },
                    current: i == self.current_workspace,
                    commit: self.indicator_commits[i],
                },
            );
            i += 1;
        }
        out
    }
}

} // verus!
