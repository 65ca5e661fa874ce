//! The set of managed windows, their stacking order, keyboard focus and
//! workspaces.
use vstd::prelude::*;
use crate::geometry::{Point, Size, rect_contains};
use crate::window::{Window, WindowId, WindowView, DecorationColors, DECORATION_HEIGHT};
use crate::layout::{LayoutEngine, tiled_indices, arranged_upto};

verus! {

/// Number of workspaces a new window manager has.
pub const DEFAULT_WORKSPACE_COUNT: usize = 4;

/// The window manager's state as a value, for contracts. `windows` is in
/// stacking order: the last window is the topmost.
pub struct ManagerView {
    pub windows: Seq<WindowView>,
    pub focused: Option<WindowId>,
    pub next_id: u64,
    pub current_workspace: usize,
    pub workspace_count: usize,
    /// The decoration colours windows get when they are added.
    pub decoration: DecorationColors,
}

/// Whether a window is shown: not minimized, and on workspace `ws`.
pub open spec fn visible(w: WindowView, ws: usize) -> bool {
    !w.minimized && w.workspace == ws
}

pub open spec fn has_id(s: Seq<WindowView>, id: WindowId) -> bool {
    exists|i: int| 0 <= i < s.len() && (#[trigger] s[i]).id == id
}

/// The position of the window with identifier `id` (meaningful where
/// `has_id(s, id)`).
pub open spec fn pos_of(s: Seq<WindowView>, id: WindowId) -> int {
    choose|i: int| 0 <= i < s.len() && (#[trigger] s[i]).id == id
}

pub open spec fn ids_unique(s: Seq<WindowView>) -> bool {
    forall|i: int, j: int|
        #![trigger s[i], s[j]]
        0 <= i < s.len() && 0 <= j < s.len() && s[i].id == s[j].id ==> i == j
}

/// The window with identifier `id` moved to the top of the stack.
pub open spec fn raised(s: Seq<WindowView>, id: WindowId) -> Seq<WindowView> {
    let p = pos_of(s, id);
    s.remove(p).push(s[p])
}

/// The window with identifier `id` moved to the bottom of the stack.
pub open spec fn lowered(s: Seq<WindowView>, id: WindowId) -> Seq<WindowView> {
    let p = pos_of(s, id);
    s.remove(p).insert(0, s[p])
}

/// Identifiers of the windows shown on workspace `ws`, bottom to top.
pub open spec fn visible_ids(s: Seq<WindowView>, ws: usize) -> Seq<WindowId>
    decreases s.len(),
{
    if s.len() == 0 {
        Seq::empty()
    } else {
        let r = visible_ids(s.drop_last(), ws);
        if visible(s.last(), ws) {
            r.push(s.last().id)
        } else {
            r
        }
    }
}

/// The windows shown on workspace `ws`, bottom to top.
pub open spec fn shown_views(s: Seq<WindowView>, ws: usize) -> Seq<WindowView>
    decreases s.len(),
{
    if s.len() == 0 {
        Seq::empty()
    } else {
        let r = shown_views(s.drop_last(), ws);
        if visible(s.last(), ws) {
            r.push(s.last())
        } else {
            r
        }
    }
}

/// Whether some window with identifier `id` is shown on workspace `ws`.
pub open spec fn shown_with_id(s: Seq<WindowView>, ws: usize, id: WindowId) -> bool {
    exists|i: int| 0 <= i < s.len() && (#[trigger] s[i]).id == id && visible(s[i], ws)
}

/// The first index of `id` in `ids`, or 0 where it does not occur.
pub open spec fn index_or_zero(ids: Seq<WindowId>, id: WindowId) -> int {
    if exists|k: int| 0 <= k < ids.len() && ids[k] == id {
        choose|k: int|
            0 <= k < ids.len() && ids[k] == id && (forall|j: int| 0 <= j < k ==> ids[j] != id)
    } else {
        0
    }
}

/// The windows that lie on a workspace below `count`, in their order.
pub open spec fn below_workspace(s: Seq<WindowView>, count: usize) -> Seq<WindowView>
    decreases s.len(),
{
    if s.len() == 0 {
        Seq::empty()
    } else {
        let r = below_workspace(s.drop_last(), count);
        if s.last().workspace < count {
            r.push(s.last())
        } else {
            r
        }
    }
}

/// The topmost shown window whose area (with decoration) contains `p`.
pub open spec fn topmost_at(s: Seq<WindowView>, ws: usize, p: Point) -> Option<WindowId>
    decreases s.len(),
{
    if s.len() == 0 {
        None
    } else if visible(s.last(), ws) && rect_contains(s.last().outer_rect(), p) {
        Some(s.last().id)
    } else {
        topmost_at(s.drop_last(), ws, p)
    }
}

impl ManagerView {
    pub open spec fn well_formed(self) -> bool {
        &&& self.workspace_count > 0
        &&& self.current_workspace < self.workspace_count
        &&& ids_unique(self.windows)
        &&& forall|i: int|
            0 <= i < self.windows.len() ==> {
                &&& (#[trigger] self.windows[i]).well_formed()
                &&& self.windows[i].workspace < self.workspace_count
                &&& self.windows[i].id.0 < self.next_id
            }
        &&& self.focused matches Some(id) ==> has_id(self.windows, id)
    }

    pub open spec fn initial() -> ManagerView {
        ManagerView {
            windows: Seq::empty(),
            focused: None,
            next_id: 1,
            current_workspace: 0,
            workspace_count: DEFAULT_WORKSPACE_COUNT,
            decoration: DecorationColors::Builtin,
        }
    }

    /// The window `add_window` creates as `id`: on the current workspace,
    /// with the current decoration colours.
    pub open spec fn new_window(self, id: WindowId) -> WindowView {
        WindowView::initial(id, self.current_workspace).with_decoration(self.decoration)
    }

    /// The window `id`, where it exists.
    pub open spec fn window(self, id: WindowId) -> WindowView {
        self.windows[pos_of(self.windows, id)]
    }

    /// Whether `id` can receive focus: it exists, is not minimized and lies
    /// on the current workspace.
    pub open spec fn focusable(self, id: WindowId) -> bool {
        shown_with_id(self.windows, self.current_workspace, id)
    }

    /// Focusing `id` raises it to the top; an unfocusable `id` changes nothing.
    pub open spec fn with_focus(self, id: WindowId) -> ManagerView {
        if self.focusable(id) {
            ManagerView { windows: raised(self.windows, id), focused: Some(id), ..self }
        } else {
            self
        }
    }

    /// Every window no longer dragged.
    pub open spec fn without_dragging(self) -> ManagerView {
        ManagerView { windows: self.windows.map_values(|w: WindowView| w.with_dragging(false)), ..self }
    }

    /// The window `id` moved to the bottom of the stack, where it exists.
    pub open spec fn with_lowered(self, id: WindowId) -> ManagerView {
        if has_id(self.windows, id) {
            ManagerView { windows: lowered(self.windows, id), ..self }
        } else {
            self
        }
    }

    /// Stepping the focus back to [`ManagerView::prev_target`]: where a
    /// shown window other than the target has the focus, it goes to the
    /// bottom of the stack, and the target is focused (and raised). Walking
    /// back this way visits the shown windows in the reverse of the order
    /// `focus_next` visits them, and a step back is undone by a step forward.
    pub open spec fn with_prev_focus(self) -> ManagerView {
        match self.prev_target() {
            Some(t) => match self.focused {
                Some(f) => if f != t && self.focusable(f) {
                    self.with_lowered(f).with_focus(t)
                } else {
                    self.with_focus(t)
                },
                None => self.with_focus(t),
            },
            None => self,
        }
    }

    /// The window `focus_next` moves the focus to.
    pub open spec fn next_target(self) -> Option<WindowId> {
        let ids = visible_ids(self.windows, self.current_workspace);
        if ids.len() == 0 {
            None
        } else {
            match self.focused {
                None => Some(ids.last()),
                Some(id) => Some(ids[(index_or_zero(ids, id) + 1) % (ids.len() as int)]),
            }
        }
    }

    /// The window `focus_prev` moves the focus to.
    pub open spec fn prev_target(self) -> Option<WindowId> {
        let ids = visible_ids(self.windows, self.current_workspace);
        if ids.len() == 0 {
            None
        } else {
            match self.focused {
                None => Some(ids.last()),
                Some(id) => {
                    let k = index_or_zero(ids, id);
                    Some(ids[if k == 0 { ids.len() - 1 } else { k - 1 }])
                },
            }
        }
    }

    /// The focused window, where it lies on the current workspace.
    pub open spec fn focused_window(self) -> Option<WindowView> {
        match self.focused {
            Some(id) => if has_id(self.windows, id) && self.window(id).workspace
                == self.current_workspace {
                Some(self.window(id))
            } else {
                None
            },
            None => None,
        }
    }

    /// The window `id` replaced by `w`, where it exists.
    pub open spec fn with_window(self, id: WindowId, w: WindowView) -> ManagerView {
        if has_id(self.windows, id) {
            ManagerView {
                windows: self.windows.update(pos_of(self.windows, id), w),
                ..self
            }
        } else {
            self
        }
    }

    pub open spec fn with_workspace_count(self, count: usize) -> ManagerView {
        if count > 0 && count != self.workspace_count {
            let windows = below_workspace(self.windows, count);
            ManagerView {
                workspace_count: count,
                current_workspace: if self.current_workspace >= count {
                    (count - 1) as usize
                } else {
                    self.current_workspace
                },
                windows,
                focused: match self.focused {
                    Some(id) => if has_id(windows, id) {
                        Some(id)
                    } else {
                        None
                    },
                    None => None,
                },
                ..self
            }
        } else {
            self
        }
    }

    /// Switching to another existing workspace drops the focus.
    pub open spec fn with_current_workspace(self, ws: usize) -> ManagerView {
        if ws < self.workspace_count && ws != self.current_workspace {
            ManagerView { current_workspace: ws, focused: None, ..self }
        } else {
            self
        }
    }

    pub open spec fn next_workspace_index(self) -> usize {
        ((self.current_workspace + 1) % (self.workspace_count as int)) as usize
    }

    pub open spec fn prev_workspace_index(self) -> usize {
        if self.current_workspace == 0 {
            (self.workspace_count - 1) as usize
        } else {
            (self.current_workspace - 1) as usize
        }
    }

    pub open spec fn without_window(self, id: WindowId) -> ManagerView {
        if has_id(self.windows, id) {
            ManagerView {
                windows: self.windows.remove(pos_of(self.windows, id)),
                focused: if self.focused == Some(id) {
                    None
                } else {
                    self.focused
                },
                ..self
            }
        } else {
            self
        }
    }
}

/// Where `s[i].id == id` and the identifiers are unique, `i` is the position
/// of `id`.
pub proof fn lemma_pos_of(s: Seq<WindowView>, id: WindowId, i: int)
    requires
        ids_unique(s),
        0 <= i < s.len(),
        s[i].id == id,
    ensures
        has_id(s, id),
        pos_of(s, id) == i,
{
    assert(has_id(s, id));
    let p = pos_of(s, id);
    assert(s[p].id == id);
}

proof fn lemma_raised(s: Seq<WindowView>, id: WindowId)
    requires
        ids_unique(s),
        has_id(s, id),
    ensures
        raised(s, id).len() == s.len(),
        ids_unique(raised(s, id)),
        raised(s, id).last() == s[pos_of(s, id)],
        forall|k: int|
            #![trigger s[k]]
            0 <= k < s.len() ==> exists|j: int|
                #![trigger raised(s, id)[j]]
                0 <= j < s.len() && raised(s, id)[j] == s[k],
        forall|j: int|
            #![trigger raised(s, id)[j]]
            0 <= j < s.len() ==> exists|k: int|
                #![trigger s[k]]
                0 <= k < s.len() && raised(s, id)[j] == s[k],
{
    let p = pos_of(s, id);
    let r = raised(s, id);
    assert(0 <= p < s.len());
    assert forall|k: int| #![trigger s[k]] 0 <= k < s.len() implies exists|j: int|
        #![trigger r[j]] 0 <= j < s.len() && r[j] == s[k] by {
        if k < p {
            assert(r[k] == s[k]);
        } else if k == p {
            assert(r[s.len() - 1] == s[k]);
        } else {
            assert(r[k - 1] == s[k]);
        }
    }
    assert forall|j: int| #![trigger r[j]] 0 <= j < s.len() implies exists|k: int|
        #![trigger s[k]] 0 <= k < s.len() && r[j] == s[k] by {
        if j < p {
            assert(r[j] == s[j]);
        } else if j == s.len() - 1 {
            assert(r[j] == s[p]);
        } else {
            assert(r[j] == s[j + 1]);
        }
    }
    assert forall|a: int, b: int|
        #![trigger r[a], r[b]]
        0 <= a < r.len() && 0 <= b < r.len() && r[a].id == r[b].id implies a == b by {
        let ia = if a < p { a } else if a == s.len() - 1 { p } else { a + 1 };
        let ib = if b < p { b } else if b == s.len() - 1 { p } else { b + 1 };
        assert(r[a] == s[ia]);
        assert(r[b] == s[ib]);
    }
}

proof fn lemma_lowered(s: Seq<WindowView>, id: WindowId)
    requires
        ids_unique(s),
        has_id(s, id),
    ensures
        lowered(s, id).len() == s.len(),
        ids_unique(lowered(s, id)),
        lowered(s, id)[0] == s[pos_of(s, id)],
        forall|k: int|
            #![trigger s[k]]
            0 <= k < s.len() ==> exists|j: int|
                #![trigger lowered(s, id)[j]]
                0 <= j < s.len() && lowered(s, id)[j] == s[k],
        forall|j: int|
            #![trigger lowered(s, id)[j]]
            0 <= j < s.len() ==> exists|k: int|
                #![trigger s[k]]
                0 <= k < s.len() && lowered(s, id)[j] == s[k],
{
    let p = pos_of(s, id);
    let r = lowered(s, id);
    assert(0 <= p < s.len());
    assert forall|k: int| #![trigger s[k]] 0 <= k < s.len() implies exists|j: int|
        #![trigger r[j]] 0 <= j < s.len() && r[j] == s[k] by {
        if k < p {
            assert(r[k + 1] == s[k]);
        } else if k == p {
            assert(r[0] == s[k]);
        } else {
            assert(r[k] == s[k]);
        }
    }
    assert forall|j: int| #![trigger r[j]] 0 <= j < s.len() implies exists|k: int|
        #![trigger s[k]] 0 <= k < s.len() && r[j] == s[k] by {
        if j == 0 {
            assert(r[j] == s[p]);
        } else if j <= p {
            assert(r[j] == s[j - 1]);
        } else {
            assert(r[j] == s[j]);
        }
    }
    assert forall|a: int, b: int|
        #![trigger r[a], r[b]]
        0 <= a < r.len() && 0 <= b < r.len() && r[a].id == r[b].id implies a == b by {
        let ia = if a == 0 { p } else if a <= p { a - 1 } else { a };
        let ib = if b == 0 { p } else if b <= p { b - 1 } else { b };
        assert(r[a] == s[ia]);
        assert(r[b] == s[ib]);
    }
}

/// Moving a window to the bottom keeps the manager well-formed, keeps every
/// window shown that was shown, and changes the focus of nothing.
proof fn lemma_with_lowered(v: ManagerView, id: WindowId, t: WindowId)
    requires
        v.well_formed(),
        has_id(v.windows, id),
    ensures
        v.with_lowered(id).well_formed(),
        v.with_lowered(id).focused == v.focused,
        v.with_lowered(id).current_workspace == v.current_workspace,
        v.focusable(t) ==> v.with_lowered(id).focusable(t),
{
    lemma_lowered(v.windows, id);
    let r = lowered(v.windows, id);
    let w = v.with_lowered(id);
    assert forall|k: int| 0 <= k < r.len() implies {
        &&& (#[trigger] r[k]).well_formed()
        &&& r[k].workspace < v.workspace_count
        &&& r[k].id.0 < v.next_id
    } by {
        let j = choose|j: int| #![trigger v.windows[j]] 0 <= j < v.windows.len() && r[k] == v.windows[j];
    }
    if let Some(f) = v.focused {
        let i = choose|i: int| 0 <= i < v.windows.len() && (#[trigger] v.windows[i]).id == f;
        let j = choose|j: int| #![trigger r[j]] 0 <= j < r.len() && r[j] == v.windows[i];
        assert(r[j].id == f);
    }
    if v.focusable(t) {
        let i = choose|i: int|
            0 <= i < v.windows.len() && (#[trigger] v.windows[i]).id == t && visible(
                v.windows[i],
                v.current_workspace,
            );
        let j = choose|j: int| #![trigger r[j]] 0 <= j < r.len() && r[j] == v.windows[i];
        assert(r[j].id == t && visible(r[j], v.current_workspace));
    }
}

/// Stepping the focus back keeps the manager well-formed and focuses the
/// target, shown on the current workspace.
pub proof fn lemma_prev_focus(v: ManagerView)
    requires
        v.well_formed(),
    ensures
        v.with_prev_focus().well_formed(),
        v.prev_target() matches Some(t) ==> v.with_prev_focus().focused == Some(t)
            && focused_shown_id(v.with_prev_focus()) == Some(t),
        v.prev_target() is None ==> v.with_prev_focus() == v,
{
    lemma_next_target_focusable(v);
    if let Some(t) = v.prev_target() {
        match v.focused {
            Some(f) => if f != t && v.focusable(f) {
                let i = choose|i: int|
                    0 <= i < v.windows.len() && (#[trigger] v.windows[i]).id == f && visible(
                        v.windows[i],
                        v.current_workspace,
                    );
                lemma_with_lowered(v, f, t);
                lemma_focus_shows(v.with_lowered(f), t);
            } else {
                lemma_focus_shows(v, t);
            },
            None => {
                lemma_focus_shows(v, t);
            },
        }
    }
}

/// Whether no window is being dragged.
pub open spec fn none_dragging(s: Seq<WindowView>) -> bool {
    forall|i: int| 0 <= i < s.len() ==> !(#[trigger] s[i]).dragging
}

/// Ending every drag keeps the manager well-formed, leaves no window
/// dragged, and changes nothing else about the windows that decides focus.
pub proof fn lemma_without_dragging(v: ManagerView)
    requires
        v.well_formed(),
    ensures
        v.without_dragging().well_formed(),
        none_dragging(v.without_dragging().windows),
        v.without_dragging().current_workspace == v.current_workspace,
        v.without_dragging().workspace_count == v.workspace_count,
        v.without_dragging().focused == v.focused,
{
    let s = v.without_dragging().windows;
    assert forall|a: int, b: int|
        #![trigger s[a], s[b]]
        0 <= a < s.len() && 0 <= b < s.len() && s[a].id == s[b].id implies a == b by {
        assert(v.windows[a].id == s[a].id && v.windows[b].id == s[b].id);
    }
    assert forall|i: int| 0 <= i < s.len() implies {
        &&& (#[trigger] s[i]).well_formed()
        &&& s[i].workspace < v.workspace_count
        &&& s[i].id.0 < v.next_id
    } by {
        assert(s[i] == v.windows[i].with_dragging(false));
    }
    if let Some(f) = v.focused {
        let k = choose|k: int| 0 <= k < v.windows.len() && (#[trigger] v.windows[k]).id == f;
        assert(s[k].id == f);
    }
    assert forall|i: int| 0 <= i < s.len() implies !(#[trigger] s[i]).dragging by {
        assert(s[i] == v.windows[i].with_dragging(false));
    }
}

/// Focusing a window drags none that was not dragged.
pub proof fn lemma_focus_keeps_none_dragging(v: ManagerView, id: WindowId)
    requires
        v.well_formed(),
        none_dragging(v.windows),
    ensures
        none_dragging(v.with_focus(id).windows),
{
    if v.focusable(id) {
        let i = choose|i: int|
            0 <= i < v.windows.len() && (#[trigger] v.windows[i]).id == id && visible(
                v.windows[i],
                v.current_workspace,
            );
        lemma_pos_of(v.windows, id, i);
        lemma_raised(v.windows, id);
        let r = raised(v.windows, id);
        assert forall|j: int| 0 <= j < r.len() implies !(#[trigger] r[j]).dragging by {
            let k = choose|k: int| #![trigger v.windows[k]] 0 <= k < v.windows.len() && r[j] == v.windows[k];
        }
    }
}

/// Every identifier among the visible ones belongs to a shown window.
pub proof fn lemma_visible_ids_members(s: Seq<WindowView>, ws: usize)
    ensures
        forall|k: int|
            0 <= k < visible_ids(s, ws).len() ==> shown_with_id(
                s,
                ws,
                #[trigger] visible_ids(s, ws)[k],
            ),
    decreases s.len(),
{
    if s.len() > 0 {
        let t = s.drop_last();
        lemma_visible_ids_members(t, ws);
        assert forall|k: int| 0 <= k < visible_ids(s, ws).len() implies shown_with_id(
            s,
            ws,
            #[trigger] visible_ids(s, ws)[k],
        ) by {
            let ids = visible_ids(s, ws);
            let vt = visible_ids(t, ws);
            if k < vt.len() {
                assert(ids[k] == vt[k]);
                assert(shown_with_id(t, ws, vt[k]));
                let i = choose|i: int|
                    0 <= i < t.len() && (#[trigger] t[i]).id == vt[k] && visible(t[i], ws);
                assert(s[i] == t[i]);
            } else {
                assert(visible(s.last(), ws));
                assert(ids[k] == s.last().id);
                assert(s[s.len() - 1] == s.last());
            }
        }
    } else {
        assert(visible_ids(s, ws) =~= Seq::<WindowId>::empty());
    }
}

proof fn lemma_below_workspace(s: Seq<WindowView>, count: usize)
    ensures
        forall|k: int|
            #![trigger below_workspace(s, count)[k]]
            0 <= k < below_workspace(s, count).len() ==> exists|i: int|
                #![trigger s[i]]
                0 <= i < s.len() && below_workspace(s, count)[k] == s[i],
        forall|k: int|
            0 <= k < below_workspace(s, count).len() ==> (#[trigger] below_workspace(
                s,
                count,
            )[k]).workspace < count,
        ids_unique(s) ==> ids_unique(below_workspace(s, count)),
    decreases s.len(),
{
    if s.len() > 0 {
        let t = s.drop_last();
        lemma_below_workspace(t, count);
        let b = below_workspace(s, count);
        let bt = below_workspace(t, count);
        assert forall|k: int| #![trigger b[k]] 0 <= k < b.len() implies exists|i: int|
            #![trigger s[i]] 0 <= i < s.len() && b[k] == s[i] by {
            if k < bt.len() {
                let i = choose|i: int| #![trigger t[i]] 0 <= i < t.len() && bt[k] == t[i];
                assert(b[k] == s[i]);
            } else {
                assert(b[k] == s[s.len() - 1]);
            }
        }
        if ids_unique(s) {
            assert(ids_unique(t)) by {
                assert forall|a: int, c: int|
                    #![trigger t[a], t[c]]
                    0 <= a < t.len() && 0 <= c < t.len() && t[a].id == t[c].id implies a == c by {
                    assert(s[a] == t[a] && s[c] == t[c]);
                }
            }
            assert forall|a: int, c: int|
                #![trigger b[a], b[c]]
                0 <= a < b.len() && 0 <= c < b.len() && b[a].id == b[c].id implies a == c by {
                if a < bt.len() && c < bt.len() {
                    assert(b[a] == bt[a] && b[c] == bt[c]);
                } else if a < bt.len() {
                    let i = choose|i: int| #![trigger t[i]] 0 <= i < t.len() && bt[a] == t[i];
                    assert(b[a] == s[i]);
                    assert(b[c] == s[s.len() - 1]);
                } else if c < bt.len() {
                    let i = choose|i: int| #![trigger t[i]] 0 <= i < t.len() && bt[c] == t[i];
                    assert(b[c] == s[i]);
                    assert(b[a] == s[s.len() - 1]);
                }
            }
        }
    }
}

/// Replacing a window by a well-formed one with the same identifier on an
/// existing workspace keeps the manager well-formed.
pub proof fn lemma_with_window(v: ManagerView, id: WindowId, w: WindowView)
    requires
        v.well_formed(),
        has_id(v.windows, id),
        w.id == id,
        w.well_formed(),
        w.workspace < v.workspace_count,
    ensures
        v.with_window(id, w).well_formed(),
        v.with_window(id, w).windows.len() == v.windows.len(),
{
    let p = pos_of(v.windows, id);
    let s = v.with_window(id, w).windows;
    assert(v.windows[p].id == id);
    assert forall|a: int, b: int|
        #![trigger s[a], s[b]]
        0 <= a < s.len() && 0 <= b < s.len() && s[a].id == s[b].id implies a == b by {
        assert(s[a].id == v.windows[a].id);
        assert(s[b].id == v.windows[b].id);
    }
    assert forall|i: int| 0 <= i < s.len() implies {
        &&& (#[trigger] s[i]).well_formed()
        &&& s[i].workspace < v.workspace_count
        &&& s[i].id.0 < v.next_id
    } by {
        if i != p {
            assert(s[i] == v.windows[i]);
        }
    }
    if let Some(f) = v.focused {
        let k = choose|k: int| 0 <= k < v.windows.len() && (#[trigger] v.windows[k]).id == f;
        assert(s[k].id == f);
    }
}

/// The windows, their stacking order, the keyboard focus and the workspaces.
pub struct WindowManager {
    windows: Vec<Window>,
    focused: Option<WindowId>,
    next_id: u64,
    current_workspace: usize,
    workspace_count: usize,
    decoration: DecorationColors,
}

impl View for WindowManager {
    type V = ManagerView;

    closed spec fn view(&self) -> ManagerView {
        ManagerView {
            windows: self.windows@.map_values(|w: Window| w@),
            focused: self.focused,
            next_id: self.next_id,
            current_workspace: self.current_workspace,
            workspace_count: self.workspace_count,
            decoration: self.decoration,
        }
    }
}

impl WindowManager {
    /// No windows, no focus, four workspaces, the first one current.
    pub fn new() -> (r: WindowManager)
        ensures
            r@ == ManagerView::initial(),
            r@.well_formed(),
    {
        let r = WindowManager {
            windows: Vec::new(),
            focused: None,
            next_id: 1,
            current_workspace: 0,
            workspace_count: DEFAULT_WORKSPACE_COUNT,
            decoration: DecorationColors::Builtin,
        };
        assert(r@.windows =~= Seq::<WindowView>::empty());
        r
    }

    /// The window list, bottom to top.
    pub fn windows(&self) -> (r: &Vec<Window>)
        ensures
            r@.map_values(|w: Window| w@) == self@.windows,
    {
        &self.windows
    }

    /// The position of window `id`.
    fn position(&self, id: WindowId) -> (r: Option<usize>)
        requires
            self@.well_formed(),
        ensures
            r is Some <==> has_id(self@.windows, id),
            r matches Some(p) ==> p == pos_of(self@.windows, id) && p < self.windows@.len(),
    {
        let n = self.windows.len();
        let mut i: usize = 0;
        while i < n
            invariant
                n == self.windows@.len(),
                self@.well_formed(),
                i <= n,
                forall|j: int| 0 <= j < i ==> (#[trigger] self@.windows[j]).id != id,
            decreases n - i,
        {
            if self.windows[i].id() == id {
                proof {
                    lemma_pos_of(self@.windows, id, i as int);
                }
                return Some(i);
            }
            assert(self@.windows[i as int] == self.windows@[i as int]@);
            i += 1;
        }
        None
    }

    /// Marks every window as no longer dragged.
    pub fn stop_dragging(&mut self)
        requires
            old(self)@.well_formed(),
        ensures
            final(self)@ == old(self)@.without_dragging(),
            final(self)@.well_formed(),
    {
        let n = self.windows.len();
        let ghost old_windows = self@.windows;
        let mut i: usize = 0;
        while i < n
            invariant
                n == self.windows@.len(),
                n == old_windows.len(),
                i <= n,
                self.focused == old(self).focused,
                self.next_id == old(self).next_id,
                self.current_workspace == old(self).current_workspace,
                self.workspace_count == old(self).workspace_count,
                self.decoration == old(self).decoration,
                old_windows == old(self)@.windows,
                old(self)@.well_formed(),
                forall|j: int|
                    0 <= j < i ==> (#[trigger] self.windows@[j])@ == old_windows[j].with_dragging(false),
                forall|j: int| i <= j < n ==> (#[trigger] self.windows@[j])@ == old_windows[j],
            decreases n - i,
        {
            self.windows[i].set_dragging(false);
            i += 1;
        }
        assert(self@.windows =~= old_windows.map_values(|w: WindowView| w.with_dragging(false)));
        proof {
            lemma_without_dragging(old(self)@);
        }
    }

    /// The windows shown on the current workspace (the ones to draw),
    /// bottom to top.
    pub fn shown_windows(&self) -> (r: Vec<&Window>)
        ensures
            r@.map_values(|w: &Window| w@) == shown_views(self@.windows, self@.current_workspace),
    {
        let ghost s = self@.windows;
        let mut r: Vec<&Window> = Vec::new();
        let mut i: usize = 0;
        while i < self.windows.len()
            invariant
                s == self@.windows,
                s.len() == self.windows@.len(),
                i <= s.len(),
                r@.map_values(|w: &Window| w@) == shown_views(s.take(i as int), self.current_workspace),
            decreases s.len() - i,
        {
            proof {
                assert(s.take(i as int + 1).drop_last() =~= s.take(i as int));
                assert(s.take(i as int + 1).last() == s[i as int]);
                assert(s[i as int] == self.windows@[i as int]@);
            }
            let w = &self.windows[i];
            let ghost before = r@;
            if !w.is_minimized() && w.workspace() == self.current_workspace {
                r.push(w);
                proof {
                    assert(r@.map_values(|w: &Window| w@) =~= before.map_values(|w: &Window| w@).push(w@));
                }
            }
            i += 1;
        }
        proof {
            assert(s.take(s.len() as int) =~= s);
        }
        r
    }

    /// Gives every window, and those added from now on, the decoration
    /// colours `colors`.
    pub fn set_decoration_colors(&mut self, colors: DecorationColors)
        requires
            old(self)@.well_formed(),
        ensures
            final(self)@ == (ManagerView {
                windows: old(self)@.windows.map_values(|w: WindowView| w.with_decoration(colors)),
                decoration: colors,
                ..old(self)@
            }),
            final(self)@.well_formed(),
    {
        let n = self.windows.len();
        let ghost old_windows = self@.windows;
        let mut i: usize = 0;
        while i < n
            invariant
                n == self.windows@.len(),
                n == old_windows.len(),
                i <= n,
                self.focused == old(self).focused,
                self.next_id == old(self).next_id,
                self.current_workspace == old(self).current_workspace,
                self.workspace_count == old(self).workspace_count,
                old_windows == old(self)@.windows,
                old(self)@.well_formed(),
                forall|j: int|
                    0 <= j < i ==> (#[trigger] self.windows@[j])@ == old_windows[j].with_decoration(
                        colors,
                    ),
                forall|j: int| i <= j < n ==> (#[trigger] self.windows@[j])@ == old_windows[j],
            decreases n - i,
        {
            self.windows[i].set_decoration_colors(colors);
            i += 1;
        }
        self.decoration = colors;
        assert(self@.windows =~= old_windows.map_values(|w: WindowView| w.with_decoration(colors)));
        proof {
            let s = self@.windows;
            assert forall|a: int, b: int|
                #![trigger s[a], s[b]]
                0 <= a < s.len() && 0 <= b < s.len() && s[a].id == s[b].id implies a == b by {
                assert(old_windows[a].id == s[a].id && old_windows[b].id == s[b].id);
            }
            assert forall|i: int| 0 <= i < s.len() implies {
                &&& (#[trigger] s[i]).well_formed()
                &&& s[i].workspace < self@.workspace_count
                &&& s[i].id.0 < self@.next_id
            } by {
                assert(s[i] == old_windows[i].with_decoration(colors));
            }
            if let Some(f) = self.focused {
                let k = choose|k: int| 0 <= k < old_windows.len() && (#[trigger] old_windows[k]).id == f;
                assert(s[k].id == f);
            }
        }
    }

    pub fn current_workspace(&self) -> (r: usize)
        ensures
            r == self@.current_workspace,
    {
        self.current_workspace
    }

    pub fn workspace_count(&self) -> (r: usize)
        ensures
            r == self@.workspace_count,
    {
        self.workspace_count
    }

    /// The identifier the next added window receives.
    pub fn next_id(&self) -> (r: u64)
        ensures
            r == self@.next_id,
    {
        self.next_id
    }

    /// The focused window's identifier, whatever workspace it lies on.
    pub fn focused_id(&self) -> (r: Option<WindowId>)
        ensures
            r == self@.focused,
    {
        self.focused
    }

    /// Applies `f`'s change to window `p` and proves the manager keeps its shape.
    proof fn lemma_updated(
        old_v: ManagerView,
        new_v: ManagerView,
        p: int,
        id: WindowId,
        w: WindowView,
    )
        requires
            old_v.well_formed(),
            0 <= p < old_v.windows.len(),
            p == pos_of(old_v.windows, id),
            has_id(old_v.windows, id),
            new_v == old_v.with_window(id, w),
            w.id == id,
            w.well_formed(),
            w.workspace < old_v.workspace_count,
        ensures
            new_v.well_formed(),
    {
        lemma_with_window(old_v, id, w);
    }

    pub fn set_floating(&mut self, id: WindowId, floating: bool) -> (r: bool)
        requires
            old(self)@.well_formed(),
        ensures
            final(self)@.well_formed(),
            final(self)@ == old(self)@.with_window(id, old(self)@.window(id).with_floating(floating)),
            r == (has_id(old(self)@.windows, id) && old(self)@.window(id).with_floating(floating)
                != old(self)@.window(id)),
    {
        match self.position(id) {
            Some(p) => {
                proof {
                    assert(self@.windows[p as int] == self.windows@[p as int]@);
                }
                let r = self.windows[p].set_floating(floating);
                proof {
                    assert(self@.windows =~= old(self)@.windows.update(
                        p as int,
                        old(self)@.window(id).with_floating(floating),
                    ));
                    Self::lemma_updated(old(self)@, self@, p as int, id, self@.windows[p as int]);
                }
                r
            },
            None => false,
        }
    }

    pub fn set_forced_floating(&mut self, id: WindowId, forced: bool) -> (r: bool)
        requires
            old(self)@.well_formed(),
        ensures
            final(self)@.well_formed(),
            final(self)@ == old(self)@.with_window(
                id,
                old(self)@.window(id).with_forced_floating(forced),
            ),
            r == (has_id(old(self)@.windows, id) && old(self)@.window(id).forced_floating
                != forced),
    {
        match self.position(id) {
            Some(p) => {
                proof {
                    assert(self@.windows[p as int] == self.windows@[p as int]@);
                }
                let r = self.windows[p].set_forced_floating(forced);
                proof {
                    assert(self@.windows =~= old(self)@.windows.update(
                        p as int,
                        old(self)@.window(id).with_forced_floating(forced),
                    ));
                    Self::lemma_updated(old(self)@, self@, p as int, id, self@.windows[p as int]);
                }
                r
            },
            None => false,
        }
    }

    pub fn set_minimized(&mut self, id: WindowId, minimized: bool) -> (r: bool)
        requires
            old(self)@.well_formed(),
        ensures
            final(self)@.well_formed(),
            final(self)@ == old(self)@.with_window(id, old(self)@.window(id).with_minimized(minimized)),
            r == (has_id(old(self)@.windows, id) && old(self)@.window(id).minimized != minimized),
    {
        match self.position(id) {
            Some(p) => {
                proof {
                    assert(self@.windows[p as int] == self.windows@[p as int]@);
                }
                let r = self.windows[p].set_minimized(minimized);
                proof {
                    assert(self@.windows =~= old(self)@.windows.update(
                        p as int,
                        old(self)@.window(id).with_minimized(minimized),
                    ));
                    Self::lemma_updated(old(self)@, self@, p as int, id, self@.windows[p as int]);
                }
                r
            },
            None => false,
        }
    }

    pub fn set_maximized(&mut self, id: WindowId, maximized: bool, output_size: Size) -> (r: bool)
        requires
            old(self)@.well_formed(),
            output_size.h >= i32::MIN + DECORATION_HEIGHT,
        ensures
            final(self)@.well_formed(),
            final(self)@ == old(self)@.with_window(
                id,
                old(self)@.window(id).with_maximized(maximized, output_size),
            ),
            r == (has_id(old(self)@.windows, id) && old(self)@.window(id).maximized != maximized),
    {
        match self.position(id) {
            Some(p) => {
                proof {
                    assert(self@.windows[p as int] == self.windows@[p as int]@);
                }
                let r = self.windows[p].set_maximized(maximized, output_size);
                proof {
                    assert(self@.windows =~= old(self)@.windows.update(
                        p as int,
                        old(self)@.window(id).with_maximized(maximized, output_size),
                    ));
                    Self::lemma_updated(old(self)@, self@, p as int, id, self@.windows[p as int]);
                }
                r
            },
            None => false,
        }
    }

    /// Marks window `id` as being dragged, or not.
    pub fn set_dragging(&mut self, id: WindowId, dragging: bool)
        requires
            old(self)@.well_formed(),
        ensures
            final(self)@.well_formed(),
            final(self)@ == old(self)@.with_window(id, old(self)@.window(id).with_dragging(dragging)),
    {
        match self.position(id) {
            Some(p) => {
                proof {
                    assert(self@.windows[p as int] == self.windows@[p as int]@);
                }
                self.windows[p].set_dragging(dragging);
                proof {
                    assert(self@.windows =~= old(self)@.windows.update(
                        p as int,
                        old(self)@.window(id).with_dragging(dragging),
                    ));
                    Self::lemma_updated(old(self)@, self@, p as int, id, self@.windows[p as int]);
                }
            },
            None => {},
        }
    }

    /// Resizes window `id`; true where its size changed.
    pub fn set_window_size(&mut self, id: WindowId, size: Size) -> (r: bool)
        requires
            old(self)@.well_formed(),
        ensures
            final(self)@.well_formed(),
            final(self)@ == old(self)@.with_window(id, old(self)@.window(id).with_size(size)),
            r == (has_id(old(self)@.windows, id) && old(self)@.window(id).size != size),
    {
        match self.position(id) {
            Some(p) => {
                proof {
                    assert(self@.windows[p as int] == self.windows@[p as int]@);
                }
                let r = self.windows[p].set_size(size);
                proof {
                    assert(self@.windows =~= old(self)@.windows.update(
                        p as int,
                        old(self)@.window(id).with_size(size),
                    ));
                    Self::lemma_updated(old(self)@, self@, p as int, id, self@.windows[p as int]);
                }
                r
            },
            None => false,
        }
    }

    /// Moves window `id` to `location`.
    pub fn set_window_location(&mut self, id: WindowId, location: Point)
        requires
            old(self)@.well_formed(),
        ensures
            final(self)@.well_formed(),
            final(self)@ == old(self)@.with_window(id, old(self)@.window(id).with_location(location)),
    {
        match self.position(id) {
            Some(p) => {
                proof {
                    assert(self@.windows[p as int] == self.windows@[p as int]@);
                }
                self.windows[p].set_location(location);
                proof {
                    assert(self@.windows =~= old(self)@.windows.update(
                        p as int,
                        old(self)@.window(id).with_location(location),
                    ));
                    Self::lemma_updated(old(self)@, self@, p as int, id, self@.windows[p as int]);
                }
            },
            None => {},
        }
    }

    /// Moves window `id` to workspace `workspace`; false where that workspace
    /// does not exist, the window does not exist or already lies there.
    pub fn move_window_to_workspace(&mut self, id: WindowId, workspace: usize) -> (r: bool)
        requires
            old(self)@.well_formed(),
        ensures
            final(self)@.well_formed(),
            workspace >= old(self)@.workspace_count ==> final(self)@ == old(self)@ && !r,
            workspace < old(self)@.workspace_count ==> final(self)@ == old(self)@.with_window(
                id,
                old(self)@.window(id).with_workspace(workspace),
            ) && r == (has_id(old(self)@.windows, id) && old(self)@.window(id).workspace
                != workspace),
    {
        if workspace >= self.workspace_count {
            return false;
        }
        match self.position(id) {
            Some(p) => {
                proof {
                    assert(self@.windows[p as int] == self.windows@[p as int]@);
                }
                let r = self.windows[p].set_workspace(workspace);
                proof {
                    assert(self@.windows =~= old(self)@.windows.update(
                        p as int,
                        old(self)@.window(id).with_workspace(workspace),
                    ));
                    Self::lemma_updated(old(self)@, self@, p as int, id, self@.windows[p as int]);
                }
                r
            },
            None => false,
        }
    }

    /// The window `id`.
    pub fn window(&self, id: WindowId) -> (r: Option<&Window>)
        requires
            self@.well_formed(),
        ensures
            r is Some <==> has_id(self@.windows, id),
            r matches Some(w) ==> w@ == self@.window(id),
    {
        match self.position(id) {
            Some(p) => {
                proof {
                    assert(self@.windows[p as int] == self.windows@[p as int]@);
                }
                Some(&self.windows[p])
            },
            None => None,
        }
    }

    /// Moves window `id` to the bottom of the stack, where it exists.
    fn lower_window(&mut self, id: WindowId)
        requires
            old(self)@.well_formed(),
        ensures
            final(self)@ == old(self)@.with_lowered(id),
    {
        let p = match self.position(id) {
            Some(p) => p,
            None => {
                return;
            },
        };
        let w = self.windows.remove(p);
        self.windows.insert(0, w);
        proof {
            let ov = old(self)@;
            assert(self@.windows =~= lowered(ov.windows, id));
        }
    }

    /// Focuses window `id` and raises it to the top; false (and no change)
    /// where it does not exist, is minimized or lies on another workspace.
    pub fn focus_window(&mut self, id: WindowId) -> (r: bool)
        requires
            old(self)@.well_formed(),
        ensures
            final(self)@.well_formed(),
            r == old(self)@.focusable(id),
            final(self)@ == old(self)@.with_focus(id),
    {
        let p = match self.position(id) {
            Some(p) => p,
            None => {
                proof {
                    assert(!old(self)@.focusable(id));
                }
                return false;
            },
        };
        proof {
            assert(self@.windows[p as int] == self.windows@[p as int]@);
        }
        if self.windows[p].is_minimized() || self.windows[p].workspace() != self.current_workspace {
            proof {
                if old(self)@.focusable(id) {
                    let i = choose|i: int|
                        0 <= i < self@.windows.len() && (#[trigger] self@.windows[i]).id == id
                            && visible(self@.windows[i], self@.current_workspace);
                    assert(self@.windows[p as int].id == id);
                }
            }
            return false;
        }
        self.focused = Some(id);
        let w = self.windows.remove(p);
        self.windows.push(w);
        proof {
            let ov = old(self)@;
            assert(ov.focusable(id));
            lemma_raised(ov.windows, id);
            assert(self@.windows =~= raised(ov.windows, id));
            let s = self@.windows;
            assert forall|i: int| 0 <= i < s.len() implies {
                &&& (#[trigger] s[i]).well_formed()
                &&& s[i].workspace < ov.workspace_count
                &&& s[i].id.0 < ov.next_id
            } by {
                let k = choose|k: int| #![trigger ov.windows[k]] 0 <= k < ov.windows.len() && raised(ov.windows, id)[i] == ov.windows[k];
            }
            assert(s[s.len() - 1].id == id);
        }
        true
    }

    /// Adds a window on the current workspace, focuses it and returns its
    /// identifier.
    pub fn add_window(&mut self) -> (r: WindowId)
        requires
            old(self)@.well_formed(),
            old(self)@.next_id < u64::MAX,
        ensures
            final(self)@.well_formed(),
            r == WindowId(old(self)@.next_id),
            !has_id(old(self)@.windows, r),
            final(self)@ == (ManagerView {
                windows: old(self)@.windows.push(old(self)@.new_window(r)),
                focused: Some(r),
                next_id: (old(self)@.next_id + 1) as u64,
                ..old(self)@
            }),
    {
        let workspace = self.current_workspace;
        let id = WindowId(self.next_id);
        self.next_id += 1;
        let mut window = Window::new(id, workspace);
        window.set_decoration_colors(self.decoration);
        self.windows.push(window);
        let ghost mid = self@;
        proof {
            let ov = old(self)@;
            let s = mid.windows;
            assert(s =~= ov.windows.push(ov.new_window(id)));
            assert(!has_id(ov.windows, id)) by {
                if has_id(ov.windows, id) {
                    let k = choose|k: int| 0 <= k < ov.windows.len() && (#[trigger] ov.windows[k]).id == id;
                }
            }
            assert forall|a: int, b: int|
                #![trigger s[a], s[b]]
                0 <= a < s.len() && 0 <= b < s.len() && s[a].id == s[b].id implies a == b by {
                if a < ov.windows.len() {
                    assert(s[a] == ov.windows[a]);
                }
                if b < ov.windows.len() {
                    assert(s[b] == ov.windows[b]);
                }
            }
            assert forall|i: int| 0 <= i < s.len() implies {
                &&& (#[trigger] s[i]).well_formed()
                &&& s[i].workspace < mid.workspace_count
                &&& s[i].id.0 < mid.next_id
            } by {
                if i < ov.windows.len() {
                    assert(s[i] == ov.windows[i]);
                }
            }
            if let Some(f) = ov.focused {
                let k = choose|k: int| 0 <= k < ov.windows.len() && (#[trigger] ov.windows[k]).id == f;
                assert(s[k].id == f);
            }
            assert(mid.well_formed());
            let last = s.len() - 1;
            assert(s[last].id == id);
            lemma_pos_of(s, id, last);
            assert(visible(s[last], workspace));
            assert(mid.focusable(id));
            assert(raised(s, id) =~= s);
        }
        self.focus_window(id);
        id
    }

    /// The focused window, where it lies on the current workspace.
    pub fn focused_window(&self) -> (r: Option<&Window>)
        requires
            self@.well_formed(),
        ensures
            r is Some <==> self@.focused_window() is Some,
            r matches Some(w) ==> self@.focused_window() == Some(w@),
    {
        match self.focused {
            None => None,
            Some(id) => match self.position(id) {
                Some(p) => {
                    proof {
                        assert(self@.windows[p as int] == self.windows@[p as int]@);
                    }
                    if self.windows[p].workspace() == self.current_workspace {
                        Some(&self.windows[p])
                    } else {
                        None
                    }
                },
                None => None,
            },
        }
    }

    /// Identifiers of the windows shown on the current workspace.
    fn visible_window_ids(&self) -> (r: Vec<WindowId>)
        requires
            self@.well_formed(),
        ensures
            r@ == visible_ids(self@.windows, self@.current_workspace),
    {
        let mut ids: Vec<WindowId> = Vec::new();
        let n = self.windows.len();
        let ghost s = self@.windows;
        let mut i: usize = 0;
        while i < n
            invariant
                n == self.windows@.len(),
                s == self@.windows,
                i <= n,
                ids@ == visible_ids(s.take(i as int), self@.current_workspace),
            decreases n - i,
        {
            proof {
                assert(s.take(i as int + 1).drop_last() =~= s.take(i as int));
                assert(s.take(i as int + 1).last() == s[i as int]);
                assert(s[i as int] == self.windows@[i as int]@);
            }
            if !self.windows[i].is_minimized() && self.windows[i].workspace() == self.current_workspace {
                ids.push(self.windows[i].id());
            }
            i += 1;
        }
        proof {
            assert(s.take(n as int) =~= s);
        }
        ids
    }

    /// `index_or_zero(ids, id)`, computed.
    fn find_index(ids: &Vec<WindowId>, id: WindowId) -> (r: usize)
        ensures
            r == index_or_zero(ids@, id),
            ids@.len() > 0 ==> r < ids@.len(),
    {
        let mut k: usize = 0;
        while k < ids.len()
            invariant
                k <= ids@.len(),
                forall|j: int| 0 <= j < k ==> ids@[j] != id,
            decreases ids@.len() - k,
        {
            if ids[k] == id {
                proof {
                    let c = choose|c: int|
                        0 <= c < ids@.len() && ids@[c] == id && (forall|j: int|
                            0 <= j < c ==> ids@[j] != id);
                    assert(c == k) by {
                        if c < k {
                        } else if c > k {
                            assert(ids@[k as int] == id);
                        }
                    }
                }
                return k;
            }
            k += 1;
        }
        0
    }

    /// Focuses the next shown window after the focused one (the topmost
    /// where nothing is focused) and returns it.
    pub fn focus_next(&mut self) -> (r: Option<WindowId>)
        requires
            old(self)@.well_formed(),
        ensures
            final(self)@.well_formed(),
            r == old(self)@.next_target(),
            final(self)@ == match r {
                Some(id) => old(self)@.with_focus(id),
                None => old(self)@,
            },
            r matches Some(id) ==> old(self)@.focusable(id) && final(self)@.focused == Some(id),
    {
        let ids = self.visible_window_ids();
        if ids.len() == 0 {
            return None;
        }
        let next = match self.focused {
            None => ids[ids.len() - 1],
            Some(id) => {
                let idx = Self::find_index(&ids, id);
                ids[(idx + 1) % ids.len()]
            },
        };
        proof {
            lemma_visible_ids_members(self@.windows, self@.current_workspace);
            let vids = visible_ids(self@.windows, self@.current_workspace);
            assert(vids.len() == ids@.len());
            assert(old(self)@.next_target() == Some(next));
            assert(exists|k: int| 0 <= k < vids.len() && vids[k] == next);
            let k = choose|k: int| 0 <= k < vids.len() && vids[k] == next;
            assert(shown_with_id(self@.windows, self@.current_workspace, vids[k]));
        }
        self.focus_window(next);
        Some(next)
    }

    /// Steps the focus back to the shown window before the focused one (the
    /// topmost where nothing is focused) and returns it; the window that had
    /// the focus goes to the bottom of the stack (see
    /// [`ManagerView::with_prev_focus`]).
    pub fn focus_prev(&mut self) -> (r: Option<WindowId>)
        requires
            old(self)@.well_formed(),
        ensures
            final(self)@.well_formed(),
            r == old(self)@.prev_target(),
            final(self)@ == old(self)@.with_prev_focus(),
            r matches Some(id) ==> old(self)@.focusable(id) && final(self)@.focused == Some(id),
    {
        let ids = self.visible_window_ids();
        if ids.len() == 0 {
            return None;
        }
        let prev = match self.focused {
            None => ids[ids.len() - 1],
            Some(id) => {
                let idx = Self::find_index(&ids, id);
                let prev_idx = if idx == 0 {
                    ids.len() - 1
                } else {
                    idx - 1
                };
                ids[prev_idx]
            },
        };
        proof {
            lemma_visible_ids_members(self@.windows, self@.current_workspace);
            let vids = visible_ids(self@.windows, self@.current_workspace);
            assert(vids.len() == ids@.len());
            assert(old(self)@.prev_target() == Some(prev));
            assert(exists|k: int| 0 <= k < vids.len() && vids[k] == prev);
            let k = choose|k: int| 0 <= k < vids.len() && vids[k] == prev;
            assert(shown_with_id(self@.windows, self@.current_workspace, vids[k]));
            lemma_prev_focus(old(self)@);
        }
        match self.focused {
            Some(f) => {
                if f.0 != prev.0 && self.is_shown(f) {
                    proof {
                        lemma_with_lowered(old(self)@, f, prev);
                    }
                    self.lower_window(f);
                }
            },
            None => {},
        }
        self.focus_window(prev);
        Some(prev)
    }

    /// Whether window `id` exists, is not minimized and lies on the current
    /// workspace.
    fn is_shown(&self, id: WindowId) -> (r: bool)
        requires
            self@.well_formed(),
        ensures
            r == self@.focusable(id),
    {
        match self.position(id) {
            Some(p) => {
                proof {
                    assert(self@.windows[p as int] == self.windows@[p as int]@);
                    if self@.focusable(id) {
                        let i = choose|i: int|
                            0 <= i < self@.windows.len() && (#[trigger] self@.windows[i]).id == id
                                && visible(self@.windows[i], self@.current_workspace);
                        assert(self@.windows[p as int].id == id);
                    }
                }
                !self.windows[p].is_minimized() && self.windows[p].workspace() == self.current_workspace
            },
            None => false,
        }
    }

    /// Removes window `id` and returns it; the focus is dropped where it
    /// rested on that window.
    pub fn remove_window(&mut self, id: WindowId) -> (r: Option<Window>)
        requires
            old(self)@.well_formed(),
        ensures
            final(self)@.well_formed(),
            final(self)@ == old(self)@.without_window(id),
            r is Some <==> has_id(old(self)@.windows, id),
            r matches Some(w) ==> w@ == old(self)@.window(id),
            !has_id(final(self)@.windows, id),
    {
        let p = match self.position(id) {
            Some(p) => p,
            None => {
                return None;
            },
        };
        let removed = self.windows.remove(p);
        if self.focused == Some(id) {
            self.focused = None;
        }
        proof {
            let ov = old(self)@;
            let s = self@.windows;
            assert(s =~= ov.windows.remove(p as int));
            assert(ov.windows[p as int].id == id);
            assert forall|a: int, b: int|
                #![trigger s[a], s[b]]
                0 <= a < s.len() && 0 <= b < s.len() && s[a].id == s[b].id implies a == b by {
                let ia = if a < p { a } else { a + 1 };
                let ib = if b < p { b } else { b + 1 };
                assert(s[a] == ov.windows[ia]);
                assert(s[b] == ov.windows[ib]);
            }
            assert forall|i: int| 0 <= i < s.len() implies {
                &&& (#[trigger] s[i]).well_formed()
                &&& s[i].workspace < ov.workspace_count
                &&& s[i].id.0 < ov.next_id
            } by {
                let ii = if i < p { i } else { i + 1 };
                assert(s[i] == ov.windows[ii]);
            }
            if let Some(f) = self.focused {
                assert(f != id);
                let k = choose|k: int| 0 <= k < ov.windows.len() && (#[trigger] ov.windows[k]).id == f;
                assert(k != p);
                let kk = if k < p { k } else { k - 1 };
                assert(s[kk].id == f);
            }
            assert(!has_id(s, id)) by {
                if has_id(s, id) {
                    let k = choose|k: int| 0 <= k < s.len() && (#[trigger] s[k]).id == id;
                    let kk = if k < p { k } else { k + 1 };
                    assert(s[k] == ov.windows[kk]);
                }
            }
        }
        Some(removed)
    }

    /// Switches to workspace `workspace`; false where it does not exist or is
    /// already current. A switch drops the focus.
    pub fn set_current_workspace(&mut self, workspace: usize) -> (r: bool)
        requires
            old(self)@.well_formed(),
        ensures
            final(self)@.well_formed(),
            final(self)@ == old(self)@.with_current_workspace(workspace),
            r == (workspace < old(self)@.workspace_count && workspace != old(self)@.current_workspace),
    {
        if workspace >= self.workspace_count {
            return false;
        }
        if self.current_workspace != workspace {
            self.current_workspace = workspace;
            self.focused = None;
            return true;
        }
        false
    }

    /// Switches to the next workspace, wrapping after the last.
    pub fn next_workspace(&mut self) -> (r: bool)
        requires
            old(self)@.well_formed(),
        ensures
            final(self)@.well_formed(),
            final(self)@ == old(self)@.with_current_workspace(old(self)@.next_workspace_index()),
            r == (old(self)@.workspace_count > 1),
    {
        let next = (self.current_workspace + 1) % self.workspace_count;
        proof {
            let c = self.current_workspace as int;
            let n = self.workspace_count as int;
            if c + 1 < n {
                vstd::arithmetic::div_mod::lemma_small_mod((c + 1) as nat, n as nat);
            } else {
                vstd::arithmetic::div_mod::lemma_mod_self_0(n);
            }
        }
        self.set_current_workspace(next)
    }

    /// Switches to the previous workspace, wrapping before the first.
    pub fn prev_workspace(&mut self) -> (r: bool)
        requires
            old(self)@.well_formed(),
        ensures
            final(self)@.well_formed(),
            final(self)@ == old(self)@.with_current_workspace(old(self)@.prev_workspace_index()),
            r == (old(self)@.workspace_count > 1),
    {
        let prev = if self.current_workspace == 0 {
            self.workspace_count - 1
        } else {
            self.current_workspace - 1
        };
        self.set_current_workspace(prev)
    }

    /// Sets the number of workspaces. Windows on workspaces that no longer
    /// exist are dropped, the current workspace is clamped to the last one,
    /// and the focus is dropped where its window went. A count of zero, or
    /// the present count, changes nothing.
    pub fn set_workspace_count(&mut self, count: usize)
        requires
            old(self)@.well_formed(),
        ensures
            final(self)@.well_formed(),
            final(self)@ == old(self)@.with_workspace_count(count),
    {
        if count > 0 && count != self.workspace_count {
            self.workspace_count = count;
            if self.current_workspace >= count {
                self.current_workspace = count - 1;
            }
            let ghost s = old(self)@.windows;
            let mut kept: Vec<Window> = Vec::new();
            let n = self.windows.len();
            let mut i: usize = 0;
            while i < n
                invariant
                    n == self.windows@.len(),
                    s == self.windows@.map_values(|w: Window| w@),
                    i <= n,
                    kept@.map_values(|w: Window| w@) == below_workspace(s.take(i as int), count),
                decreases n - i,
            {
                proof {
                    assert(s.take(i as int + 1).drop_last() =~= s.take(i as int));
                    assert(s.take(i as int + 1).last() == s[i as int]);
                    assert(s[i as int] == self.windows@[i as int]@);
                }
                let w = self.windows[i];
                if w.workspace() < count {
                    kept.push(w);
                    proof {
                        assert(kept@.map_values(|w: Window| w@) =~= below_workspace(
                            s.take(i as int + 1),
                            count,
                        ));
                    }
                }
                i += 1;
            }
            proof {
                assert(s.take(n as int) =~= s);
            }
            self.windows = kept;
            proof {
                lemma_below_workspace(s, count);
            }
            if let Some(focused) = self.focused {
                let mut still_valid = false;
                let m = self.windows.len();
                let mut j: usize = 0;
                while j < m
                    invariant
                        m == self.windows@.len(),
                        j <= m,
                        still_valid ==> has_id(self@.windows, focused),
                        !still_valid ==> forall|k: int|
                            0 <= k < j ==> (#[trigger] self@.windows[k]).id != focused,
                    decreases m - j,
                {
                    proof {
                        assert(self@.windows[j as int] == self.windows@[j as int]@);
                    }
                    if self.windows[j].id() == focused {
                        still_valid = true;
                    }
                    j += 1;
                }
                if !still_valid {
                    self.focused = None;
                }
            }
            proof {
                let ov = old(self)@;
                let b = self@.windows;
                assert forall|i: int| 0 <= i < b.len() implies {
                    &&& (#[trigger] b[i]).well_formed()
                    &&& b[i].workspace < count
                    &&& b[i].id.0 < ov.next_id
                } by {
                    let k = choose|k: int| #![trigger s[k]] 0 <= k < s.len() && below_workspace(s, count)[i] == s[k];
                }
                assert(self@ == ov.with_workspace_count(count));
            }
        }
    }

    /// The topmost shown window whose area, decoration included, contains
    /// `point`.
    pub fn window_at(&self, point: Point) -> (r: Option<WindowId>)
        requires
            self@.well_formed(),
            forall|i: int|
                0 <= i < self@.windows.len() && visible(
                    #[trigger] self@.windows[i],
                    self@.current_workspace,
                ) ==> self@.windows[i].outer_fits(),
        ensures
            r == topmost_at(self@.windows, self@.current_workspace, point),
    {
        let ghost s = self@.windows;
        let ghost ws = self@.current_workspace;
        let mut i: usize = self.windows.len();
        proof {
            assert(s.take(i as int) =~= s);
        }
        while i > 0
            invariant
                i <= self.windows@.len(),
                s == self@.windows,
                ws == self@.current_workspace,
                forall|k: int|
                    0 <= k < s.len() && visible(#[trigger] s[k], ws) ==> s[k].outer_fits(),
                topmost_at(s, ws, point) == topmost_at(s.take(i as int), ws, point),
            decreases i,
        {
            let w = &self.windows[i - 1];
            proof {
                let t = s.take(i as int);
                assert(t.drop_last() =~= s.take(i as int - 1));
                assert(t.last() == s[i as int - 1]);
                assert(s[i as int - 1] == self.windows@[i as int - 1]@);
            }
            if !w.is_minimized() && w.workspace() == self.current_workspace && w.outer_rect().contains(point) {
                return Some(w.id());
            }
            i -= 1;
        }
        None
    }

    /// Steps the focused window's opacity (where a window on the current
    /// workspace has the focus); true where one did.
    pub fn cycle_focused_opacity(&mut self) -> (r: bool)
        requires
            old(self)@.well_formed(),
        ensures
            final(self)@.well_formed(),
            r == old(self)@.focused_window() is Some,
            r ==> final(self)@ == old(self)@.with_window(
                old(self)@.focused->0,
                old(self)@.window(old(self)@.focused->0).with_next_opacity(),
            ),
            !r ==> final(self)@ == old(self)@,
    {
        let id = match self.focused {
            Some(id) => id,
            None => {
                return false;
            },
        };
        match self.position(id) {
            Some(p) => {
                proof {
                    assert(self@.windows[p as int] == self.windows@[p as int]@);
                }
                if self.windows[p].workspace() != self.current_workspace {
                    return false;
                }
                self.windows[p].cycle_opacity();
                proof {
                    assert(self@.windows =~= old(self)@.windows.update(
                        p as int,
                        old(self)@.window(id).with_next_opacity(),
                    ));
                    Self::lemma_updated(old(self)@, self@, p as int, id, self@.windows[p as int]);
                }
                true
            },
            None => false,
        }
    }

    /// Number of windows tiled on the current workspace.
    pub fn tiled_count(&self) -> (r: usize)
        requires
            self@.well_formed(),
        ensures
            r == tiled_indices(self@.windows, self@.current_workspace).len(),
    {
        let ghost s = self@.windows;
        let ghost ws = self@.current_workspace;
        let n = self.windows.len();
        let mut count: usize = 0;
        let mut i: usize = 0;
        while i < n
            invariant
                n == self.windows@.len(),
                s == self@.windows,
                ws == self@.current_workspace,
                i <= n,
                count == tiled_indices(s.take(i as int), ws).len(),
                count <= i,
            decreases n - i,
        {
            proof {
                assert(s.take(i as int + 1).drop_last() =~= s.take(i as int));
                assert(s.take(i as int + 1).last() == s[i as int]);
                assert(s[i as int] == self.windows@[i as int]@);
            }
            let w = &self.windows[i];
            if !w.is_dragging() && !w.is_floating() && !w.is_minimized() && w.workspace()
                == self.current_workspace {
                count += 1;
            }
            i += 1;
        }
        proof {
            assert(s.take(n as int) =~= s);
        }
        count
    }

    /// Whether arranging the current workspace with `layout` on `output`
    /// stays within `i32` arithmetic.
    pub fn layout_fits(&self, layout: &LayoutEngine, output: Size) -> (r: bool)
        requires
            self@.well_formed(),
        ensures
            r == layout.fits_for(tiled_indices(self@.windows, self@.current_workspace).len(), output),
    {
        let count = self.tiled_count();
        layout.fits(count, output)
    }

    /// Arranges the windows tiled on the current workspace with `layout` and
    /// returns the identifiers of those whose geometry changed.
    pub fn arrange(&mut self, layout: &LayoutEngine, output: Size) -> (r: Vec<WindowId>)
        requires
            old(self)@.well_formed(),
            layout.fits_for(
                tiled_indices(old(self)@.windows, old(self)@.current_workspace).len(),
                output,
            ),
        ensures
            final(self)@.well_formed(),
            final(self)@ == (ManagerView {
                windows: layout.arranged(old(self)@.windows, old(self)@.current_workspace, output),
                ..old(self)@
            }),
            r@ == layout.changed(old(self)@.windows, old(self)@.current_workspace, output),
    {
        proof {
            let s = self@.windows;
            assert forall|i: int| 0 <= i < self.windows@.len() implies (
            #[trigger] self.windows@[i])@.well_formed() by {
                assert(s[i] == self.windows@[i]@);
            }
        }
        let ws = self.current_workspace;
        let r = layout.apply(output, &mut self.windows, ws);
        proof {
            let ov = old(self)@;
            let s = ov.windows;
            let t = tiled_indices(s, ws);
            let a = self@.windows;
            assert(a == layout.arranged(s, ws, output));
            assert forall|i: int| 0 <= i < a.len() implies a[i].id == s[i].id && a[i].workspace
                == s[i].workspace && a[i].well_formed() by {
                assert(a[i] == arranged_upto(s, t, layout.layout(t.len(), output), t.len() as int)[i]);
            }
            assert forall|x: int, y: int|
                #![trigger a[x], a[y]]
                0 <= x < a.len() && 0 <= y < a.len() && a[x].id == a[y].id implies x == y by {
                assert(a[x].id == s[x].id && a[y].id == s[y].id);
            }
            assert forall|i: int| 0 <= i < a.len() implies {
                &&& (#[trigger] a[i]).well_formed()
                &&& a[i].workspace < ov.workspace_count
                &&& a[i].id.0 < ov.next_id
            } by {
                assert(a[i].id == s[i].id && a[i].workspace == s[i].workspace);
            }
            if let Some(f) = ov.focused {
                let k = choose|k: int| 0 <= k < s.len() && (#[trigger] s[k]).id == f;
                assert(a[k].id == f);
            }
        }
        r
    }
}


/// Switching to the next workspace and then to the previous one comes back to
/// the workspace one started from, and the other way round.
pub proof fn lemma_workspace_round_trip(v: ManagerView)
    requires
        v.well_formed(),
    ensures
        ({
            let n = v.with_current_workspace(v.next_workspace_index());
            n.with_current_workspace(n.prev_workspace_index()).current_workspace
                == v.current_workspace
        }),
        ({
            let p = v.with_current_workspace(v.prev_workspace_index());
            p.with_current_workspace(p.next_workspace_index()).current_workspace
                == v.current_workspace
        }),
{
    let c = v.current_workspace as int;
    let cnt = v.workspace_count as int;
    if c + 1 < cnt {
        vstd::arithmetic::div_mod::lemma_small_mod((c + 1) as nat, cnt as nat);
    } else {
        vstd::arithmetic::div_mod::lemma_mod_self_0(cnt);
    }
    let p = v.prev_workspace_index() as int;
    if p + 1 < cnt {
        vstd::arithmetic::div_mod::lemma_small_mod((p + 1) as nat, cnt as nat);
    } else {
        vstd::arithmetic::div_mod::lemma_mod_self_0(cnt);
    }
}

/// Focusing a focusable window puts it on top of the stack and keeps the
/// same windows: each one before is found after, and each one after was
/// there before.
pub proof fn lemma_focus_raises(v: ManagerView, id: WindowId)
    requires
        v.well_formed(),
        v.focusable(id),
    ensures
        v.with_focus(id).focused == Some(id),
        v.with_focus(id).windows.len() == v.windows.len(),
        v.with_focus(id).windows.last().id == id,
        forall|k: int|
            #![trigger v.windows[k]]
            0 <= k < v.windows.len() ==> exists|j: int|
                #![trigger v.with_focus(id).windows[j]]
                0 <= j < v.windows.len() && v.with_focus(id).windows[j] == v.windows[k],
        forall|j: int|
            #![trigger v.with_focus(id).windows[j]]
            0 <= j < v.windows.len() ==> exists|k: int|
                #![trigger v.windows[k]]
                0 <= k < v.windows.len() && v.with_focus(id).windows[j] == v.windows[k],
{
    let i = choose|i: int|
        0 <= i < v.windows.len() && (#[trigger] v.windows[i]).id == id && visible(
            v.windows[i],
            v.current_workspace,
        );
    lemma_pos_of(v.windows, id, i);
    lemma_raised(v.windows, id);
}

/// After a switch to another workspace no window has the focus.
pub proof fn lemma_switch_drops_focus(v: ManagerView, ws: usize)
    requires
        v.well_formed(),
        ws < v.workspace_count,
        ws != v.current_workspace,
    ensures
        v.with_current_workspace(ws).focused is None,
        v.with_current_workspace(ws).focused_window() is None,
        v.with_current_workspace(ws).current_workspace == ws,
{
}

/// The identifier of the focused window, where it lies on the current
/// workspace.
pub open spec fn focused_shown_id(v: ManagerView) -> Option<WindowId> {
    match v.focused_window() {
        Some(w) => Some(w.id),
        None => None,
    }
}

/// After focusing a focusable window, it is the focused window on the
/// current workspace, and the manager stays well-formed.
pub proof fn lemma_focus_shows(v: ManagerView, id: WindowId)
    requires
        v.well_formed(),
        v.focusable(id),
    ensures
        v.with_focus(id).well_formed(),
        focused_shown_id(v.with_focus(id)) == Some(id),
        v.with_focus(id).focused_window() == Some(v.window(id)),
{
    let i = choose|i: int|
        0 <= i < v.windows.len() && (#[trigger] v.windows[i]).id == id && visible(
            v.windows[i],
            v.current_workspace,
        );
    lemma_pos_of(v.windows, id, i);
    lemma_raised(v.windows, id);
    let r = raised(v.windows, id);
    let last = r.len() - 1;
    assert(r[last] == v.windows[i]);
    lemma_pos_of(r, id, last);
    let w = v.with_focus(id);
    assert forall|k: int| 0 <= k < r.len() implies {
        &&& (#[trigger] r[k]).well_formed()
        &&& r[k].workspace < v.workspace_count
        &&& r[k].id.0 < v.next_id
    } by {
        let j = choose|j: int| #![trigger v.windows[j]] 0 <= j < v.windows.len() && r[k] == v.windows[j];
    }
    assert(has_id(r, id));
}

/// The window `focus_next` moves to can take the focus.
pub proof fn lemma_next_target_focusable(v: ManagerView)
    requires
        v.well_formed(),
    ensures
        v.next_target() matches Some(id) ==> v.focusable(id),
        v.prev_target() matches Some(id) ==> v.focusable(id),
{
    lemma_visible_ids_members(v.windows, v.current_workspace);
    let ids = visible_ids(v.windows, v.current_workspace);
    if ids.len() > 0 {
        match v.focused {
            None => {
                assert(shown_with_id(v.windows, v.current_workspace, ids[ids.len() - 1]));
            },
            Some(f) => {
                let k = index_or_zero(ids, f);
                assert(0 <= k < ids.len()) by {
                    if exists|j: int| 0 <= j < ids.len() && ids[j] == f {
                        let j = choose|j: int| 0 <= j < ids.len() && ids[j] == f;
                        assert(ids[j] == f && 0 <= j < ids.len());
                        lemma_first_index_exists(ids, f, j);
                    }
                }
                let n = (k + 1) % (ids.len() as int);
                vstd::arithmetic::div_mod::lemma_mod_bound(k + 1, ids.len() as int);
                assert(shown_with_id(v.windows, v.current_workspace, ids[n]));
                let pk = if k == 0 { ids.len() - 1 } else { k - 1 };
                assert(shown_with_id(v.windows, v.current_workspace, ids[pk]));
            },
        }
    }
}

/// Whether no identifier occurs twice.
pub open spec fn distinct_ids(ids: Seq<WindowId>) -> bool {
    forall|i: int, j: int| 0 <= i < j < ids.len() ==> ids[i] != ids[j]
}

proof fn lemma_visible_ids_concat(a: Seq<WindowView>, b: Seq<WindowView>, ws: usize)
    ensures
        visible_ids(a + b, ws) == visible_ids(a, ws) + visible_ids(b, ws),
    decreases b.len(),
{
    if b.len() == 0 {
        assert(a + b =~= a);
        assert(visible_ids(a, ws) + visible_ids(b, ws) =~= visible_ids(a, ws));
    } else {
        lemma_visible_ids_concat(a, b.drop_last(), ws);
        assert((a + b).drop_last() =~= a + b.drop_last());
        assert((a + b).last() == b.last());
        if visible(b.last(), ws) {
            assert(visible_ids(a, ws) + visible_ids(b, ws) =~= (visible_ids(a, ws) + visible_ids(
                b.drop_last(),
                ws,
            )).push(b.last().id));
        } else {
            assert(visible_ids(a, ws) + visible_ids(b, ws) =~= visible_ids(a, ws) + visible_ids(
                b.drop_last(),
                ws,
            ));
        }
    }
}

proof fn lemma_visible_ids_single(w: WindowView, ws: usize)
    ensures
        visible_ids(seq![w], ws) == (if visible(w, ws) {
            seq![w.id]
        } else {
            Seq::<WindowId>::empty()
        }),
{
    assert(seq![w].drop_last() =~= Seq::<WindowView>::empty());
    assert(seq![w].last() == w);
    assert(visible_ids(Seq::<WindowView>::empty(), ws) =~= Seq::<WindowId>::empty());
    if visible(w, ws) {
        assert(Seq::<WindowId>::empty().push(w.id) =~= seq![w.id]);
    }
}

/// The shown identifiers of windows with unique identifiers are distinct.
proof fn lemma_visible_ids_distinct(s: Seq<WindowView>, ws: usize)
    requires
        ids_unique(s),
    ensures
        distinct_ids(visible_ids(s, ws)),
    decreases s.len(),
{
    if s.len() > 0 {
        let t = s.drop_last();
        assert(ids_unique(t)) by {
            assert forall|a: int, c: int|
                #![trigger t[a], t[c]]
                0 <= a < t.len() && 0 <= c < t.len() && t[a].id == t[c].id implies a == c by {
                assert(s[a] == t[a] && s[c] == t[c]);
            }
        }
        lemma_visible_ids_distinct(t, ws);
        lemma_visible_ids_members(t, ws);
        let vt = visible_ids(t, ws);
        if visible(s.last(), ws) {
            assert forall|k: int| 0 <= k < vt.len() implies vt[k] != s.last().id by {
                assert(shown_with_id(t, ws, vt[k]));
                let i = choose|i: int| 0 <= i < t.len() && (#[trigger] t[i]).id == vt[k] && visible(t[i], ws);
                assert(s[i] == t[i]);
                assert(s[s.len() - 1] == s.last());
            }
        }
    }
}

/// In a sequence of distinct identifiers, the index of `ids[j]` is `j`.
proof fn lemma_index_of_distinct(ids: Seq<WindowId>, j: int)
    requires
        distinct_ids(ids),
        0 <= j < ids.len(),
    ensures
        index_or_zero(ids, ids[j]) == j,
{
    lemma_first_index_exists(ids, ids[j], j);
    let k0 = choose|k: int|
        0 <= k < ids.len() && ids[k] == ids[j] && (forall|i: int| 0 <= i < k ==> ids[i] != ids[j]);
    assert(0 <= k0 < ids.len() && ids[k0] == ids[j]);
    let k = index_or_zero(ids, ids[j]);
    if k < j {
        assert(ids[k] != ids[j]);
    } else if k > j {
        assert(ids[j] != ids[k]);
    }
}

/// The shown identifiers around the window `id`: those below it, then it,
/// then those above it; raising or lowering it moves only it.
proof fn lemma_move_visible(s: Seq<WindowView>, ws: usize, id: WindowId)
    requires
        ids_unique(s),
        has_id(s, id),
        visible(s[pos_of(s, id)], ws),
    ensures
        ({
            let p = pos_of(s, id);
            let a = visible_ids(s.take(p), ws);
            let b = visible_ids(s.skip(p + 1), ws);
            &&& visible_ids(s, ws) == a.push(id) + b
            &&& visible_ids(raised(s, id), ws) == (a + b).push(id)
            &&& visible_ids(lowered(s, id), ws) == seq![id] + (a + b)
        }),
{
    let p = pos_of(s, id);
    let w = s[p];
    let (x, y) = (s.take(p), s.skip(p + 1));
    assert(s =~= x + seq![w] + y);
    assert(s.remove(p) =~= x + y);
    assert(raised(s, id) =~= (x + y) + seq![w]);
    assert(lowered(s, id) =~= seq![w] + (x + y));
    lemma_visible_ids_single(w, ws);
    lemma_visible_ids_concat(x, seq![w], ws);
    lemma_visible_ids_concat(x + seq![w], y, ws);
    lemma_visible_ids_concat(x, y, ws);
    lemma_visible_ids_concat(x + y, seq![w], ws);
    lemma_visible_ids_concat(seq![w], x + y, ws);
    let (a, b) = (visible_ids(x, ws), visible_ids(y, ws));
    assert(a + seq![id] =~= a.push(id));
    assert((a + b) + seq![id] =~= (a + b).push(id));
}


/// The identifiers of the shown windows of the current workspace, bottom to
/// top.
pub open spec fn shown_ids(v: ManagerView) -> Seq<WindowId> {
    visible_ids(v.windows, v.current_workspace)
}

/// One step forward from the topmost shown window (where it has the focus):
/// the focus goes to the bottom-most shown window, which is raised, so the
/// shown windows turn by one.
pub proof fn lemma_step_forward(v: ManagerView)
    requires
        v.well_formed(),
        shown_ids(v).len() >= 1,
        v.focused == Some(shown_ids(v).last()),
    ensures
        v.next_target() == Some(shown_ids(v)[0]),
        v.with_focus(shown_ids(v)[0]).well_formed(),
        v.with_focus(shown_ids(v)[0]).focused == Some(shown_ids(v)[0]),
        v.with_focus(shown_ids(v)[0]).current_workspace == v.current_workspace,
        shown_ids(v.with_focus(shown_ids(v)[0])) == shown_ids(v).drop_first().push(shown_ids(v)[0]),
{
    let ws = v.current_workspace;
    let s = v.windows;
    let ids = shown_ids(v);
    let k = ids.len() as int;
    lemma_visible_ids_distinct(s, ws);
    lemma_index_of_distinct(ids, k - 1);
    vstd::arithmetic::div_mod::lemma_mod_self_0(k);
    assert(ids[k - 1] == ids.last());
    assert(v.next_target() == Some(ids[0]));
    let t = ids[0];
    lemma_next_target_focusable(v);
    lemma_focus_shows(v, t);
    let i = choose|i: int| 0 <= i < s.len() && (#[trigger] s[i]).id == t && visible(s[i], ws);
    lemma_pos_of(s, t, i);
    lemma_move_visible(s, ws, t);
    let p = pos_of(s, t);
    let a = visible_ids(s.take(p), ws);
    let b = visible_ids(s.skip(p + 1), ws);
    assert(ids[a.len() as int] == t);
    if a.len() > 0 {
        assert(ids[0] != ids[a.len() as int]);
    }
    assert(a.len() == 0);
    assert(ids.drop_first() =~= b);
    assert((a + b).push(t) =~= b.push(t));
}

/// One step back from the topmost shown window (where it has the focus and
/// at least two windows are shown): the focus goes to the shown window just
/// below it, and the window that had the focus goes to the bottom, so the
/// shown windows turn by one the other way.
pub proof fn lemma_step_back(v: ManagerView)
    requires
        v.well_formed(),
        shown_ids(v).len() >= 2,
        v.focused == Some(shown_ids(v).last()),
    ensures
        v.prev_target() == Some(shown_ids(v)[shown_ids(v).len() - 2]),
        v.with_prev_focus().well_formed(),
        v.with_prev_focus().focused == Some(shown_ids(v)[shown_ids(v).len() - 2]),
        v.with_prev_focus().current_workspace == v.current_workspace,
        shown_ids(v.with_prev_focus()) == seq![shown_ids(v).last()] + shown_ids(v).drop_last(),
{
    let ws = v.current_workspace;
    let s = v.windows;
    let ids = shown_ids(v);
    let k = ids.len() as int;
    let f = ids.last();
    lemma_visible_ids_distinct(s, ws);
    lemma_index_of_distinct(ids, k - 1);
    assert(ids[k - 1] == f);
    let t = ids[k - 2];
    assert(v.prev_target() == Some(t));
    assert(t != f);
    lemma_visible_ids_members(s, ws);
    assert(shown_with_id(s, ws, ids[k - 1]));
    assert(v.focusable(f));
    lemma_next_target_focusable(v);
    let i = choose|i: int| 0 <= i < s.len() && (#[trigger] s[i]).id == f && visible(s[i], ws);
    lemma_pos_of(s, f, i);
    lemma_move_visible(s, ws, f);
    let p = pos_of(s, f);
    let a = visible_ids(s.take(p), ws);
    let b = visible_ids(s.skip(p + 1), ws);
    assert(ids[a.len() as int] == f);
    if b.len() > 0 {
        assert(ids[a.len() as int] != ids[k - 1]);
    }
    assert(b.len() == 0);
    assert(a =~= ids.drop_last());
    assert(seq![f] + (a + b) =~= seq![f] + ids.drop_last());
    lemma_with_lowered(v, f, t);
    let v1 = v.with_lowered(f);
    assert(v.with_prev_focus() == v1.with_focus(t));
    lemma_focus_shows(v1, t);
    let s1 = v1.windows;
    let ids1 = shown_ids(v1);
    assert(ids1 == seq![f] + ids.drop_last());
    lemma_visible_ids_distinct(s1, ws);
    let j = choose|j: int| 0 <= j < s1.len() && (#[trigger] s1[j]).id == t && visible(s1[j], ws);
    lemma_pos_of(s1, t, j);
    lemma_move_visible(s1, ws, t);
    let p1 = pos_of(s1, t);
    let a1 = visible_ids(s1.take(p1), ws);
    let b1 = visible_ids(s1.skip(p1 + 1), ws);
    assert(ids1[k - 1] == t);
    assert(ids1[a1.len() as int] == t);
    if b1.len() > 0 {
        assert(ids1[a1.len() as int] != ids1[k - 1]);
    }
    assert(b1.len() == 0);
    assert((a1 + b1).push(t) =~= ids1);
}

proof fn lemma_turn_back(ids: Seq<WindowId>)
    requires
        ids.len() >= 2,
    ensures
        ids.drop_first().push(ids.first()).last() == ids.first(),
        ids.drop_first().push(ids.first())[ids.len() - 2] == ids.last(),
        ids.drop_first().push(ids.first()).drop_last().insert(0, ids.first()) == ids,
{
    let i1 = ids.drop_first().push(ids.first());
    assert(i1.drop_last() =~= ids.drop_first());
    assert(i1.drop_last().insert(0, ids.first()) =~= ids);
}

proof fn lemma_back_after_forward(v1: ManagerView, ids: Seq<WindowId>)
    requires
        v1.well_formed(),
        ids.len() >= 2,
        shown_ids(v1) == ids.drop_first().push(ids[0]),
        v1.focused == Some(ids[0]),
    ensures
        v1.prev_target() == Some(ids.last()),
        v1.with_prev_focus().focused == Some(ids.last()),
        shown_ids(v1.with_prev_focus()) == ids,
{
    lemma_turn_back(ids);
    let i1 = shown_ids(v1);
    assert(seq![i1.last()] + i1.drop_last() =~= i1.drop_last().insert(0, ids.first()));
    lemma_step_back(v1);
}

/// Focus Prev undoes Focus Next: from the topmost shown window, with at least
/// two shown, a step forward and a step back give the focus back to it and
/// leave the shown windows in their order.
pub proof fn lemma_prev_undoes_next(v: ManagerView)
    requires
        v.well_formed(),
        shown_ids(v).len() >= 2,
        v.focused == Some(shown_ids(v).last()),
    ensures
        v.next_target() == Some(shown_ids(v)[0]),
        v.with_focus(shown_ids(v)[0]).prev_target() == v.focused,
        v.with_focus(shown_ids(v)[0]).with_prev_focus().focused == v.focused,
        shown_ids(v.with_focus(shown_ids(v)[0]).with_prev_focus()) == shown_ids(v),
{
    lemma_step_forward(v);
    lemma_back_after_forward(v.with_focus(shown_ids(v)[0]), shown_ids(v));
}

proof fn lemma_turn_forward_back(ids: Seq<WindowId>)
    requires
        ids.len() >= 2,
    ensures
        ids.drop_last().insert(0, ids.last()).len() == ids.len(),
        ids.drop_last().insert(0, ids.last()).last() == ids[ids.len() - 2],
        ids.drop_last().insert(0, ids.last())[0] == ids.last(),
        ids.drop_last().insert(0, ids.last()).drop_first().push(ids.last()) == ids,
{
    let i1 = ids.drop_last().insert(0, ids.last());
    assert(i1.drop_first() =~= ids.drop_last());
    assert(i1.drop_first().push(ids.last()) =~= ids);
}

proof fn lemma_forward_after_back(v1: ManagerView, ids: Seq<WindowId>)
    requires
        v1.well_formed(),
        ids.len() >= 2,
        shown_ids(v1) == seq![ids.last()] + ids.drop_last(),
        v1.focused == Some(ids[ids.len() - 2]),
    ensures
        v1.next_target() == Some(ids.last()),
        v1.with_focus(ids.last()).focused == Some(ids.last()),
        shown_ids(v1.with_focus(ids.last())) == ids,
{
    lemma_turn_forward_back(ids);
    assert(seq![ids.last()] + ids.drop_last() =~= ids.drop_last().insert(0, ids.last()));
    lemma_step_forward(v1);
}

/// Focus Next undoes Focus Prev: from the topmost shown window, with at least
/// two shown, a step back and a step forward give the focus back to it and
/// leave the shown windows in their order.
pub proof fn lemma_next_undoes_prev(v: ManagerView)
    requires
        v.well_formed(),
        shown_ids(v).len() >= 2,
        v.focused == Some(shown_ids(v).last()),
    ensures
        v.with_prev_focus().next_target() == v.focused,
        v.with_prev_focus().with_focus(v.focused->0).focused == v.focused,
        shown_ids(v.with_prev_focus().with_focus(v.focused->0)) == shown_ids(v),
{
    lemma_step_back(v);
    lemma_forward_after_back(v.with_prev_focus(), shown_ids(v));
}

/// The manager after `m` steps of Focus Next.
pub open spec fn stepped_forward(v: ManagerView, m: nat) -> ManagerView
    decreases m,
{
    if m == 0 {
        v
    } else {
        let u = stepped_forward(v, (m - 1) as nat);
        match u.next_target() {
            Some(t) => u.with_focus(t),
            None => u,
        }
    }
}

/// `ids` turned by `m`: its elements from position `m` on, then the first `m`.
pub open spec fn turned(ids: Seq<WindowId>, m: int) -> Seq<WindowId> {
    ids.skip(m) + ids.take(m)
}

proof fn lemma_turn_forward(ids: Seq<WindowId>, m: int)
    requires
        1 <= m <= ids.len(),
    ensures
        turned(ids, m - 1).len() == ids.len(),
        m == 1 ==> turned(ids, m - 1).last() == ids.last(),
        m >= 2 ==> turned(ids, m - 1).last() == ids[m - 2],
        turned(ids, m - 1)[0] == ids[m - 1],
        turned(ids, m - 1).drop_first().push(ids[m - 1]) == turned(ids, m),
{
    let iu = turned(ids, m - 1);
    assert(iu.drop_first().push(ids[m - 1]) =~= turned(ids, m));
}

proof fn lemma_cycle_step(u: ManagerView, ids: Seq<WindowId>, m: int)
    requires
        u.well_formed(),
        1 <= m <= ids.len(),
        shown_ids(u) == turned(ids, m - 1),
        m == 1 ==> u.focused == Some(ids.last()),
        m >= 2 ==> u.focused == Some(ids[m - 2]),
    ensures
        u.next_target() == Some(ids[m - 1]),
        u.with_focus(ids[m - 1]).well_formed(),
        u.with_focus(ids[m - 1]).current_workspace == u.current_workspace,
        u.with_focus(ids[m - 1]).focused == Some(ids[m - 1]),
        shown_ids(u.with_focus(ids[m - 1])) == turned(ids, m),
{
    lemma_turn_forward(ids, m);
    lemma_step_forward(u);
}

/// Focus Next cycles through the shown windows: from the topmost shown
/// window, the `m`-th step focuses the `m`-th shown window from the bottom,
/// so `k` steps over `k` shown windows focus each of them once and give back
/// the shown windows' order.
pub proof fn lemma_focus_next_cycles(v: ManagerView, m: nat)
    requires
        v.well_formed(),
        shown_ids(v).len() >= 1,
        v.focused == Some(shown_ids(v).last()),
        m <= shown_ids(v).len(),
    ensures
        stepped_forward(v, m).well_formed(),
        stepped_forward(v, m).current_workspace == v.current_workspace,
        shown_ids(stepped_forward(v, m)) == turned(shown_ids(v), m as int),
        m == 0 ==> stepped_forward(v, m).focused == Some(shown_ids(v).last()),
        m >= 1 ==> stepped_forward(v, m).focused == Some(shown_ids(v)[m - 1]),
    decreases m,
{
    let ids = shown_ids(v);
    if m == 0 {
        assert(turned(ids, 0) =~= ids);
    } else {
        lemma_focus_next_cycles(v, (m - 1) as nat);
        lemma_cycle_step(stepped_forward(v, (m - 1) as nat), ids, m as int);
    }
}

/// The manager after `m` steps of Focus Prev.
pub open spec fn stepped_back(v: ManagerView, m: nat) -> ManagerView
    decreases m,
{
    if m == 0 {
        v
    } else {
        stepped_back(v, (m - 1) as nat).with_prev_focus()
    }
}

proof fn lemma_turned_last(ids: Seq<WindowId>, j: int)
    requires
        ids.len() >= 1,
        0 <= j <= ids.len(),
    ensures
        turned(ids, j).len() == ids.len(),
        j >= 1 ==> turned(ids, j).last() == ids[j - 1],
        j == 0 ==> turned(ids, j).last() == ids.last(),
{
}

proof fn lemma_turn_one_back(ids: Seq<WindowId>, j: int)
    requires
        ids.len() >= 2,
        1 <= j <= ids.len(),
    ensures
        turned(ids, j).len() == ids.len(),
        turned(ids, j).drop_last().insert(0, turned(ids, j).last()) == turned(ids, j - 1),
        turned(ids, j)[ids.len() - 2] == turned(ids, j - 1).last(),
{
    let o = turned(ids, j);
    assert(o.drop_last().insert(0, o.last()) =~= turned(ids, j - 1));
    lemma_turned_last(ids, j - 1);
    if j >= 2 {
        assert(o[ids.len() - 2] == ids[j - 2]);
    } else {
        assert(o[ids.len() - 2] == ids[ids.len() - 1]);
    }
}

proof fn lemma_back_cycle_step(u: ManagerView, ids: Seq<WindowId>, j: int)
    requires
        u.well_formed(),
        ids.len() >= 2,
        1 <= j <= ids.len(),
        shown_ids(u) == turned(ids, j),
        u.focused == Some(turned(ids, j).last()),
    ensures
        u.with_prev_focus().well_formed(),
        u.with_prev_focus().current_workspace == u.current_workspace,
        shown_ids(u.with_prev_focus()) == turned(ids, j - 1),
        u.with_prev_focus().focused == Some(turned(ids, j - 1).last()),
{
    lemma_turn_one_back(ids, j);
    let o = turned(ids, j);
    assert(seq![o.last()] + o.drop_last() =~= o.drop_last().insert(0, o.last()));
    lemma_step_back(u);
}

/// Focus Prev cycles backwards through the shown windows: from the topmost
/// shown window, the `m`-th step back (for `m` below the number `k` of shown
/// windows) focuses the `m`-th shown window below it, and the `k`-th step
/// returns to it with the shown windows in their order; so `k` steps focus
/// each shown window once.
pub proof fn lemma_focus_prev_cycles(v: ManagerView, m: nat)
    requires
        v.well_formed(),
        shown_ids(v).len() >= 2,
        v.focused == Some(shown_ids(v).last()),
        m <= shown_ids(v).len(),
    ensures
        stepped_back(v, m).well_formed(),
        stepped_back(v, m).current_workspace == v.current_workspace,
        shown_ids(stepped_back(v, m)) == turned(shown_ids(v), shown_ids(v).len() - m),
        m < shown_ids(v).len() ==> stepped_back(v, m).focused == Some(
            shown_ids(v)[shown_ids(v).len() - 1 - m],
        ),
        m == shown_ids(v).len() ==> stepped_back(v, m).focused == Some(shown_ids(v).last()),
        m == shown_ids(v).len() ==> shown_ids(stepped_back(v, m)) == shown_ids(v),
    decreases m,
{
    let ids = shown_ids(v);
    let k = ids.len() as int;
    if m == 0 {
        assert(turned(ids, k) =~= ids);
    } else {
        lemma_focus_prev_cycles(v, (m - 1) as nat);
        let u = stepped_back(v, (m - 1) as nat);
        lemma_turned_last(ids, k - m + 1);
        if m == 1 {
            assert(turned(ids, k) =~= ids);
        }
        lemma_back_cycle_step(u, ids, k - m + 1);
        lemma_turned_last(ids, k - m);
        if m as int == k {
            assert(turned(ids, 0) =~= ids);
        }
    }
}

/// The window under a point is shown on the given workspace (it lies there
/// and is not minimized), its area with the decoration contains the point,
/// and no shown window above it contains the point; where there is none, no
/// shown window contains the point.
pub proof fn lemma_window_at_is_shown(s: Seq<WindowView>, ws: usize, p: Point)
    ensures
        topmost_at(s, ws, p) matches Some(id) ==> exists|i: int|
            0 <= i < s.len() && (#[trigger] s[i]).id == id && !s[i].minimized && s[i].workspace == ws
                && rect_contains(s[i].outer_rect(), p) && forall|j: int|
                i < j < s.len() && !(#[trigger] s[j]).minimized && s[j].workspace == ws
                    ==> !rect_contains(s[j].outer_rect(), p),
        topmost_at(s, ws, p) is None ==> forall|j: int|
            0 <= j < s.len() && !(#[trigger] s[j]).minimized && s[j].workspace == ws
                ==> !rect_contains(s[j].outer_rect(), p),
    decreases s.len(),
{
    if s.len() > 0 {
        let t = s.drop_last();
        lemma_window_at_is_shown(t, ws, p);
        let l = s.len() - 1;
        assert(s[l] == s.last());
        if !s.last().minimized && s.last().workspace == ws && rect_contains(s.last().outer_rect(), p) {
            assert(s[l].id == s.last().id);
        } else {
            assert forall|j: int| 0 <= j < t.len() implies #[trigger] s[j] == t[j] by {}
            match topmost_at(t, ws, p) {
                Some(id) => {
                    let i = choose|i: int|
                        0 <= i < t.len() && (#[trigger] t[i]).id == id && !t[i].minimized && t[i].workspace
                            == ws && rect_contains(t[i].outer_rect(), p) && forall|j: int|
                            i < j < t.len() && !(#[trigger] t[j]).minimized && t[j].workspace == ws
                                ==> !rect_contains(t[j].outer_rect(), p);
                    assert(s[i] == t[i]);
                    assert forall|j: int|
                        i < j < s.len() && !(#[trigger] s[j]).minimized && s[j].workspace == ws
                            implies !rect_contains(s[j].outer_rect(), p) by {
                        if j < t.len() {
                            assert(s[j] == t[j]);
                        }
                    }
                },
                None => {
                    assert forall|j: int|
                        0 <= j < s.len() && !(#[trigger] s[j]).minimized && s[j].workspace == ws
                            implies !rect_contains(s[j].outer_rect(), p) by {
                        if j < t.len() {
                            assert(s[j] == t[j]);
                        }
                    }
                },
            }
        }
    }
}

/// Focusing a window keeps every window as it is (only their order
/// changes).
pub proof fn lemma_focus_keeps_window(v: ManagerView, id: WindowId, f: WindowId)
    requires
        v.well_formed(),
        has_id(v.windows, f),
    ensures
        has_id(v.with_focus(id).windows, f),
        v.with_focus(id).window(f) == v.window(f),
{
    if v.focusable(id) {
        let i = choose|i: int|
            0 <= i < v.windows.len() && (#[trigger] v.windows[i]).id == id && visible(
                v.windows[i],
                v.current_workspace,
            );
        lemma_pos_of(v.windows, id, i);
        lemma_raised(v.windows, id);
        let r = raised(v.windows, id);
        let k = choose|k: int| 0 <= k < v.windows.len() && (#[trigger] v.windows[k]).id == f;
        lemma_pos_of(v.windows, f, k);
        let j = choose|j: int| #![trigger r[j]] 0 <= j < r.len() && r[j] == v.windows[k];
        lemma_pos_of(r, f, j);
    }
}

/// Focusing the topmost shown window keeps the order of the shown windows.
pub proof fn lemma_focus_top(v: ManagerView, t: WindowId)
    requires
        v.well_formed(),
        shown_ids(v).len() >= 1,
        shown_ids(v).last() == t,
    ensures
        v.with_focus(t).well_formed(),
        v.with_focus(t).focused == Some(t),
        v.with_focus(t).current_workspace == v.current_workspace,
        shown_ids(v.with_focus(t)) == shown_ids(v),
{
    let ws = v.current_workspace;
    let s = v.windows;
    let ids = shown_ids(v);
    let k = ids.len() as int;
    lemma_visible_ids_distinct(s, ws);
    lemma_visible_ids_members(s, ws);
    assert(ids[k - 1] == t);
    assert(shown_with_id(s, ws, ids[k - 1]));
    lemma_focus_shows(v, t);
    let i = choose|i: int| 0 <= i < s.len() && (#[trigger] s[i]).id == t && visible(s[i], ws);
    lemma_pos_of(s, t, i);
    lemma_move_visible(s, ws, t);
    let p = pos_of(s, t);
    let a = visible_ids(s.take(p), ws);
    let b = visible_ids(s.skip(p + 1), ws);
    assert(ids[a.len() as int] == t);
    if b.len() > 0 {
        assert(ids[a.len() as int] != ids[k - 1]);
    }
    assert(b.len() == 0);
    assert((a + b).push(t) =~= ids);
}

/// Where `id` occurs in `ids`, its first occurrence exists and is in range.
proof fn lemma_first_index_exists(ids: Seq<WindowId>, id: WindowId, j: int)
    requires
        0 <= j < ids.len(),
        ids[j] == id,
    ensures
        exists|k: int|
            0 <= k < ids.len() && ids[k] == id && (forall|i: int| 0 <= i < k ==> ids[i] != id),
    decreases j,
{
    if exists|i: int| 0 <= i < j && ids[i] == id {
        let i = choose|i: int| 0 <= i < j && ids[i] == id;
        lemma_first_index_exists(ids, id, i);
    } else {
        assert(forall|i: int| 0 <= i < j ==> ids[i] != id);
    }
}

} // verus!
