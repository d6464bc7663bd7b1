use vstd::prelude::*;
use crate::window::SimpleTerminalWindow;

verus! {

/// Window `i` of `s` exists and is hit by `(x, y)`.
pub open spec fn hits(s: Seq<SimpleTerminalWindow>, i: int, x: int, y: int) -> bool {
    0 <= i < s.len() && s[i]@.touches(x, y)
}

/// The largest index below `n` whose window is hit by `(x, y)`, or -1.
pub open spec fn top_hit(s: Seq<SimpleTerminalWindow>, x: int, y: int, n: int) -> int
    decreases n,
{
    if n <= 0 {
        -1
    } else if hits(s, n - 1, x, y) {
        n - 1
    } else {
        top_hit(s, x, y, n - 1)
    }
}

/// The window list after a press at `(x, y)`: the front-most window hit moves
/// to the tail; with no hit the list is unchanged.
pub open spec fn focused_at(s: Seq<SimpleTerminalWindow>, x: int, y: int) -> Seq<
    SimpleTerminalWindow,
> {
    let i = top_hit(s, x, y, s.len() as int);
    if i >= 0 {
        s.remove(i).push(s[i])
    } else {
        s
    }
}

/// The windows on screen, back to front: the last one is the focused window.
pub struct Screen {
    pub containers: Vec<SimpleTerminalWindow>,
    pub dev_console: Vec<String>,
}

impl Screen {
    pub open spec fn wf(&self) -> bool {
        forall|i: int| 0 <= i < self.containers@.len() ==> #[trigger] self.containers@[i].wf()
    }

    pub fn new() -> (r: Screen)
        ensures
            r.wf(),
            r.containers@.len() == 0,
            r.dev_console@.len() == 0,
    {
        Screen { containers: Vec::new(), dev_console: Vec::new() }
    }

    /// Puts `con` on top.
    pub fn add_container(&mut self, con: SimpleTerminalWindow)
        requires
            old(self).wf(),
            con.wf(),
        ensures
            final(self).wf(),
            final(self).containers@ == old(self).containers@.push(con),
            final(self).dev_console@ == old(self).dev_console@,
    {
        self.containers.push(con);
    }

    /// The window at position `index`, counted from the back.
    pub fn get_container(&self, index: u16) -> (r: Option<&SimpleTerminalWindow>)
        ensures
            index < self.containers@.len() ==> r == Some(&self.containers@[index as int]),
            index >= self.containers@.len() ==> r is None,
    {
        if (index as usize) < self.containers.len() {
            Some(&self.containers[index as usize])
        } else {
            None
        }
    }

    /// The focused window: the last of the list.
    pub fn get_top_container(&self) -> (r: Option<&SimpleTerminalWindow>)
        ensures
            self.containers@.len() > 0 ==> r == Some(&self.containers@.last()),
            self.containers@.len() == 0 ==> r is None,
    {
        let n = self.containers.len();
        if n > 0 {
            Some(&self.containers[n - 1])
        } else {
            None
        }
    }

    /// Focus by hit test: the front-most window that `(x, y)` touches moves to
    /// the top; when none does, nothing changes.
    pub fn check_top_container(&mut self, x: u16, y: u16)
        requires
            old(self).wf(),
        ensures
            final(self).wf(),
            final(self).containers@ == focused_at(old(self).containers@, x as int, y as int),
            final(self).dev_console@ == old(self).dev_console@,
    {
        let ghost s = self.containers@;
        let ghost dc = self.dev_console@;
        let mut i: usize = self.containers.len();
        while i > 0
            invariant
                i <= s.len(),
                self.containers@ == s,
                self.dev_console@ == dc,
                s == old(self).containers@,
                dc == old(self).dev_console@,
                self.wf(),
                top_hit(s, x as int, y as int, s.len() as int) == top_hit(
                    s,
                    x as int,
                    y as int,
                    i as int,
                ),
            decreases i,
        {
            if self.containers[i - 1].is_touching(x, y) {
                assert(hits(s, i - 1, x as int, y as int));
                assert(top_hit(s, x as int, y as int, i as int) == i - 1);
                let con = self.containers.remove(i - 1);
                self.containers.push(con);
                proof {
                    assert forall|k: int| 0 <= k < self.containers@.len() implies #[trigger] self.containers@[k].wf() by {
                        if k < i - 1 {
                            assert(self.containers@[k] == s[k]);
                        } else if k < s.len() - 1 {
                            assert(self.containers@[k] == s[k + 1]);
                        }
                    }
                }
                return;
            }
            i = i - 1;
        }
    }
}

/// The index `top_hit` picks is hit, and no window in front of it is; it is
/// -1 exactly when no window is hit.
pub proof fn lemma_top_hit(s: Seq<SimpleTerminalWindow>, x: int, y: int, n: int)
    requires
        0 <= n <= s.len(),
    ensures
        top_hit(s, x, y, n) >= 0 ==> hits(s, top_hit(s, x, y, n), x, y),
        top_hit(s, x, y, n) < n,
        forall|j: int| top_hit(s, x, y, n) < j < n ==> !hits(s, j, x, y),
        top_hit(s, x, y, n) < 0 <==> forall|j: int| 0 <= j < n ==> !hits(s, j, x, y),
    decreases n,
{
    if n > 0 {
        lemma_top_hit(s, x, y, n - 1);
    }
}

/// After a press that hits some window, the front-most of the windows hit is
/// on top, and the other windows keep their order.
pub proof fn lemma_focus_brings_topmost_hit_to_front(
    s: Seq<SimpleTerminalWindow>,
    x: int,
    y: int,
    i: int,
)
    requires
        hits(s, i, x, y),
        forall|j: int| i < j < s.len() ==> !hits(s, j, x, y),
    ensures
        focused_at(s, x, y).len() == s.len(),
        focused_at(s, x, y).last() == s[i],
        focused_at(s, x, y).drop_last() == s.remove(i),
{
    lemma_top_hit(s, x, y, s.len() as int);
    let t = top_hit(s, x, y, s.len() as int);
    assert(t == i) by {
        if t < i {
            assert(!hits(s, i, x, y));
        } else if t > i {
        }
    }
    assert(focused_at(s, x, y).drop_last() =~= s.remove(i));
}

/// A press that hits no window leaves the window list unchanged.
pub proof fn lemma_focus_miss_is_noop(s: Seq<SimpleTerminalWindow>, x: int, y: int)
    requires
        forall|j: int| 0 <= j < s.len() ==> !hits(s, j, x, y),
    ensures
        focused_at(s, x, y) == s,
{
    lemma_top_hit(s, x, y, s.len() as int);
}

} // verus!
