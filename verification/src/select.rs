//! The path selector: from a path expression to the objects it names.
//!
//! Selection reads the world and nothing else. It keeps no memory between
//! calls, and sees only what is live: an object that was requested during
//! this tick is not found before the next `commit`.

use crate::graph::{has_slot, is_child_of, is_live, ObjectGraph, ObjectView, Stage};
use crate::ident::ObjectRef;
use crate::path::{segment_matches, PathExpression, Segment, SegmentView};
use vstd::prelude::*;

verus! {

/// The step `segment` leads from `from` to the slot `i`: a live child of
/// `from` whose name the segment accepts.
pub open spec fn leads_to(g: Seq<ObjectView>, from: ObjectRef, segment: SegmentView, i: int) -> bool {
    is_child_of(g, from, i) && segment_matches(segment, g[i].name)
}

/// The objects among the first `upto` slots that the step `segment` leads
/// to from `from`, by rising handle.
pub open spec fn step_from(
    g: Seq<ObjectView>,
    from: ObjectRef,
    segment: SegmentView,
    upto: int,
) -> Seq<ObjectRef>
    decreases upto,
{
    if upto <= 0 {
        Seq::empty()
    } else {
        let rest = step_from(g, from, segment, upto - 1);
        if leads_to(g, from, segment, upto - 1) {
            rest.push(ObjectRef((upto - 1) as usize))
        } else {
            rest
        }
    }
}

/// The objects that the step `segment` leads to from the objects
/// `current`, taken in turn.
pub open spec fn step(g: Seq<ObjectView>, current: Seq<ObjectRef>, segment: SegmentView) -> Seq<
    ObjectRef,
>
    decreases current.len(),
{
    if current.len() == 0 {
        Seq::empty()
    } else {
        step(g, current.drop_last(), segment) + step_from(
            g,
            current.last(),
            segment,
            g.len() as int,
        )
    }
}

/// The slot `i` holds a live object without a parent.
pub open spec fn is_root(g: Seq<ObjectView>, i: int) -> bool {
    0 <= i < g.len() && g[i].stage == Stage::Live && g[i].parent.is_none()
}

/// The roots among the first `upto` slots, by rising handle.
pub open spec fn roots(g: Seq<ObjectView>, upto: int) -> Seq<ObjectRef>
    decreases upto,
{
    if upto <= 0 {
        Seq::empty()
    } else {
        let rest = roots(g, upto - 1);
        if is_root(g, upto - 1) {
            rest.push(ObjectRef((upto - 1) as usize))
        } else {
            rest
        }
    }
}

/// Where a selection starts: at `origin` if one is given and live, at no
/// object if it is given and not live, and at every root if none is given.
pub open spec fn origins(g: Seq<ObjectView>, origin: Option<ObjectRef>) -> Seq<ObjectRef> {
    match origin {
        Some(o) => if is_live(g, o) {
            seq![o]
        } else {
            Seq::empty()
        },
        None => roots(g, g.len() as int),
    }
}

/// The objects reached from `start` by the steps of `path`, one after the
/// other.
pub open spec fn walk(g: Seq<ObjectView>, start: Seq<ObjectRef>, path: Seq<SegmentView>) -> Seq<
    ObjectRef,
>
    decreases path.len(),
{
    if path.len() == 0 {
        start
    } else {
        step(g, walk(g, start, path.drop_last()), path.last())
    }
}

/// The objects that `path` names, seen from `origin`.
pub open spec fn selection(
    g: Seq<ObjectView>,
    origin: Option<ObjectRef>,
    path: Seq<SegmentView>,
) -> Seq<ObjectRef> {
    walk(g, origins(g, origin), path)
}

/// What one step from one object finds: exactly the slots it leads to, by
/// rising handle.
pub proof fn lemma_step_from_members(
    g: Seq<ObjectView>,
    from: ObjectRef,
    segment: SegmentView,
    upto: int,
)
    requires
        upto <= g.len() <= usize::MAX,
    ensures
        forall|k: int|
            0 <= k < step_from(g, from, segment, upto).len() ==> {
                let x = #[trigger] step_from(g, from, segment, upto)[k];
                x.0 < upto && leads_to(g, from, segment, x.0 as int)
            },
        forall|j: int, k: int|
            0 <= j < k < step_from(g, from, segment, upto).len() ==> step_from(
                g,
                from,
                segment,
                upto,
            )[j].0 < step_from(g, from, segment, upto)[k].0,
        forall|i: int|
            0 <= i < upto && leads_to(g, from, segment, i) ==> step_from(
                g,
                from,
                segment,
                upto,
            ).contains(ObjectRef(i as usize)),
    decreases upto,
{
    if upto > 0 {
        lemma_step_from_members(g, from, segment, upto - 1);
        let rest = step_from(g, from, segment, upto - 1);
        let all = step_from(g, from, segment, upto);
        assert forall|i: int| 0 <= i < upto && leads_to(g, from, segment, i) implies all.contains(
            ObjectRef(i as usize),
        ) by {
            if i < upto - 1 {
                let k = choose|k: int| 0 <= k < rest.len() && rest[k] == ObjectRef(i as usize);
                assert(all[k] == ObjectRef(i as usize));
            } else {
                assert(all[all.len() - 1] == ObjectRef(i as usize));
            }
        }
    }
}

/// Every object that a step finds is live.
pub proof fn lemma_step_live(g: Seq<ObjectView>, current: Seq<ObjectRef>, segment: SegmentView)
    requires
        g.len() <= usize::MAX,
    ensures
        forall|k: int|
            0 <= k < step(g, current, segment).len() ==> is_live(
                g,
                #[trigger] step(g, current, segment)[k],
            ),
    decreases current.len(),
{
    if current.len() > 0 {
        lemma_step_live(g, current.drop_last(), segment);
        lemma_step_from_members(g, current.last(), segment, g.len() as int);
        let head = step(g, current.drop_last(), segment);
        let tail = step_from(g, current.last(), segment, g.len() as int);
        let all = step(g, current, segment);
        assert forall|k: int| 0 <= k < all.len() implies is_live(g, #[trigger] all[k]) by {
            if k < head.len() {
                assert(all[k] == head[k]);
            } else {
                assert(all[k] == tail[k - head.len()]);
            }
        }
    }
}

/// Every root is live.
pub proof fn lemma_roots_live(g: Seq<ObjectView>, upto: int)
    requires
        upto <= g.len() <= usize::MAX,
    ensures
        forall|k: int|
            0 <= k < roots(g, upto).len() ==> {
                let x = #[trigger] roots(g, upto)[k];
                x.0 < upto && is_root(g, x.0 as int)
            },
        forall|j: int, k: int|
            0 <= j < k < roots(g, upto).len() ==> roots(g, upto)[j].0 < roots(g, upto)[k].0,
    decreases upto,
{
    if upto > 0 {
        lemma_roots_live(g, upto - 1);
        let rest = roots(g, upto - 1);
        let all = roots(g, upto);
        assert forall|k: int| 0 <= k < all.len() implies {
            let x = #[trigger] all[k];
            x.0 < upto && is_root(g, x.0 as int)
        } by {
            if k < rest.len() {
                assert(all[k] == rest[k]);
            }
        }
        assert forall|j: int, k: int| 0 <= j < k < all.len() implies all[j].0 < all[k].0 by {
            assert(all[j] == rest[j]);
            if k < rest.len() {
                assert(all[k] == rest[k]);
            }
        }
    }
}

/// Selection finds live objects only.
pub proof fn lemma_selection_live(
    g: Seq<ObjectView>,
    origin: Option<ObjectRef>,
    path: Seq<SegmentView>,
)
    requires
        g.len() <= usize::MAX,
    ensures
        forall|k: int|
            0 <= k < selection(g, origin, path).len() ==> is_live(
                g,
                #[trigger] selection(g, origin, path)[k],
            ),
    decreases path.len(),
{
    if path.len() == 0 {
        lemma_roots_live(g, g.len() as int);
        let all = selection(g, origin, path);
        assert forall|k: int| 0 <= k < all.len() implies is_live(g, #[trigger] all[k]) by {
            if origin.is_none() {
                assert(is_root(g, roots(g, g.len() as int)[k].0 as int));
            }
        }
    } else {
        lemma_step_live(g, walk(g, origins(g, origin), path.drop_last()), path.last());
    }
}

/// Every root among the first `upto` slots is found.
pub proof fn lemma_roots_complete(g: Seq<ObjectView>, upto: int, i: int)
    requires
        upto <= g.len() <= usize::MAX,
        0 <= i < upto,
        is_root(g, i),
    ensures
        roots(g, upto).contains(ObjectRef(i as usize)),
    decreases upto,
{
    let all = roots(g, upto);
    if i == upto - 1 {
        assert(all[all.len() - 1] == ObjectRef(i as usize));
    } else {
        lemma_roots_complete(g, upto - 1, i);
        let rest = roots(g, upto - 1);
        let k = choose|k: int| 0 <= k < rest.len() && rest[k] == ObjectRef(i as usize);
        assert(all[k] == rest[k]);
    }
}

/// What a step finds: exactly the objects that it leads to from one of
/// the objects it starts at.
pub proof fn lemma_step_members(
    g: Seq<ObjectView>,
    current: Seq<ObjectRef>,
    segment: SegmentView,
    x: ObjectRef,
)
    requires
        g.len() <= usize::MAX,
    ensures
        step(g, current, segment).contains(x) <==> exists|k: int|
            0 <= k < current.len() && leads_to(g, #[trigger] current[k], segment, x.0 as int),
    decreases current.len(),
{
    if current.len() > 0 {
        let head = step(g, current.drop_last(), segment);
        let tail = step_from(g, current.last(), segment, g.len() as int);
        let all = step(g, current, segment);
        lemma_step_members(g, current.drop_last(), segment, x);
        lemma_step_from_members(g, current.last(), segment, g.len() as int);
        if all.contains(x) {
            let at = choose|at: int| 0 <= at < all.len() && all[at] == x;
            if at < head.len() {
                assert(head[at] == x);
                let k = choose|k: int|
                    0 <= k < current.drop_last().len() && leads_to(
                        g,
                        #[trigger] current.drop_last()[k],
                        segment,
                        x.0 as int,
                    );
                assert(leads_to(g, current[k], segment, x.0 as int));
            } else {
                assert(tail[at - head.len()] == x);
                assert(leads_to(g, current[current.len() - 1], segment, x.0 as int));
            }
        }
        if exists|k: int|
            0 <= k < current.len() && leads_to(g, #[trigger] current[k], segment, x.0 as int) {
            let k = choose|k: int|
                0 <= k < current.len() && leads_to(g, #[trigger] current[k], segment, x.0 as int);
            if k < current.len() - 1 {
                assert(leads_to(g, current.drop_last()[k], segment, x.0 as int));
                let at = choose|at: int| 0 <= at < head.len() && head[at] == x;
                assert(all[at] == x);
            } else {
                assert(tail.contains(ObjectRef(x.0 as int as usize)));
                let at = choose|at: int| 0 <= at < tail.len() && tail[at] == x;
                assert(all[head.len() + at] == x);
            }
        }
    }
}

/// A step from different objects finds different objects.
pub proof fn lemma_step_distinct(
    g: Seq<ObjectView>,
    current: Seq<ObjectRef>,
    segment: SegmentView,
)
    requires
        g.len() <= usize::MAX,
        current.no_duplicates(),
    ensures
        step(g, current, segment).no_duplicates(),
    decreases current.len(),
{
    if current.len() > 0 {
        let head = step(g, current.drop_last(), segment);
        let tail = step_from(g, current.last(), segment, g.len() as int);
        let all = step(g, current, segment);
        lemma_step_distinct(g, current.drop_last(), segment);
        lemma_step_from_members(g, current.last(), segment, g.len() as int);
        assert forall|a: int, b: int| 0 <= a < all.len() && 0 <= b < all.len() && a != b implies all[a]
            != all[b] by {
            if a < head.len() && b < head.len() {
                assert(head[a] != head[b]);
            } else if a >= head.len() && b >= head.len() {
                let i = a - head.len();
                let j = b - head.len();
                if i < j {
                    assert(tail[i].0 < tail[j].0);
                } else {
                    assert(tail[j].0 < tail[i].0);
                }
            } else {
                let (low, high) = if a < b {
                    (a, b)
                } else {
                    (b, a)
                };
                let x = head[low];
                let y = tail[high - head.len()];
                assert(all[low] == x && all[high] == y);
                if x == y {
                    assert(head.contains(x));
                    lemma_step_members(g, current.drop_last(), segment, x);
                    let k = choose|k: int|
                        0 <= k < current.drop_last().len() && leads_to(
                            g,
                            #[trigger] current.drop_last()[k],
                            segment,
                            x.0 as int,
                        );
                    assert(g[x.0 as int].parent == Some(current[k]));
                    assert(g[y.0 as int].parent == Some(current[current.len() - 1]));
                    assert(current[k] == current[current.len() - 1]);
                    assert(false);
                }
            }
        }
    }
}

/// `path` names `x`, seen from `origin`: with no step, `x` is the origin,
/// or a root if there is none; else the last step leads to `x` from its
/// parent, which the steps before it name.
pub open spec fn named_by(
    g: Seq<ObjectView>,
    x: ObjectRef,
    origin: Option<ObjectRef>,
    path: Seq<SegmentView>,
) -> bool
    decreases path.len(),
{
    if path.len() == 0 {
        match origin {
            Some(o) => x == o && is_live(g, o),
            None => is_root(g, x.0 as int),
        }
    } else if has_slot(g, x) {
        match g[x.0 as int].parent {
            Some(p) => leads_to(g, p, path.last(), x.0 as int) && named_by(
                g,
                p,
                origin,
                path.drop_last(),
            ),
            None => false,
        }
    } else {
        false
    }
}

/// Selection finds exactly the objects that the path names.
pub proof fn lemma_selection_members(
    g: Seq<ObjectView>,
    origin: Option<ObjectRef>,
    path: Seq<SegmentView>,
    x: ObjectRef,
)
    requires
        g.len() <= usize::MAX,
    ensures
        selection(g, origin, path).contains(x) <==> named_by(g, x, origin, path),
    decreases path.len(),
{
    let found = selection(g, origin, path);
    if path.len() == 0 {
        match origin {
            Some(o) => {
                if is_live(g, o) {
                    assert(seq![o][0] == o);
                }
            },
            None => {
                lemma_roots_live(g, g.len() as int);
                if is_root(g, x.0 as int) {
                    lemma_roots_complete(g, g.len() as int, x.0 as int);
                    assert(ObjectRef(x.0 as int as usize) == x);
                }
                if found.contains(x) {
                    let k = choose|k: int| 0 <= k < found.len() && found[k] == x;
                    assert(is_root(g, roots(g, g.len() as int)[k].0 as int));
                }
            },
        }
    } else {
        let before = selection(g, origin, path.drop_last());
        lemma_step_members(g, before, path.last(), x);
        if found.contains(x) {
            let k = choose|k: int|
                0 <= k < before.len() && leads_to(g, #[trigger] before[k], path.last(), x.0 as int);
            assert(before.contains(before[k]));
            lemma_selection_members(g, origin, path.drop_last(), before[k]);
        }
        if named_by(g, x, origin, path) {
            let p = g[x.0 as int].parent->0;
            lemma_selection_members(g, origin, path.drop_last(), p);
            let k = choose|k: int| 0 <= k < before.len() && before[k] == p;
            assert(leads_to(g, before[k], path.last(), x.0 as int));
        }
    }
}

/// Selection finds no object twice.
pub proof fn lemma_selection_distinct(
    g: Seq<ObjectView>,
    origin: Option<ObjectRef>,
    path: Seq<SegmentView>,
)
    requires
        g.len() <= usize::MAX,
    ensures
        selection(g, origin, path).no_duplicates(),
    decreases path.len(),
{
    if path.len() == 0 {
        lemma_roots_live(g, g.len() as int);
        let found = selection(g, origin, path);
        assert forall|a: int, b: int|
            0 <= a < found.len() && 0 <= b < found.len() && a != b implies found[a]
            != found[b] by {
            if origin.is_none() {
                let all = roots(g, g.len() as int);
                if a < b {
                    assert(all[a].0 < all[b].0);
                } else {
                    assert(all[b].0 < all[a].0);
                }
            }
        }
    } else {
        lemma_selection_distinct(g, origin, path.drop_last());
        lemma_step_distinct(g, selection(g, origin, path.drop_last()), path.last());
    }
}

/// One step from one object finds the same in two worlds that agree on
/// the first `upto` slots.
pub proof fn lemma_step_from_agrees(
    g: Seq<ObjectView>,
    h: Seq<ObjectView>,
    from: ObjectRef,
    segment: SegmentView,
    upto: int,
)
    requires
        upto <= g.len(),
        upto <= h.len(),
        forall|j: int| 0 <= j < upto ==> g[j] == h[j],
    ensures
        step_from(g, from, segment, upto) == step_from(h, from, segment, upto),
    decreases upto,
{
    if upto > 0 {
        lemma_step_from_agrees(g, h, from, segment, upto - 1);
    }
}

/// One step from one object finds nothing among slots that are not live.
pub proof fn lemma_step_from_skips_the_dead(
    g: Seq<ObjectView>,
    from: ObjectRef,
    segment: SegmentView,
    low: int,
    upto: int,
)
    requires
        0 <= low <= upto <= g.len(),
        forall|j: int| low <= j < upto ==> (#[trigger] g[j]).stage != Stage::Live,
    ensures
        step_from(g, from, segment, upto) == step_from(g, from, segment, low),
    decreases upto,
{
    if upto > low {
        assert(g[upto - 1].stage != Stage::Live);
        lemma_step_from_skips_the_dead(g, from, segment, low, upto - 1);
    }
}

/// The same for the roots.
pub proof fn lemma_roots_agree(g: Seq<ObjectView>, h: Seq<ObjectView>, low: int, upto: int)
    requires
        0 <= low <= g.len(),
        low <= upto <= h.len(),
        forall|j: int| 0 <= j < low ==> g[j] == h[j],
        forall|j: int| low <= j < upto ==> (#[trigger] h[j]).stage != Stage::Live,
    ensures
        roots(h, upto) == roots(g, low),
    decreases upto,
{
    if upto > low {
        assert(h[upto - 1].stage != Stage::Live);
        lemma_roots_agree(g, h, low, upto - 1);
    } else if low > 0 {
        lemma_roots_agree(g, h, low - 1, low - 1);
    }
}

/// Slots that are not live make no difference to a step.
pub proof fn lemma_step_blind(
    g: Seq<ObjectView>,
    more: Seq<ObjectView>,
    current: Seq<ObjectRef>,
    segment: SegmentView,
)
    requires
        forall|j: int| 0 <= j < more.len() ==> (#[trigger] more[j]).stage != Stage::Live,
    ensures
        step(g + more, current, segment) == step(g, current, segment),
    decreases current.len(),
{
    if current.len() > 0 {
        let h = g + more;
        lemma_step_blind(g, more, current.drop_last(), segment);
        assert forall|j: int| g.len() <= j < h.len() implies (#[trigger] h[j]).stage
            != Stage::Live by {
            assert(h[j] == more[j - g.len()]);
        }
        lemma_step_from_skips_the_dead(h, current.last(), segment, g.len() as int, h.len() as int);
        lemma_step_from_agrees(g, h, current.last(), segment, g.len() as int);
    }
}

/// Selection does not see slots that are not live: what was requested
/// during a tick is not found before the end of the tick.
pub proof fn lemma_selection_blind(
    g: Seq<ObjectView>,
    more: Seq<ObjectView>,
    origin: Option<ObjectRef>,
    path: Seq<SegmentView>,
)
    requires
        forall|j: int| 0 <= j < more.len() ==> (#[trigger] more[j]).stage != Stage::Live,
    ensures
        selection(g + more, origin, path) == selection(g, origin, path),
    decreases path.len(),
{
    let h = g + more;
    assert forall|j: int| g.len() <= j < h.len() implies (#[trigger] h[j]).stage
        != Stage::Live by {
        assert(h[j] == more[j - g.len()]);
    }
    if path.len() == 0 {
        match origin {
            Some(o) => {
                if o.0 < g.len() {
                    assert(h[o.0 as int] == g[o.0 as int]);
                } else if o.0 < h.len() {
                    assert(h[o.0 as int].stage != Stage::Live);
                }
            },
            None => {
                lemma_roots_agree(g, h, g.len() as int, h.len() as int);
            },
        }
    } else {
        lemma_selection_blind(g, more, origin, path.drop_last());
        lemma_step_blind(g, more, selection(g, origin, path.drop_last()), path.last());
    }
}

impl ObjectGraph {
    /// The live objects without a parent, by rising handle.
    pub fn roots(&self) -> (found: Vec<ObjectRef>)
        ensures
            found@ == roots(self@.objects, self@.objects.len() as int),
    {
        let mut found: Vec<ObjectRef> = Vec::new();
        let n: usize = self.len();
        let mut i: usize = 0;
        while i < n
            invariant
                n == self@.objects.len(),
                i <= n,
                found@ == roots(self@.objects, i as int),
            decreases n - i,
        {
            let r = ObjectRef(i);
            if self.is_live(r) && self.parent(r).is_none() {
                found.push(r);
            }
            i += 1;
        }
        found
    }

    /// Adds to `found` the objects that the step `segment` leads to from
    /// `from`.
    fn step_into(&self, from: ObjectRef, segment: &Segment, found: &mut Vec<ObjectRef>)
        ensures
            final(found)@ == old(found)@ + step_from(
                self@.objects,
                from,
                segment@,
                self@.objects.len() as int,
            ),
    {
        let ghost before = found@;
        let n: usize = self.len();
        let mut i: usize = 0;
        assert(found@ =~= before + step_from(self@.objects, from, segment@, 0));
        while i < n
            invariant
                n == self@.objects.len(),
                i <= n,
                found@ == before + step_from(self@.objects, from, segment@, i as int),
            decreases n - i,
        {
            let r = ObjectRef(i);
            let ghost sofar = step_from(self@.objects, from, segment@, i as int);
            if self.is_live(r) && self.parent(r) == Some(from) {
                match self.name(r) {
                    Some(name) => {
                        if segment.matches(name) {
                            found.push(r);
                            assert(found@ =~= before + sofar.push(r));
                        }
                    },
                    None => {},
                }
            }
            i += 1;
        }
    }

    /// The live objects right below `r`, by rising handle.
    pub fn children(&self, r: ObjectRef) -> (found: Vec<ObjectRef>)
        ensures
            found@ == step_from(
                self@.objects,
                r,
                SegmentView::Wildcard,
                self@.objects.len() as int,
            ),
    {
        let mut found: Vec<ObjectRef> = Vec::new();
        self.step_into(r, &Segment::Wildcard, &mut found);
        assert(found@ =~= step_from(
            self@.objects,
            r,
            SegmentView::Wildcard,
            self@.objects.len() as int,
        ));
        found
    }

    /// The objects that `path` names, seen from `origin`: from every root
    /// when no origin is given. Each step of the path goes one level down,
    /// to the children that the step accepts. A path that names nothing
    /// gives the empty list, which is no error.
    pub fn select(&self, origin: Option<ObjectRef>, path: &PathExpression) -> (found: Vec<
        ObjectRef,
    >)
        ensures
            found@ == selection(self@.objects, origin, path@),
    {
        let mut current: Vec<ObjectRef> = match origin {
            Some(o) => {
                let mut start: Vec<ObjectRef> = Vec::new();
                if self.is_live(o) {
                    start.push(o);
                }
                start
            },
            None => self.roots(),
        };
        assert(current@ =~= origins(self@.objects, origin));
        let ghost start = current@;
        let n: usize = path.segments.len();
        let mut k: usize = 0;
        assert(path@.take(0) =~= Seq::<SegmentView>::empty());
        while k < n
            invariant
                n == path@.len(),
                n == path.segments@.len(),
                k <= n,
                current@ == walk(self@.objects, start, path@.take(k as int)),
            decreases n - k,
        {
            let segment = &path.segments[k];
            let mut next: Vec<ObjectRef> = Vec::new();
            let m: usize = current.len();
            let mut j: usize = 0;
            assert(current@.take(0) =~= Seq::<ObjectRef>::empty());
            while j < m
                invariant
                    m == current@.len(),
                    j <= m,
                    next@ == step(self@.objects, current@.take(j as int), segment@),
                decreases m - j,
            {
                proof {
                    assert(current@.take(j + 1).drop_last() =~= current@.take(j as int));
                    assert(current@.take(j + 1).last() == current@[j as int]);
                }
                self.step_into(current[j], segment, &mut next);
                j += 1;
            }
            proof {
                assert(current@.take(m as int) =~= current@);
                assert(path@.take(k + 1).drop_last() =~= path@.take(k as int));
                assert(path@.take(k + 1).last() == segment@);
            }
            current = next;
            k += 1;
        }
        assert(path@.take(n as int) =~= path@);
        current
    }
}

} // verus!
