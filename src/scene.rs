//! The scene: two groups of entities, their per-frame lifecycle, and the
//! detection and resolution of their collisions.
//!
//! Static entities are assumed not to move, so they are never tested against
//! each other; every dynamic entity is tested against every other dynamic
//! entity and against every static one.
use std::marker::PhantomData;
use std::time::Duration;

use vstd::prelude::*;
use vstd::std_specs::convert::IntoSpec;

use crate::geometry::{overlaps, BBox, Intersects, Shape, ShapeRef};
use crate::input::InputManager;

verus! {

/// Something that lives in a scene. Every hook does nothing unless the type
/// says otherwise.
pub trait Entity<Ctx> {
    /// The simple shapes the entity occupies; empty when it cannot collide.
    /// A type whose `bbox` returns a region gives that region here.
    open spec fn region(&self) -> Seq<Shape> {
        Seq::empty()
    }

    /// A handle on the entity's region; `Empty` when it cannot collide.
    fn bbox(&self) -> (r: ShapeRef<'_>)
        ensures
            r.parts() == self.region(),
    ;

    /// Whether the entity should leave the scene at the end of this frame.
    fn should_be_removed(&self) -> bool {
        false
    }

    fn input(&mut self, input: &InputManager) {
    }

    fn pre_update(&mut self, ctx: &Ctx) {
    }

    fn update(&mut self, ctx: &mut Ctx, frame_time: Duration) {
    }

    fn post_update(&mut self, ctx: &Ctx) {
    }
}

/// Drawing onto a target of type `C`.
pub trait Draw<Ctx, C> {
    fn draw(&self, ctx: &Ctx, target: &mut C) {
    }
}

/// The reaction of an entity to touching an entity of type `T`.
pub trait Collision<T: Entity<Ctx>, Ctx> {
    fn on_collision(&mut self, other: &T, ctx: &mut Ctx);
}

/// `a` comes before `b` in lexicographic order.
pub open spec fn pair_before(a: (usize, usize), b: (usize, usize)) -> bool {
    a.0 < b.0 || (a.0 == b.0 && a.1 < b.1)
}

/// Strictly increasing in lexicographic order, hence free of repeats.
pub open spec fn ascending(p: Seq<(usize, usize)>) -> bool {
    forall|k: int, l: int| 0 <= k < l < p.len() ==> pair_before(#[trigger] p[k], #[trigger] p[l])
}

/// The regions of a list of shape handles.
pub open spec fn regions(boxes: Seq<ShapeRef>) -> Seq<Seq<Shape>> {
    boxes.map_values(|b: ShapeRef| b.parts())
}

/// `p` is a pair `(i, j)` with `i < j` of overlapping regions of `d`.
pub open spec fn inner_hit(p: (usize, usize), d: Seq<Seq<Shape>>) -> bool {
    p.0 < p.1 < d.len() && overlaps(d[p.0 as int], d[p.1 as int])
}

/// `p` is a pair `(i, j)` such that region `i` of `d` overlaps region `j` of `s`.
pub open spec fn cross_hit(p: (usize, usize), d: Seq<Seq<Shape>>, s: Seq<Seq<Shape>>) -> bool {
    p.0 < d.len() && p.1 < s.len() && overlaps(d[p.0 as int], s[p.1 as int])
}

/// `p` lists, in ascending order, exactly the index pairs `(i, j)` with `i < j`
/// whose regions in `d` overlap.
pub open spec fn is_inner_pairs(p: Seq<(usize, usize)>, d: Seq<Seq<Shape>>) -> bool {
    &&& ascending(p)
    &&& forall|k: int|
        0 <= k < p.len() ==> inner_hit(#[trigger] p[k], d)
    &&& forall|i: usize, j: usize|
        i < j < d.len() && #[trigger] overlaps(d[i as int], d[j as int]) ==> p.contains((i, j))
}

/// `p` lists, in ascending order, exactly the index pairs `(i, j)` such that
/// region `i` of `d` overlaps region `j` of `s`.
pub open spec fn is_cross_pairs(
    p: Seq<(usize, usize)>,
    d: Seq<Seq<Shape>>,
    s: Seq<Seq<Shape>>,
) -> bool {
    &&& ascending(p)
    &&& forall|k: int|
        0 <= k < p.len() ==> cross_hit(#[trigger] p[k], d, s)
    &&& forall|i: usize, j: usize|
        i < d.len() && j < s.len() && #[trigger] overlaps(d[i as int], s[j as int]) ==> p.contains((i, j))
}

/// Some pair of `p` has `x` as its first index.
pub open spec fn names_first(p: Seq<(usize, usize)>, x: usize) -> bool {
    exists|q: int| 0 <= q < p.len() && (#[trigger] p[q]).0 == x
}

/// Some pair of `p` has `x` as its second index.
pub open spec fn names_second(p: Seq<(usize, usize)>, x: usize) -> bool {
    exists|q: int| 0 <= q < p.len() && (#[trigger] p[q]).1 == x
}

/// The colliding pairs of one frame, by index.
pub struct CollisionPairs {
    /// Pairs of dynamic entities, the lower index first.
    pub dynamic: Vec<(usize, usize)>,
    /// Pairs of a dynamic entity (first) and a static entity (second).
    pub dynamic_static: Vec<(usize, usize)>,
}

/// Finds every pair of dynamic regions that overlap, and every dynamic region
/// that overlaps a static one. Static regions are never paired with each other.
pub fn broad_phase(dynamic: &[ShapeRef], statics: &[ShapeRef]) -> (r: CollisionPairs)
    ensures
        is_inner_pairs(r.dynamic@, regions(dynamic@)),
        is_cross_pairs(r.dynamic_static@, regions(dynamic@), regions(statics@)),
{
    CollisionPairs { dynamic: inner_pairs(dynamic), dynamic_static: cross_pairs(dynamic, statics) }
}

/// The overlapping pairs among `dynamic`, in ascending order.
fn inner_pairs(dynamic: &[ShapeRef]) -> (inner: Vec<(usize, usize)>)
    ensures
        is_inner_pairs(inner@, regions(dynamic@)),
{
    let ghost d = regions(dynamic@);
    let n = dynamic.len();
    let mut inner: Vec<(usize, usize)> = Vec::new();
    let mut i: usize = 0;
    while i < n
        invariant
            0 <= i <= n,
            n == d.len(),
            d == regions(dynamic@),
            ascending(inner@),
            forall|k: int|
                0 <= k < inner@.len() ==> inner_hit(#[trigger] inner@[k], d) && inner@[k].0 < i,
            forall|a: usize, b: usize|
                a < b < d.len() && a < i && #[trigger] overlaps(d[a as int], d[b as int])
                    ==> inner@.contains((a, b)),
        decreases n - i,
    {
        let mut j: usize = i + 1;
        while j < n
            invariant
                0 <= i < n,
                i + 1 <= j <= n,
                n == d.len(),
                d == regions(dynamic@),
                ascending(inner@),
                forall|k: int|
                    0 <= k < inner@.len() ==> inner_hit(#[trigger] inner@[k], d) && pair_before(inner@[k], (i, j)),
                forall|a: usize, b: usize|
                    a < b < d.len() && pair_before((a, b), (i, j)) && #[trigger] overlaps(d[a as int], d[b as int])
                        ==> inner@.contains((a, b)),
            decreases n - j,
        {
            let hit = dynamic[i].intersects(&dynamic[j]);
            proof {
                assert(d[i as int] == dynamic@[i as int].parts());
                assert(d[j as int] == dynamic@[j as int].parts());
            }
            if hit {
                let ghost prev = inner@;
                inner.push((i, j));
                proof {
                    assert(inner@.last() == (i, j));
                    assert forall|k: int| 0 <= k < inner@.len() implies inner_hit(#[trigger] inner@[k], d) && pair_before(inner@[k], (i, (j + 1) as usize)) by {
                        if k < prev.len() {
                            assert(inner@[k] == prev[k]);
                        }
                    }
                    assert forall|a: usize, b: usize|
                        a < b < d.len() && pair_before((a, b), (i, (j + 1) as usize))
                            && #[trigger] overlaps(d[a as int], d[b as int]) implies inner@.contains((a, b)) by {
                        if pair_before((a, b), (i, j)) {
                            assert(prev.contains((a, b)));
                            let k = choose|k: int| 0 <= k < prev.len() && prev[k] == (a, b);
                            assert(inner@[k] == (a, b));
                        } else {
                            assert(inner@[inner@.len() - 1] == (a, b));
                        }
                    }
                }
            } else {
                proof {
                    assert forall|k: int| 0 <= k < inner@.len() implies inner_hit(#[trigger] inner@[k], d) && pair_before(inner@[k], (i, (j + 1) as usize)) by {
                        assert(pair_before(inner@[k], (i, j)));
                    }
                    assert forall|a: usize, b: usize|
                        a < b < d.len() && pair_before((a, b), (i, (j + 1) as usize))
                            && #[trigger] overlaps(d[a as int], d[b as int]) implies inner@.contains((a, b)) by {
                        if !pair_before((a, b), (i, j)) {
                            assert(a == i && b == j);
                        }
                    }
                }
            }
            j = j + 1;
        }
        proof {
            assert forall|k: int| 0 <= k < inner@.len() implies inner_hit(#[trigger] inner@[k], d) && inner@[k].0 < i + 1 by {
                assert(pair_before(inner@[k], (i, j)));
            }
            assert forall|a: usize, b: usize|
                a < b < d.len() && a < i + 1 && #[trigger] overlaps(d[a as int], d[b as int])
                    implies inner@.contains((a, b)) by {
                assert(pair_before((a, b), (i, j)));
            }
        }
        i = i + 1;
    }
    inner
}

/// The pairs of a dynamic and a static region that overlap, in ascending order.
fn cross_pairs(dynamic: &[ShapeRef], statics: &[ShapeRef]) -> (cross: Vec<(usize, usize)>)
    ensures
        is_cross_pairs(cross@, regions(dynamic@), regions(statics@)),
{
    let ghost d = regions(dynamic@);
    let ghost s = regions(statics@);
    let n = dynamic.len();
    let m = statics.len();
    let mut cross: Vec<(usize, usize)> = Vec::new();
    let mut i: usize = 0;
    while i < n
        invariant
            0 <= i <= n,
            n == d.len(),
            m == s.len(),
            d == regions(dynamic@),
            s == regions(statics@),
            ascending(cross@),
            forall|k: int|
                0 <= k < cross@.len() ==> cross_hit(#[trigger] cross@[k], d, s) && cross@[k].0 < i,
            forall|a: usize, b: usize|
                a < d.len() && b < s.len() && a < i && #[trigger] overlaps(d[a as int], s[b as int])
                    ==> cross@.contains((a, b)),
        decreases n - i,
    {
        let mut j: usize = 0;
        while j < m
            invariant
                0 <= i < n,
                0 <= j <= m,
                n == d.len(),
                m == s.len(),
                d == regions(dynamic@),
                s == regions(statics@),
                ascending(cross@),
                forall|k: int|
                    0 <= k < cross@.len() ==> cross_hit(#[trigger] cross@[k], d, s) && pair_before(cross@[k], (i, j)),
                forall|a: usize, b: usize|
                    a < d.len() && b < s.len() && pair_before((a, b), (i, j))
                        && #[trigger] overlaps(d[a as int], s[b as int]) ==> cross@.contains((a, b)),
            decreases m - j,
        {
            let hit = dynamic[i].intersects(&statics[j]);
            proof {
                assert(d[i as int] == dynamic@[i as int].parts());
                assert(s[j as int] == statics@[j as int].parts());
            }
            if hit {
                let ghost prev = cross@;
                cross.push((i, j));
                proof {
                    assert(cross@.last() == (i, j));
                    assert forall|a: usize, b: usize|
                        a < d.len() && b < s.len() && pair_before((a, b), (i, (j + 1) as usize))
                            && #[trigger] overlaps(d[a as int], s[b as int]) implies cross@.contains((a, b)) by {
                        if pair_before((a, b), (i, j)) {
                            assert(prev.contains((a, b)));
                            let k = choose|k: int| 0 <= k < prev.len() && prev[k] == (a, b);
                            assert(cross@[k] == (a, b));
                        } else {
                            assert(cross@[cross@.len() - 1] == (a, b));
                        }
                    }
                }
            } else {
                proof {
                    assert forall|a: usize, b: usize|
                        a < d.len() && b < s.len() && pair_before((a, b), (i, (j + 1) as usize))
                            && #[trigger] overlaps(d[a as int], s[b as int]) implies cross@.contains((a, b)) by {
                        if !pair_before((a, b), (i, j)) {
                            assert(a == i && b == j);
                        }
                    }
                }
            }
            j = j + 1;
        }
        proof {
            assert forall|a: usize, b: usize|
                a < d.len() && b < s.len() && a < i + 1 && #[trigger] overlaps(d[a as int], s[b as int])
                    implies cross@.contains((a, b)) by {
                assert(pair_before((a, b), (i, j)));
            }
        }
        i = i + 1;
    }
    cross
}

/// The entries of `s` whose flag in `f` is not set, in the order they had.
pub open spec fn kept<T>(s: Seq<T>, f: Seq<bool>) -> Seq<T>
    decreases s.len(),
{
    if s.len() == 0 {
        seq![]
    } else {
        let rest = kept(s.skip(1), f.skip(1));
        if f[0] {
            rest
        } else {
            seq![s[0]] + rest
        }
    }
}

/// The number of flags that are set.
pub open spec fn count_set(f: Seq<bool>) -> nat
    decreases f.len(),
{
    if f.len() == 0 {
        0
    } else {
        (if f[0] {
            1nat
        } else {
            0nat
        }) + count_set(f.skip(1))
    }
}

/// Removing the flagged entries shortens a sequence by the number of flags set.
pub proof fn lemma_kept_len<T>(s: Seq<T>, f: Seq<bool>)
    requires
        f.len() == s.len(),
    ensures
        kept(s, f).len() == s.len() - count_set(f),
    decreases s.len(),
{
    if s.len() > 0 {
        lemma_kept_len(s.skip(1), f.skip(1));
    }
}

/// With no flag set, nothing is counted.
pub proof fn lemma_count_none(f: Seq<bool>)
    requires
        forall|i: int| 0 <= i < f.len() ==> !f[i],
    ensures
        count_set(f) == 0,
    decreases f.len(),
{
    if f.len() > 0 {
        assert forall|i: int| 0 <= i < f.skip(1).len() implies !f.skip(1)[i] by {
            assert(f.skip(1)[i] == f[i + 1]);
        }
        lemma_count_none(f.skip(1));
    }
}

/// With exactly the flag at `k` set, one flag is counted.
pub proof fn lemma_count_one(f: Seq<bool>, k: int)
    requires
        0 <= k < f.len(),
        f[k],
        forall|i: int| 0 <= i < f.len() && i != k ==> !f[i],
    ensures
        count_set(f) == 1,
    decreases f.len(),
{
    if k == 0 {
        assert forall|i: int| 0 <= i < f.skip(1).len() implies !f.skip(1)[i] by {
            assert(f.skip(1)[i] == f[i + 1]);
        }
        lemma_count_none(f.skip(1));
    } else {
        assert forall|i: int| 0 <= i < f.skip(1).len() && i != k - 1 implies !f.skip(1)[i] by {
            assert(f.skip(1)[i] == f[i + 1]);
        }
        lemma_count_one(f.skip(1), k - 1);
    }
}

/// The entries of `s` from `i` on, with the flagged ones taken out, follow
/// entry `i` (unless it is flagged) by those from `i + 1` on.
proof fn lemma_kept_step<T>(s: Seq<T>, f: Seq<bool>, i: int)
    requires
        f.len() == s.len(),
        0 <= i < s.len(),
    ensures
        kept(s.skip(i), f.skip(i)) == if f[i] {
            kept(s.skip(i + 1), f.skip(i + 1))
        } else {
            seq![s[i]] + kept(s.skip(i + 1), f.skip(i + 1))
        },
{
    assert(s.skip(i).skip(1) =~= s.skip(i + 1));
    assert(f.skip(i).skip(1) =~= f.skip(i + 1));
}

/// Takes out of `v` every entry whose flag in `removed` is set, keeping the
/// order of the others.
pub fn remove_flagged<T>(v: &mut Vec<T>, removed: &Vec<bool>)
    requires
        removed@.len() == old(v)@.len(),
    ensures
        final(v)@ == kept(old(v)@, removed@),
{
    let ghost s = old(v)@;
    let ghost f = removed@;
    let mut i: usize = v.len();
    proof {
        assert(s.skip(s.len() as int) =~= seq![]);
        assert(s.take(s.len() as int) =~= s);
    }
    while i > 0
        invariant
            0 <= i <= s.len(),
            f == removed@,
            f.len() == s.len(),
            v@ == s.take(i as int) + kept(s.skip(i as int), f.skip(i as int)),
        decreases i,
    {
        i = i - 1;
        proof {
            lemma_kept_step(s, f, i as int);
            assert(s.take(i + 1) =~= s.take(i as int).push(s[i as int]));
        }
        if removed[i] {
            v.remove(i);
            proof {
                assert(v@ =~= s.take(i as int) + kept(s.skip(i as int), f.skip(i as int)));
            }
        } else {
            proof {
                assert(v@ =~= s.take(i as int) + kept(s.skip(i as int), f.skip(i as int)));
            }
        }
    }
    proof {
        assert(s.skip(0) =~= s);
        assert(f.skip(0) =~= f);
        assert(s.take(0) =~= seq![]);
        assert(v@ =~= kept(s, f));
    }
}

/// The entities of a game, split into a static group (never tested against
/// each other) and a dynamic group.
pub struct Scene<S, D, Ctx> where
    S: Entity<Ctx> + Collision<D, Ctx>,
    D: Entity<Ctx> + Collision<D, Ctx> + Collision<S, Ctx>,
 {
    static_entities: Vec<S>,
    dynamic_entities: Vec<D>,
    phantom: PhantomData<Ctx>,
}

impl<S, D, Ctx> Scene<S, D, Ctx> where
    S: Entity<Ctx> + Collision<D, Ctx>,
    D: Entity<Ctx> + Collision<D, Ctx> + Collision<S, Ctx>,
 {
    /// The static entities, in order.
    pub closed spec fn statics(&self) -> Seq<S> {
        self.static_entities@
    }

    /// The dynamic entities, in order.
    pub closed spec fn dynamics(&self) -> Seq<D> {
        self.dynamic_entities@
    }

    pub fn new() -> (s: Self)
        ensures
            s.statics() == Seq::<S>::empty(),
            s.dynamics() == Seq::<D>::empty(),
    {
        Scene { static_entities: Vec::new(), dynamic_entities: Vec::new(), phantom: PhantomData }
    }

    /// Adds an entity at the end of the static group.
    pub fn add_static<E: Into<S>>(&mut self, entity: E)
        ensures
            final(self).statics().len() == old(self).statics().len() + 1,
            final(self).statics().drop_last() == old(self).statics(),
            E::obeys_into_spec() ==> final(self).statics().last() == entity.into_spec(),
            final(self).dynamics() == old(self).dynamics(),
    {
        self.static_entities.push(entity.into());
        proof {
            assert(self.static_entities@.drop_last() =~= old(self).statics());
        }
    }

    /// Adds an entity at the end of the dynamic group.
    pub fn add_dynamic<E: Into<D>>(&mut self, entity: E)
        ensures
            final(self).dynamics().len() == old(self).dynamics().len() + 1,
            final(self).dynamics().drop_last() == old(self).dynamics(),
            E::obeys_into_spec() ==> final(self).dynamics().last() == entity.into_spec(),
            final(self).statics() == old(self).statics(),
    {
        self.dynamic_entities.push(entity.into());
        proof {
            assert(self.dynamic_entities@.drop_last() =~= old(self).dynamics());
        }
    }

    /// The static entities, in order.
    pub fn static_entities(&self) -> (r: &[S])
        ensures
            r@ == self.statics(),
    {
        self.static_entities.as_slice()
    }

    /// The dynamic entities, in order.
    pub fn dynamic_entities(&self) -> (r: &[D])
        ensures
            r@ == self.dynamics(),
    {
        self.dynamic_entities.as_slice()
    }

    /// Hands the input state to every entity, static ones first.
    pub fn input(&mut self, input: &InputManager)
        ensures
            final(self).statics().len() == old(self).statics().len(),
            final(self).dynamics().len() == old(self).dynamics().len(),
    {
        let mut i: usize = 0;
        while i < self.static_entities.len()
            invariant
                self.static_entities@.len() == old(self).statics().len(),
                self.dynamic_entities@.len() == old(self).dynamics().len(),
            decreases self.static_entities@.len() - i,
        {
            self.static_entities[i].input(input);
            i = i + 1;
        }
        let mut i: usize = 0;
        while i < self.dynamic_entities.len()
            invariant
                self.static_entities@.len() == old(self).statics().len(),
                self.dynamic_entities@.len() == old(self).dynamics().len(),
            decreases self.dynamic_entities@.len() - i,
        {
            self.dynamic_entities[i].input(input);
            i = i + 1;
        }
    }

    /// Runs every entity's `pre_update`, static ones first.
    pub fn pre_update(&mut self, ctx: &Ctx)
        ensures
            final(self).statics().len() == old(self).statics().len(),
            final(self).dynamics().len() == old(self).dynamics().len(),
    {
        let mut i: usize = 0;
        while i < self.static_entities.len()
            invariant
                self.static_entities@.len() == old(self).statics().len(),
                self.dynamic_entities@.len() == old(self).dynamics().len(),
            decreases self.static_entities@.len() - i,
        {
            self.static_entities[i].pre_update(ctx);
            i = i + 1;
        }
        let mut i: usize = 0;
        while i < self.dynamic_entities.len()
            invariant
                self.static_entities@.len() == old(self).statics().len(),
                self.dynamic_entities@.len() == old(self).dynamics().len(),
            decreases self.dynamic_entities@.len() - i,
        {
            self.dynamic_entities[i].pre_update(ctx);
            i = i + 1;
        }
    }

    /// Runs every entity's `update`, static ones first.
    pub fn update(&mut self, ctx: &mut Ctx, frame_time: Duration)
        ensures
            final(self).statics().len() == old(self).statics().len(),
            final(self).dynamics().len() == old(self).dynamics().len(),
    {
        let mut i: usize = 0;
        while i < self.static_entities.len()
            invariant
                self.static_entities@.len() == old(self).statics().len(),
                self.dynamic_entities@.len() == old(self).dynamics().len(),
            decreases self.static_entities@.len() - i,
        {
            self.static_entities[i].update(ctx, frame_time);
            i = i + 1;
        }
        let mut i: usize = 0;
        while i < self.dynamic_entities.len()
            invariant
                self.static_entities@.len() == old(self).statics().len(),
                self.dynamic_entities@.len() == old(self).dynamics().len(),
            decreases self.dynamic_entities@.len() - i,
        {
            self.dynamic_entities[i].update(ctx, frame_time);
            i = i + 1;
        }
    }

    /// Runs every entity's `post_update`, static ones first, then takes out of
    /// each group the entities that ask to be removed, keeping the order of
    /// the others.
    pub fn post_update(&mut self, ctx: &Ctx)
        ensures
            exists|updated: Seq<S>, removed: Seq<bool>|
                updated.len() == removed.len() == old(self).statics().len()
                    && final(self).statics() == kept(updated, removed),
            exists|updated: Seq<D>, removed: Seq<bool>|
                updated.len() == removed.len() == old(self).dynamics().len()
                    && final(self).dynamics() == kept(updated, removed),
            final(self).statics().len() <= old(self).statics().len(),
            final(self).dynamics().len() <= old(self).dynamics().len(),
    {
        let mut i: usize = 0;
        while i < self.static_entities.len()
            invariant
                self.static_entities@.len() == old(self).statics().len(),
                self.dynamic_entities@.len() == old(self).dynamics().len(),
            decreases self.static_entities@.len() - i,
        {
            self.static_entities[i].post_update(ctx);
            i = i + 1;
        }
        let mut i: usize = 0;
        while i < self.dynamic_entities.len()
            invariant
                self.static_entities@.len() == old(self).statics().len(),
                self.dynamic_entities@.len() == old(self).dynamics().len(),
            decreases self.dynamic_entities@.len() - i,
        {
            self.dynamic_entities[i].post_update(ctx);
            i = i + 1;
        }
        let static_flags = removal_flags(&self.static_entities);
        let dynamic_flags = removal_flags(&self.dynamic_entities);
        let ghost updated_statics = self.static_entities@;
        let ghost updated_dynamics = self.dynamic_entities@;
        proof {
            lemma_kept_len(updated_statics, static_flags@);
            lemma_kept_len(updated_dynamics, dynamic_flags@);
        }
        remove_flagged(&mut self.static_entities, &static_flags);
        remove_flagged(&mut self.dynamic_entities, &dynamic_flags);
        proof {
            assert(self.statics() == kept(updated_statics, static_flags@));
            assert(self.dynamics() == kept(updated_dynamics, dynamic_flags@));
        }
    }

    /// The regions of the static entities, in order.
    pub open spec fn static_regions(&self) -> Seq<Seq<Shape>> {
        self.statics().map_values(|e: S| e.region())
    }

    /// The regions of the dynamic entities, in order.
    pub open spec fn dynamic_regions(&self) -> Seq<Seq<Shape>> {
        self.dynamics().map_values(|e: D| e.region())
    }

    /// Detects the frame's collisions and resolves each pair in both
    /// directions: first the dynamic pairs in ascending order, each as
    /// `a.on_collision(b)` then `b.on_collision(a)` for `a` the lower index;
    /// then the dynamic-static pairs, the dynamic entity first. The pairs are
    /// found from the regions on entry, before any callback runs, and are
    /// returned. An entity in no pair is left as it was.
    pub fn collisions(&mut self, ctx: &mut Ctx) -> (r: CollisionPairs)
        ensures
            is_inner_pairs(r.dynamic@, old(self).dynamic_regions()),
            is_cross_pairs(r.dynamic_static@, old(self).dynamic_regions(), old(self).static_regions()),
            final(self).statics().len() == old(self).statics().len(),
            final(self).dynamics().len() == old(self).dynamics().len(),
            forall|x: usize|
                x < old(self).dynamics().len() && !names_first(r.dynamic@, x) && !names_second(
                    r.dynamic@,
                    x,
                ) && !names_first(r.dynamic_static@, x) ==> #[trigger] final(self).dynamics()[x as int]
                    == old(self).dynamics()[x as int],
            forall|y: usize|
                y < old(self).statics().len() && !names_second(r.dynamic_static@, y)
                    ==> #[trigger] final(self).statics()[y as int] == old(self).statics()[y as int],
            r.dynamic@.len() == 0 && r.dynamic_static@.len() == 0 ==> *final(self) == *old(self)
                && *final(ctx) == *old(ctx),
            old(self).dynamics().len() == 0 ==> *final(self) == *old(self) && *final(ctx) == *old(ctx),
    {
        let pairs = self.collision_pairs();
        let nd = self.dynamic_entities.len();
        let ns = self.static_entities.len();
        let mut k: usize = 0;
        while k < pairs.dynamic.len()
            invariant
                k <= pairs.dynamic@.len(),
                nd == old(self).dynamics().len(),
                ns == old(self).statics().len(),
                self.dynamic_entities@.len() == nd,
                self.static_entities@ == old(self).statics(),
                forall|q: int|
                    0 <= q < pairs.dynamic@.len() ==> #[trigger] pairs.dynamic@[q].0
                        < pairs.dynamic@[q].1 < nd,
                forall|x: usize|
                    x < nd && !names_first(pairs.dynamic@, x) && !names_second(pairs.dynamic@, x)
                        ==> #[trigger] self.dynamic_entities@[x as int] == old(self).dynamics()[x as int],
                k == 0 ==> *self == *old(self) && *ctx == *old(ctx),
            decreases pairs.dynamic@.len() - k,
        {
            let (i, j) = pairs.dynamic[k];
            let ghost before = self.dynamic_entities@;
            let (head, tail) = self.dynamic_entities.split_at_mut(j);
            let (front, from_i) = head.split_at_mut(i);
            match (from_i.first_mut(), tail.first_mut()) {
                (Some(a), Some(b)) => {
                    a.on_collision(b, ctx);
                    b.on_collision(a, ctx);
                },
                _ => {},
            }
            proof {
                assert forall|x: usize|
                    x < nd && !names_first(pairs.dynamic@, x) && !names_second(pairs.dynamic@, x)
                        implies #[trigger] self.dynamic_entities@[x as int] == old(self).dynamics()[x as int] by {
                    assert(pairs.dynamic@[k as int] == (i, j));
                    assert(x != i && x != j);
                    assert(self.dynamic_entities@[x as int] == before[x as int]);
                }
            }
            k = k + 1;
        }
        let mut k: usize = 0;
        while k < pairs.dynamic_static.len()
            invariant
                k <= pairs.dynamic_static@.len(),
                nd == old(self).dynamics().len(),
                ns == old(self).statics().len(),
                self.dynamic_entities@.len() == nd,
                self.static_entities@.len() == ns,
                forall|q: int|
                    0 <= q < pairs.dynamic_static@.len() ==> #[trigger] pairs.dynamic_static@[q].0 < nd
                        && pairs.dynamic_static@[q].1 < ns,
                forall|x: usize|
                    x < nd && !names_first(pairs.dynamic@, x) && !names_second(pairs.dynamic@, x)
                        && !names_first(pairs.dynamic_static@, x)
                        ==> #[trigger] self.dynamic_entities@[x as int] == old(self).dynamics()[x as int],
                forall|y: usize|
                    y < ns && !names_second(pairs.dynamic_static@, y)
                        ==> #[trigger] self.static_entities@[y as int] == old(self).statics()[y as int],
                k == 0 && pairs.dynamic@.len() == 0 ==> *self == *old(self) && *ctx == *old(ctx),
            decreases pairs.dynamic_static@.len() - k,
        {
            let (i, j) = pairs.dynamic_static[k];
            let ghost before_d = self.dynamic_entities@;
            let ghost before_s = self.static_entities@;
            let a = &mut self.dynamic_entities[i];
            let b = &mut self.static_entities[j];
            a.on_collision(b, ctx);
            b.on_collision(a, ctx);
            proof {
                assert(pairs.dynamic_static@[k as int] == (i, j));
                assert forall|x: usize|
                    x < nd && !names_first(pairs.dynamic@, x) && !names_second(pairs.dynamic@, x)
                        && !names_first(pairs.dynamic_static@, x)
                        implies #[trigger] self.dynamic_entities@[x as int] == old(self).dynamics()[x as int] by {
                    assert(x != i);
                    assert(self.dynamic_entities@[x as int] == before_d[x as int]);
                }
                assert forall|y: usize|
                    y < ns && !names_second(pairs.dynamic_static@, y)
                        implies #[trigger] self.static_entities@[y as int] == old(self).statics()[y as int] by {
                    assert(y != j);
                    assert(self.static_entities@[y as int] == before_s[y as int]);
                }
            }
            k = k + 1;
        }
        proof {
            if old(self).dynamics().len() == 0 {
                if pairs.dynamic@.len() > 0 {
                    assert(inner_hit(pairs.dynamic@[0], old(self).dynamic_regions()));
                }
                if pairs.dynamic_static@.len() > 0 {
                    assert(cross_hit(
                        pairs.dynamic_static@[0],
                        old(self).dynamic_regions(),
                        old(self).static_regions(),
                    ));
                }
            }
        }
        pairs
    }

    /// The pairs of this frame's entities whose regions overlap.
    fn collision_pairs(&self) -> (r: CollisionPairs)
        ensures
            is_inner_pairs(r.dynamic@, self.dynamic_regions()),
            is_cross_pairs(r.dynamic_static@, self.dynamic_regions(), self.static_regions()),
            forall|q: int|
                0 <= q < r.dynamic@.len() ==> #[trigger] r.dynamic@[q].0 < r.dynamic@[q].1
                    < self.dynamics().len(),
            forall|q: int|
                0 <= q < r.dynamic_static@.len() ==> #[trigger] r.dynamic_static@[q].0
                    < self.dynamics().len() && r.dynamic_static@[q].1 < self.statics().len(),
    {
        let mut dynamic_boxes: Vec<ShapeRef> = Vec::new();
        let mut i: usize = 0;
        while i < self.dynamic_entities.len()
            invariant
                i <= self.dynamic_entities@.len(),
                dynamic_boxes@.len() == i,
                forall|x: int| 0 <= x < i ==> #[trigger] dynamic_boxes@[x].parts() == self.dynamics()[x].region(),
            decreases self.dynamic_entities@.len() - i,
        {
            dynamic_boxes.push(self.dynamic_entities[i].bbox());
            i = i + 1;
        }
        let mut static_boxes: Vec<ShapeRef> = Vec::new();
        let mut i: usize = 0;
        while i < self.static_entities.len()
            invariant
                i <= self.static_entities@.len(),
                static_boxes@.len() == i,
                forall|x: int| 0 <= x < i ==> #[trigger] static_boxes@[x].parts() == self.statics()[x].region(),
            decreases self.static_entities@.len() - i,
        {
            static_boxes.push(self.static_entities[i].bbox());
            i = i + 1;
        }
        let r = broad_phase(dynamic_boxes.as_slice(), static_boxes.as_slice());
        proof {
            assert(regions(dynamic_boxes@) =~= self.dynamic_regions());
            assert(regions(static_boxes@) =~= self.static_regions());
            assert forall|q: int| 0 <= q < r.dynamic@.len() implies #[trigger] r.dynamic@[q].0
                < r.dynamic@[q].1 < self.dynamics().len() by {
                assert(inner_hit(r.dynamic@[q], regions(dynamic_boxes@)));
            }
            assert forall|q: int| 0 <= q < r.dynamic_static@.len() implies #[trigger] r.dynamic_static@[q].0
                < self.dynamics().len() && r.dynamic_static@[q].1 < self.statics().len() by {
                assert(cross_hit(r.dynamic_static@[q], regions(dynamic_boxes@), regions(static_boxes@)));
            }
        }
        r
    }

    /// Takes the static entity at `index` out of the scene; the last static
    /// entity takes its place. `None` when there is no such entity.
    pub fn remove_static(&mut self, index: usize) -> (r: Option<S>)
        ensures
            index < old(self).statics().len() ==> r == Some(old(self).statics()[index as int])
                && final(self).statics() == old(self).statics().update(index as int, old(self).statics().last()).drop_last(),
            index >= old(self).statics().len() ==> r is None
                && final(self).statics() == old(self).statics(),
            final(self).dynamics() == old(self).dynamics(),
    {
        if index < self.static_entities.len() {
            Some(self.static_entities.swap_remove(index))
        } else {
            None
        }
    }

    /// Takes the dynamic entity at `index` out of the scene; the last dynamic
    /// entity takes its place. `None` when there is no such entity.
    pub fn remove_dynamic(&mut self, index: usize) -> (r: Option<D>)
        ensures
            index < old(self).dynamics().len() ==> r == Some(old(self).dynamics()[index as int])
                && final(self).dynamics() == old(self).dynamics().update(index as int, old(self).dynamics().last()).drop_last(),
            index >= old(self).dynamics().len() ==> r is None
                && final(self).dynamics() == old(self).dynamics(),
            final(self).statics() == old(self).statics(),
    {
        if index < self.dynamic_entities.len() {
            Some(self.dynamic_entities.swap_remove(index))
        } else {
            None
        }
    }

    /// Draws every entity onto `canvas`: the static group first, so that the
    /// dynamic group is painted over it.
    pub fn draw<C>(&self, ctx: &Ctx, canvas: &mut C) where S: Draw<Ctx, C>, D: Draw<Ctx, C> {
        let mut i: usize = 0;
        while i < self.static_entities.len()
            decreases self.static_entities@.len() - i,
        {
            self.static_entities[i].draw(ctx, canvas);
            i = i + 1;
        }
        let mut i: usize = 0;
        while i < self.dynamic_entities.len()
            decreases self.dynamic_entities@.len() - i,
        {
            self.dynamic_entities[i].draw(ctx, canvas);
            i = i + 1;
        }
    }
}

/// For each entity, whether it asks to be removed.
fn removal_flags<T: Entity<Ctx>, Ctx>(v: &Vec<T>) -> (f: Vec<bool>)
    ensures
        f@.len() == v@.len(),
{
    let mut f: Vec<bool> = Vec::new();
    let mut i: usize = 0;
    while i < v.len()
        invariant
            i <= v@.len(),
            f@.len() == i,
        decreases v@.len() - i,
    {
        f.push(v[i].should_be_removed());
        i = i + 1;
    }
    f
}

/// Static entities are never paired with each other: with no dynamic entity,
/// the broad phase yields no pair at all, whatever the static regions.
pub proof fn no_static_pairing(
    statics: Seq<ShapeRef>,
    inner: Seq<(usize, usize)>,
    cross: Seq<(usize, usize)>,
)
    requires
        is_inner_pairs(inner, regions(Seq::<ShapeRef>::empty())),
        is_cross_pairs(cross, regions(Seq::<ShapeRef>::empty()), regions(statics)),
    ensures
        inner.len() == 0,
        cross.len() == 0,
{
    if inner.len() > 0 {
        assert(inner_hit(inner[0], regions(Seq::<ShapeRef>::empty())));
    }
    if cross.len() > 0 {
        assert(cross_hit(cross[0], regions(Seq::<ShapeRef>::empty()), regions(statics)));
    }
}

/// A dynamic region `i` that overlaps a static region `j` is listed exactly
/// once among the dynamic-static pairs, so each direction of its collision
/// is resolved exactly once.
pub proof fn cross_pair_listed_once(
    p: Seq<(usize, usize)>,
    d: Seq<Seq<Shape>>,
    s: Seq<Seq<Shape>>,
    i: usize,
    j: usize,
)
    requires
        is_cross_pairs(p, d, s),
        i < d.len(),
        j < s.len(),
        overlaps(d[i as int], s[j as int]),
    ensures
        p.contains((i, j)),
        forall|k: int, l: int|
            0 <= k < p.len() && 0 <= l < p.len() && p[k] == (i, j) && p[l] == (i, j) ==> k == l,
{
    assert forall|k: int, l: int|
        0 <= k < p.len() && 0 <= l < p.len() && p[k] == (i, j) && p[l] == (i, j) implies k == l by {
        if k < l {
            assert(pair_before(p[k], p[l]));
        } else if l < k {
            assert(pair_before(p[l], p[k]));
        }
    }
}

/// One dynamic region overlapping one static region: the dynamic-static pairs
/// are exactly `[(0, 0)]`, so that pair is resolved once in each direction.
pub proof fn single_cross_pair(p: Seq<(usize, usize)>, d: Seq<Seq<Shape>>, s: Seq<Seq<Shape>>)
    requires
        is_cross_pairs(p, d, s),
        d.len() == 1,
        s.len() == 1,
        overlaps(d[0], s[0]),
    ensures
        p == seq![(0usize, 0usize)],
{
    assert(overlaps(d[0usize as int], s[0usize as int]));
    assert(p.contains((0usize, 0usize)));
    assert forall|k: int| 0 <= k < p.len() implies p[k] == (0usize, 0usize) by {
        assert(cross_hit(p[k], d, s));
    }
    if p.len() > 1 {
        assert(pair_before(p[0], p[1]));
    }
    assert(p =~= seq![(0usize, 0usize)]);
}

/// Two overlapping dynamic regions `i < j` are listed exactly once among the
/// dynamic pairs.
pub proof fn inner_pair_listed_once(p: Seq<(usize, usize)>, d: Seq<Seq<Shape>>, i: usize, j: usize)
    requires
        is_inner_pairs(p, d),
        i < j < d.len(),
        overlaps(d[i as int], d[j as int]),
    ensures
        p.contains((i, j)),
        forall|k: int, l: int|
            0 <= k < p.len() && 0 <= l < p.len() && p[k] == (i, j) && p[l] == (i, j) ==> k == l,
{
    assert forall|k: int, l: int|
        0 <= k < p.len() && 0 <= l < p.len() && p[k] == (i, j) && p[l] == (i, j) implies k == l by {
        if k < l {
            assert(pair_before(p[k], p[l]));
        } else if l < k {
            assert(pair_before(p[l], p[k]));
        }
    }
}

/// The removal sweep keeps every entity when none asks to be removed.
pub proof fn sweep_keeps_all<T>(s: Seq<T>, removed: Seq<bool>)
    requires
        removed.len() == s.len(),
        forall|i: int| 0 <= i < removed.len() ==> !removed[i],
    ensures
        kept(s, removed) == s,
    decreases s.len(),
{
    if s.len() > 0 {
        assert forall|i: int| 0 <= i < removed.skip(1).len() implies !removed.skip(1)[i] by {
            assert(removed.skip(1)[i] == removed[i + 1]);
        }
        sweep_keeps_all(s.skip(1), removed.skip(1));
        assert(seq![s[0]] + s.skip(1) =~= s);
    }
}

/// The removal sweep takes out exactly one entity when exactly one asks to be
/// removed.
pub proof fn sweep_removes_one<T>(s: Seq<T>, removed: Seq<bool>, k: int)
    requires
        removed.len() == s.len(),
        0 <= k < s.len(),
        removed[k],
        forall|i: int| 0 <= i < removed.len() && i != k ==> !removed[i],
    ensures
        kept(s, removed).len() == s.len() - 1,
{
    lemma_count_one(removed, k);
    lemma_kept_len(s, removed);
}

} // verus!
