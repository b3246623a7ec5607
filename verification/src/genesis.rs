use vstd::prelude::*;
use crate::search::{first_match, lemma_first_match, lemma_first_match_step, lemma_first_match_prefix};

verus! {

/// Physics solvers of the simulation family.
pub const SOLVERS: [&'static str; 5] = ["rigid", "mpm", "sph", "fem", "pbd"];

/// Solvers that are implemented in the first sub-phase.
pub const SOLVERS_IMPLEMENTED_R1_1: [&'static str; 1] = ["rigid (cartpole closed-form)"];


/// The simulation phase whose physics solver is known.
pub open spec fn spec_solver_for_phase(phase: Seq<char>) -> Option<Seq<char>> {
    if phase == "R1.1"@ {
        Some("rigid"@)
    } else if phase == "R1.8"@ {
        Some("mpm"@)
    } else {
        None
    }
}

/// Solver coverage by sub-phase.
pub fn solver_for_phase(phase: &str) -> (r: Option<&'static str>)
    ensures
        r matches Some(s) ==> spec_solver_for_phase(phase@) == Some(s@),
        r is None ==> spec_solver_for_phase(phase@) is None,
{
    let p = phase.to_owned();
    let a = "R1.1".to_owned();
    if p == a {
        return Some("rigid");
    }
    let b = "R1.8".to_owned();
    if p == b {
        return Some("mpm");
    }
    None
}

/// Joint kinds of a 3-D articulation.
#[derive(Debug, Clone, Copy, PartialEq, Eq, Structural)]
pub enum JointType3d {
    Fixed,
    Revolute,
    Prismatic,
}

/// Constitutive models of the material-point continuum.
#[derive(Debug, Clone, Copy, PartialEq, Eq, Structural)]
pub enum MpmMaterial {
    /// Soft elastic (sealant, jelly); no plasticity.
    Elastic,
    /// Granular plasticity (concrete, soil); settles into a pile.
    Granular,
    /// Weakly compressible fluid (slurry); flows and spreads.
    Fluid,
}

/// Names equal to `name`.
pub open spec fn name_is(name: Seq<char>) -> spec_fn(String) -> bool {
    |n: String| n@ == name
}

/// Index of the first name equal to `name`, or -1 when there is none.
pub open spec fn first_name_index(names: Seq<String>, name: Seq<char>) -> int {
    first_match(names, name_is(name))
}

/// A read view of one articulation: the names of its actuated joints, one
/// per degree of freedom, in the order of the joint-position array.  A view
/// whose handle names no articulation has no joints.
pub struct ArticulationView {
    dofs: Option<Vec<String>>,
}

/// A write view of one articulation, over the same joints as its read view.
pub struct ArticulationViewMut {
    dofs: Option<Vec<String>>,
}

impl ArticulationView {
    /// A view over the actuated joints `dof_names`, or over nothing when
    /// the handle is not valid.
    pub fn new(dof_names: Option<Vec<String>>) -> (r: Self)
        ensures
            r.dof_seq() == match dof_names {
                Some(v) => v@,
                None => Seq::<String>::empty(),
            },
    {
        ArticulationView { dofs: dof_names }
    }

    /// The actuated joint names, in DOF order.
    pub closed spec fn dof_seq(&self) -> Seq<String> {
        match self.dofs {
            Some(v) => v@,
            None => Seq::empty(),
        }
    }

    /// Number of degrees of freedom.
    pub fn num_dof(&self) -> (r: usize)
        ensures
            r == self.dof_seq().len(),
    {
        match &self.dofs {
            Some(v) => v.len(),
            None => 0,
        }
    }

    /// The actuated joint names, one per degree of freedom.
    pub fn dof_names(&self) -> (r: Vec<String>)
        ensures
            r@ == self.dof_seq(),
    {
        let mut out: Vec<String> = Vec::new();
        match &self.dofs {
            Some(v) => {
                let mut i: usize = 0;
                while i < v.len()
                    invariant
                        i <= v.len(),
                        out@ =~= v@.take(i as int),
                    decreases v.len() - i,
                {
                    out.push(v[i].clone());
                    i = i + 1;
                }
                assert(v@.take(i as int) =~= v@);
            },
            None => {},
        }
        out
    }

    /// The DOF index of the actuated joint `dof_name`, if it is one.
    pub fn get_dof_index(&self, dof_name: &str) -> (r: Option<usize>)
        ensures
            r matches Some(i) ==> i == first_name_index(self.dof_seq(), dof_name@),
            r is None ==> first_name_index(self.dof_seq(), dof_name@) == -1,
    {
        match &self.dofs {
            Some(v) => {
                let name = dof_name.to_owned();
                let mut j: usize = 0;
                while j < v.len()
                    invariant
                        j <= v.len(),
                        name@ == dof_name@,
                        self.dof_seq() == v@,
                        first_name_index(v@.take(j as int), dof_name@) == -1,
                    decreases v.len() - j,
                {
                    proof { lemma_first_match_step(v@, name_is(dof_name@), j as int); }
                    if v[j] == name {
                        proof { lemma_first_match_prefix(v@, name_is(dof_name@), j + 1); }
                        return Some(j);
                    }
                    j = j + 1;
                }
                assert(v@.take(j as int) =~= v@);
                None
            },
            None => None,
        }
    }
}

impl ArticulationViewMut {
    /// A write view over the actuated joints `dof_names`, or over nothing
    /// when the handle is not valid.
    pub fn new(dof_names: Option<Vec<String>>) -> (r: Self)
        ensures
            r.dof_seq() == match dof_names {
                Some(v) => v@,
                None => Seq::<String>::empty(),
            },
    {
        ArticulationViewMut { dofs: dof_names }
    }

    /// The actuated joint names, in DOF order.
    pub closed spec fn dof_seq(&self) -> Seq<String> {
        match self.dofs {
            Some(v) => v@,
            None => Seq::empty(),
        }
    }
}

/// A joint's index names that joint: the name at the index a lookup
/// returns is the name looked up, and no earlier joint has that name.
pub proof fn lemma_dof_index_names_joint(names: Seq<String>, name: Seq<char>)
    ensures
        -1 <= first_name_index(names, name) < names.len(),
        first_name_index(names, name) >= 0 ==> names[first_name_index(names, name)]@ == name,
        forall|j: int|
            0 <= j < names.len() && (first_name_index(names, name) < 0 || j < first_name_index(names, name))
                ==> (#[trigger] names[j])@ != name,
{
    lemma_first_match(names, name_is(name));
    assert forall|j: int|
        0 <= j < names.len() && (first_name_index(names, name) < 0 || j < first_name_index(names, name))
            implies (#[trigger] names[j])@ != name by {
        assert(!name_is(name)(names[j]));
    }
}


// ── Link order of an articulated system ──

/// The links that joints name as children of `p`, in joint order; a joint
/// is a (parent link, child link) pair of link indices.
pub open spec fn children_of(joints: Seq<(usize, usize)>, p: usize) -> Seq<usize>
    decreases joints.len(),
{
    if joints.len() == 0 {
        Seq::empty()
    } else if joints.last().0 == p {
        children_of(joints.drop_last(), p).push(joints.last().1)
    } else {
        children_of(joints.drop_last(), p)
    }
}

/// The next breadth-first level: the children of each link of `level`, in
/// the order of `level`.
pub open spec fn next_level(joints: Seq<(usize, usize)>, level: Seq<usize>) -> Seq<usize>
    decreases level.len(),
{
    if level.len() == 0 {
        Seq::empty()
    } else {
        next_level(joints, level.drop_last()) + children_of(joints, level.last())
    }
}

/// The level `d` steps below `level`.
pub open spec fn level_at(joints: Seq<(usize, usize)>, level: Seq<usize>, d: nat) -> Seq<usize>
    decreases d,
{
    if d == 0 {
        level
    } else {
        level_at(joints, next_level(joints, level), (d - 1) as nat)
    }
}

/// `fuel` levels from `level` on, one after another.
pub open spec fn bfs_levels(joints: Seq<(usize, usize)>, level: Seq<usize>, fuel: nat) -> Seq<usize>
    decreases fuel,
{
    if fuel == 0 {
        Seq::empty()
    } else {
        level + bfs_levels(joints, next_level(joints, level), (fuel - 1) as nat)
    }
}

/// Breadth-first order of the links from `root`: the root, its children,
/// their children, and so on, each level in the order of its parents and
/// each parent's children in joint order.
pub open spec fn bfs_order(n_links: usize, joints: Seq<(usize, usize)>, root: usize) -> Seq<usize> {
    bfs_levels(joints, seq![root], n_links as nat)
}

/// Whether some joint has link `i` as its child.
pub open spec fn has_parent_joint(joints: Seq<(usize, usize)>, i: usize) -> bool {
    exists|k: int| 0 <= k < joints.len() && (#[trigger] joints[k]).1 == i
}

/// Links that no joint has as a child.
pub open spec fn is_base(joints: Seq<(usize, usize)>) -> spec_fn(usize) -> bool {
    |i: usize| !has_parent_joint(joints, i)
}

/// The link indices 0 .. n.
pub open spec fn link_ids(n: usize) -> Seq<usize> {
    Seq::new(n as nat, |i: int| i as usize)
}

/// The root link: the first link that is no joint's child, or link 0 when
/// every link is.
pub open spec fn root_of(n_links: usize, joints: Seq<(usize, usize)>) -> usize {
    let f = first_match(link_ids(n_links), is_base(joints));
    if f >= 0 {
        f as usize
    } else {
        0
    }
}

fn children_list(joints: &Vec<(usize, usize)>, p: usize) -> (r: Vec<usize>)
    ensures
        r@ == children_of(joints@, p),
{
    let mut r: Vec<usize> = Vec::new();
    let mut k: usize = 0;
    while k < joints.len()
        invariant
            k <= joints@.len(),
            r@ == children_of(joints@.take(k as int), p),
        decreases joints@.len() - k,
    {
        assert(joints@.take(k + 1).drop_last() =~= joints@.take(k as int));
        let (a, b) = joints[k];
        if a == p {
            r.push(b);
        }
        k = k + 1;
    }
    assert(joints@.take(k as int) =~= joints@);
    r
}

fn next_level_list(joints: &Vec<(usize, usize)>, level: &Vec<usize>) -> (r: Vec<usize>)
    ensures
        r@ == next_level(joints@, level@),
{
    let mut r: Vec<usize> = Vec::new();
    let mut i: usize = 0;
    while i < level.len()
        invariant
            i <= level@.len(),
            r@ == next_level(joints@, level@.take(i as int)),
        decreases level@.len() - i,
    {
        assert(level@.take(i + 1).drop_last() =~= level@.take(i as int));
        let mut c = children_list(joints, level[i]);
        r.append(&mut c);
        i = i + 1;
    }
    assert(level@.take(i as int) =~= level@);
    r
}

fn has_parent(joints: &Vec<(usize, usize)>, i: usize) -> (r: bool)
    ensures
        r == has_parent_joint(joints@, i),
{
    let mut k: usize = 0;
    while k < joints.len()
        invariant
            k <= joints@.len(),
            forall|m: int| 0 <= m < k ==> (#[trigger] joints@[m]).1 != i,
        decreases joints@.len() - k,
    {
        if joints[k].1 == i {
            return true;
        }
        k = k + 1;
    }
    false
}

/// The root link: the first link that no joint has as its child, or link
/// 0 when every link is one.
pub fn root_link(n_links: usize, joints: &Vec<(usize, usize)>) -> (r: usize)
    ensures
        r == root_of(n_links, joints@),
{
    let ghost ids = link_ids(n_links);
    proof { lemma_first_match(ids, is_base(joints@)); }
    let mut i: usize = 0;
    while i < n_links
        invariant
            i <= n_links,
            ids == link_ids(n_links),
            first_match(ids.take(i as int), is_base(joints@)) == -1,
        decreases n_links - i,
    {
        proof { lemma_first_match_step(ids, is_base(joints@), i as int); }
        if !has_parent(joints, i) {
            proof { lemma_first_match_prefix(ids, is_base(joints@), i + 1); }
            return i;
        }
        i = i + 1;
    }
    assert(ids.take(i as int) =~= ids);
    0
}

/// The order in which an articulated system's links become bodies:
/// breadth-first from the root link, so that every link comes after its
/// parent.  `joints` are (parent, child) link-index pairs.  The search has
/// to end, so no joint cycle may be reachable from the root: no link
/// lies `n_links` levels below it.
pub fn link_order(n_links: usize, joints: &Vec<(usize, usize)>) -> (order: Vec<usize>)
    requires
        n_links > 0,
        forall|j: int| 0 <= j < joints@.len() ==> (#[trigger] joints@[j]).0 < n_links && joints@[j].1 < n_links,
        level_at(joints@, seq![root_of(n_links, joints@)], n_links as nat).len() == 0,
    ensures
        order@ == bfs_order(n_links, joints@, root_of(n_links, joints@)),
{
    let root = root_link(n_links, joints);
    let ghost total = bfs_order(n_links, joints@, root);
    let mut level: Vec<usize> = Vec::new();
    level.push(root);
    let mut order: Vec<usize> = Vec::new();
    let mut fuel: usize = n_links;
    assert(level@ =~= seq![root]);
    while fuel > 0
        invariant
            fuel <= n_links,
            order@ + bfs_levels(joints@, level@, fuel as nat) == total,
            total == bfs_order(n_links, joints@, root),
        decreases fuel,
    {
        let mut next = next_level_list(joints, &level);
        let ghost before = order@;
        let ghost lv = level@;
        order.append(&mut level);
        assert(before + bfs_levels(joints@, lv, fuel as nat) =~= order@ + bfs_levels(joints@, next@, (fuel - 1) as nat));
        level = next;
        fuel = fuel - 1;
    }
    assert(order@ + bfs_levels(joints@, level@, 0) =~= order@);
    order
}

/// Each child listed for `p` comes from a joint whose parent is `p`.
proof fn lemma_children_have_parents(joints: Seq<(usize, usize)>, p: usize, t: int)
    requires
        0 <= t < children_of(joints, p).len(),
    ensures
        exists|k: int| 0 <= k < joints.len() && joints[k].0 == p && joints[k].1 == children_of(joints, p)[t],
    decreases joints.len(),
{
    let r = children_of(joints.drop_last(), p);
    if joints.last().0 == p && t == r.len() {
        assert(joints[joints.len() - 1].0 == p);
    } else {
        lemma_children_have_parents(joints.drop_last(), p, t);
        let k = choose|k: int| 0 <= k < joints.drop_last().len() && joints.drop_last()[k].0 == p
            && joints.drop_last()[k].1 == children_of(joints.drop_last(), p)[t];
        assert(joints[k] == joints.drop_last()[k]);
    }
}

proof fn lemma_next_level_has_parents(joints: Seq<(usize, usize)>, level: Seq<usize>, t: int)
    requires
        0 <= t < next_level(joints, level).len(),
    ensures
        exists|m: int, k: int|
            0 <= m < level.len() && 0 <= k < joints.len() && joints[k].0 == level[m] && joints[k].1
                == next_level(joints, level)[t],
    decreases level.len(),
{
    let a = next_level(joints, level.drop_last());
    let c = children_of(joints, level.last());
    if t < a.len() {
        lemma_next_level_has_parents(joints, level.drop_last(), t);
        let (m, k) = choose|m: int, k: int|
            0 <= m < level.drop_last().len() && 0 <= k < joints.len() && joints[k].0
                == level.drop_last()[m] && joints[k].1 == a[t];
        assert(level[m] == level.drop_last()[m]);
        assert(next_level(joints, level)[t] == a[t]);
    } else {
        lemma_children_have_parents(joints, level.last(), t - a.len());
        let k = choose|k: int| 0 <= k < joints.len() && joints[k].0 == level.last() && joints[k].1
            == c[t - a.len()];
        assert(next_level(joints, level)[t] == c[t - a.len()]);
        assert(level[level.len() - 1] == level.last());
    }
}

proof fn lemma_levels_parents_first(joints: Seq<(usize, usize)>, level: Seq<usize>, fuel: nat, i: int)
    requires
        level.len() <= i < bfs_levels(joints, level, fuel).len(),
    ensures
        exists|j: int, k: int|
            0 <= j < i && 0 <= k < joints.len() && joints[k].0 == bfs_levels(joints, level, fuel)[j]
                && joints[k].1 == bfs_levels(joints, level, fuel)[i],
    decreases fuel,
{
    let next = next_level(joints, level);
    let rest = bfs_levels(joints, next, (fuel - 1) as nat);
    let all = bfs_levels(joints, level, fuel);
    assert(all == level + rest);
    let t = i - level.len();
    if t < next.len() {
        assert(rest == next + bfs_levels(joints, next_level(joints, next), (fuel - 2) as nat));
        assert(rest[t] == next[t]);
        lemma_next_level_has_parents(joints, level, t);
        let (m, k) = choose|m: int, k: int|
            0 <= m < level.len() && 0 <= k < joints.len() && joints[k].0 == level[m] && joints[k].1
                == next[t];
        assert(all[m] == level[m]);
        assert(all[i] == rest[t]);
    } else {
        lemma_levels_parents_first(joints, next, (fuel - 1) as nat, t);
        let (j, k) = choose|j: int, k: int|
            0 <= j < t && 0 <= k < joints.len() && joints[k].0 == rest[j] && joints[k].1 == rest[t];
        assert(all[j + level.len()] == rest[j]);
        assert(all[i] == rest[t]);
    }
}

/// Parents come before children: every link after the root in the order
/// is the child, by some joint, of a link placed before it.
pub proof fn lemma_parents_come_first(n_links: usize, joints: Seq<(usize, usize)>, root: usize, i: int)
    requires
        0 < i < bfs_order(n_links, joints, root).len(),
    ensures
        exists|j: int, k: int|
            0 <= j < i && 0 <= k < joints.len() && joints[k].0 == bfs_order(n_links, joints, root)[j]
                && joints[k].1 == bfs_order(n_links, joints, root)[i],
{
    lemma_levels_parents_first(joints, seq![root], n_links as nat, i);
}
} // verus!
