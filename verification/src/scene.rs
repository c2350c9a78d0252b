//! The static node hierarchy of the default scene, and its depth-first order.

use vstd::prelude::*;
use crate::error::MeshLoadError;
use crate::matrix::Mat4;

verus! {

/// One element of the scene hierarchy.
#[derive(Debug)]
pub struct Node {
    pub name: Option<String>,
    /// The static local transform.
    pub matrix: Mat4,
    /// The mesh this node carries, as an index into the document's meshes.
    pub mesh: Option<usize>,
    /// The camera this node carries, as an index into the model's cameras.
    pub camera: Option<usize>,
    pub skin: Option<usize>,
    pub children: Vec<usize>,
}

/// One step of the depth-first walk: a node, the node it was reached from,
/// and how many levels below a root it lies.
#[derive(Clone, Copy, Debug, PartialEq, Eq)]
pub struct Visit {
    pub node: usize,
    pub parent: Option<usize>,
    pub depth: usize,
}

/// The default scene: the node arena, the roots, the names of the cameras
/// that nodes refer to, and the depth-first pre-order walk from the roots.
#[derive(Debug)]
pub struct Scene {
    pub nodes: Vec<Node>,
    pub roots: Vec<usize>,
    pub camera_names: Vec<Option<String>>,
    /// How many meshes the document has.
    pub mesh_count: usize,
    pub order: Vec<Visit>,
}

/// The pre-order walk of the subtree at `n`: the node itself, then the walks
/// of its children in their order. A node that does not exist, or one that
/// lies `nodes.len()` levels deep, is listed and not entered.
pub open spec fn subtree(nodes: Seq<Node>, n: usize, parent: Option<usize>, depth: nat) -> Seq<Visit>
    decreases nodes.len() - depth, 0nat,
{
    let visit = Visit { node: n, parent, depth: depth as usize };
    if n < nodes.len() && depth < nodes.len() {
        seq![visit] + forest(nodes, nodes[n as int].children@, Some(n), depth + 1)
    } else {
        seq![visit]
    }
}

/// The walks of the subtrees at `list`, one after the other.
pub open spec fn forest(nodes: Seq<Node>, list: Seq<usize>, parent: Option<usize>, depth: nat) -> Seq<
    Visit,
>
    decreases nodes.len() - depth, list.len() + 1,
{
    if list.len() == 0 {
        Seq::empty()
    } else {
        forest(nodes, list.drop_last(), parent, depth) + subtree(nodes, list.last(), parent, depth)
    }
}

/// A walk over `count` nodes that ends: every visited node exists and lies
/// less than `count` levels deep. A walk that reaches a node of itself again
/// goes deeper than that, and only such a walk does.
pub open spec fn acceptable(visits: Seq<Visit>, count: nat) -> bool {
    forall|k: int|
        0 <= k < visits.len() ==> (#[trigger] visits[k]).node < count && visits[k].depth < count
}

/// No node is visited twice: the walk is that of a forest.
pub open spec fn visited_once(visits: Seq<Visit>) -> bool {
    forall|j: int, k: int|
        0 <= j < k < visits.len() ==> (#[trigger] visits[j]).node != (#[trigger] visits[k]).node
}

/// The mesh, the camera and the children that a node refers to exist.
pub open spec fn refers_within(node: Node, count: nat, mesh_count: nat, camera_count: nat) -> bool {
    &&& node.mesh matches Some(m) ==> m < mesh_count
    &&& node.camera matches Some(c) ==> c < camera_count
    &&& forall|i: int| 0 <= i < node.children@.len() ==> #[trigger] node.children@[i] < count
}

/// Every node refers to meshes, cameras and children that exist, and every
/// root exists.
pub open spec fn all_refer_within(
    nodes: Seq<Node>,
    roots: Seq<usize>,
    mesh_count: nat,
    camera_count: nat,
) -> bool {
    &&& forall|i: int|
        0 <= i < nodes.len() ==> refers_within(
            #[trigger] nodes[i],
            nodes.len(),
            mesh_count,
            camera_count,
        )
    &&& forall|i: int| 0 <= i < roots.len() ==> #[trigger] roots[i] < nodes.len()
}

/// A walk that is acceptable stays so when its tail is cut off.
pub proof fn lemma_acceptable_prefix(head: Seq<Visit>, tail: Seq<Visit>, count: nat)
    requires
        acceptable(head + tail, count),
    ensures
        acceptable(head, count),
{
    let whole = head + tail;
    assert forall|k: int| 0 <= k < head.len() implies (#[trigger] head[k]).node < count && head[k].depth
        < count by {
        assert(whole[k] == head[k]);
    }
}

/// The walk of a list of subtrees is the walk of its first `i` followed by
/// the walk of the rest.
pub proof fn lemma_forest_split(
    nodes: Seq<Node>,
    list: Seq<usize>,
    parent: Option<usize>,
    depth: nat,
    i: int,
)
    requires
        0 <= i <= list.len(),
    ensures
        forest(nodes, list, parent, depth) == forest(nodes, list.take(i), parent, depth) + forest(
            nodes,
            list.skip(i),
            parent,
            depth,
        ),
    decreases list.len(),
{
    if i == list.len() {
        assert(list.take(i) =~= list);
        assert(list.skip(i) =~= Seq::<usize>::empty());
        assert(forest(nodes, list, parent, depth) + Seq::<Visit>::empty() =~= forest(
            nodes,
            list,
            parent,
            depth,
        ));
    } else {
        let front = list.drop_last();
        lemma_forest_split(nodes, front, parent, depth, i);
        assert(front.take(i) =~= list.take(i));
        assert(list.skip(i).drop_last() =~= front.skip(i));
        assert(list.skip(i).last() == list.last());
        let a = forest(nodes, list.take(i), parent, depth);
        let b = forest(nodes, front.skip(i), parent, depth);
        let c = subtree(nodes, list.last(), parent, depth);
        assert((a + b) + c =~= a + (b + c));
    }
}

/// The walk of the first `i + 1` subtrees is the walk of the first `i`
/// followed by the walk of the next one.
pub proof fn lemma_forest_next(
    nodes: Seq<Node>,
    list: Seq<usize>,
    parent: Option<usize>,
    depth: nat,
    i: int,
)
    requires
        0 <= i < list.len(),
    ensures
        forest(nodes, list.take(i + 1), parent, depth) == forest(nodes, list.take(i), parent, depth)
            + subtree(nodes, list[i], parent, depth),
{
    assert(list.take(i + 1).drop_last() =~= list.take(i));
    assert(list.take(i + 1).last() == list[i]);
}

/// Every visit of a walk was reached from the node the walk started under,
/// or from a node that exists.
pub proof fn lemma_forest_parents(
    nodes: Seq<Node>,
    list: Seq<usize>,
    parent: Option<usize>,
    depth: nat,
    k: int,
)
    requires
        0 <= k < forest(nodes, list, parent, depth).len(),
    ensures
        forest(nodes, list, parent, depth)[k].parent == parent || (forest(
            nodes,
            list,
            parent,
            depth,
        )[k].parent matches Some(p) && p < nodes.len()),
    decreases nodes.len() - depth, list.len() + 1,
{
    let front = forest(nodes, list.drop_last(), parent, depth);
    if k < front.len() {
        lemma_forest_parents(nodes, list.drop_last(), parent, depth, k);
    } else {
        let n = list.last();
        let here = subtree(nodes, n, parent, depth);
        let at = k - front.len();
        if at > 0 {
            lemma_forest_parents(nodes, nodes[n as int].children@, Some(n), depth + 1, at - 1);
        }
    }
}

/// Every visit of a walk was reached from the node the walk started under,
/// or from a node that the walk visits before it. Gives the place of that
/// earlier visit, and `-1` in the first case.
pub proof fn lemma_forest_parent_before(
    nodes: Seq<Node>,
    list: Seq<usize>,
    parent: Option<usize>,
    depth: nat,
    k: int,
) -> (j: int)
    requires
        0 <= k < forest(nodes, list, parent, depth).len(),
    ensures
        ({
            let walk = forest(nodes, list, parent, depth);
            ||| j == -1 && walk[k].parent == parent
            ||| 0 <= j < k && walk[k].parent == Some(walk[j].node)
        }),
    decreases nodes.len() - depth, list.len() + 1,
{
    let front = forest(nodes, list.drop_last(), parent, depth);
    if k < front.len() {
        lemma_forest_parent_before(nodes, list.drop_last(), parent, depth, k)
    } else {
        let n = list.last();
        let at = k - front.len();
        let here = subtree(nodes, n, parent, depth);
        assert(forest(nodes, list, parent, depth) == front + here);
        if at == 0 {
            -1
        } else {
            assert(here.len() > 1);
            assert(n < nodes.len() && depth < nodes.len());
            let below = forest(nodes, nodes[n as int].children@, Some(n), depth + 1);
            assert(here == seq![Visit { node: n, parent, depth: depth as usize }] + below);
            let inner = lemma_forest_parent_before(
                nodes,
                nodes[n as int].children@,
                Some(n),
                depth + 1,
                at - 1,
            );
            if inner == -1 {
                front.len() as int
            } else {
                front.len() + 1 + inner
            }
        }
    }
}

/// One line of a printed node tree.
#[derive(Debug)]
pub struct TreeLine {
    /// How many levels the line is indented.
    pub indent: usize,
    pub index: usize,
    pub name: Option<String>,
    pub camera: bool,
    pub mesh: bool,
    pub skin: bool,
}

impl TreeLine {
    /// The line describes the node of `visit`.
    pub open spec fn describes(&self, nodes: Seq<Node>, visit: Visit) -> bool {
        let node = nodes[visit.node as int];
        &&& self.indent == visit.depth
        &&& self.index == visit.node
        &&& self.name == node.name
        &&& self.camera == node.camera is Some
        &&& self.mesh == node.mesh is Some
        &&& self.skin == node.skin is Some
    }
}

/// Appends the walk of the subtrees at `list` to `out`, and stops at the
/// first visit that a walk that ends does not have.
fn descend(
    nodes: &Vec<Node>,
    list: &Vec<usize>,
    parent: Option<usize>,
    depth: usize,
    out: &mut Vec<Visit>,
) -> (ok: bool)
    requires
        depth <= nodes@.len(),
        acceptable(old(out)@, nodes@.len() as nat),
    ensures
        ok ==> final(out)@ == old(out)@ + forest(nodes@, list@, parent, depth as nat),
        ok ==> acceptable(final(out)@, nodes@.len() as nat),
        !ok ==> !acceptable(
            old(out)@ + forest(nodes@, list@, parent, depth as nat),
            nodes@.len() as nat,
        ),
    decreases nodes@.len() - depth,
{
    let ghost out0 = out@;
    let ghost count = nodes@.len() as nat;
    let mut i: usize = 0;
    proof {
        assert(list@.take(0) =~= Seq::<usize>::empty());
        assert(out0 + forest(nodes@, list@.take(0), parent, depth as nat) =~= out0);
    }
    while i < list.len()
        invariant
            i <= list@.len(),
            depth <= nodes@.len(),
            count == nodes@.len(),
            out0 == old(out)@,
            out@ == out0 + forest(nodes@, list@.take(i as int), parent, depth as nat),
            acceptable(out@, count),
        decreases list@.len() - i,
    {
        let n = list[i];
        let ghost cur = out@;
        let ghost visit = Visit { node: n, parent, depth };
        proof {
            lemma_forest_split(nodes@, list@, parent, depth as nat, i + 1);
            lemma_forest_next(nodes@, list@, parent, depth as nat, i as int);
            let rest = forest(nodes@, list@.skip(i + 1), parent, depth as nat);
            let here = subtree(nodes@, n, parent, depth as nat);
            assert(out0 + forest(nodes@, list@, parent, depth as nat) =~= (cur + here) + rest);
            if acceptable(out0 + forest(nodes@, list@, parent, depth as nat), count) {
                lemma_acceptable_prefix(cur + here, rest, count);
            }
            assert(here[0] == visit);
            assert((cur + here)[cur.len() as int] == visit);
        }
        if n >= nodes.len() || depth >= nodes.len() {
            return false;
        }
        out.push(Visit { node: n, parent, depth });
        proof {
            assert(out@ =~= cur + seq![visit]);
            assert forall|k: int| 0 <= k < out@.len() implies (#[trigger] out@[k]).node < count
                && out@[k].depth < count by {
                if k < cur.len() {
                    assert(out@[k] == cur[k]);
                }
            }
        }
        let ghost entered = out@;
        let ok = descend(nodes, &nodes[n].children, Some(n), depth + 1, out);
        proof {
            let below = forest(nodes@, nodes@[n as int].children@, Some(n), (depth + 1) as nat);
            let here = subtree(nodes@, n, parent, depth as nat);
            assert(here == seq![visit] + below);
            assert(entered + below =~= cur + here);
        }
        if !ok {
            return false;
        }
        i += 1;
    }
    proof {
        assert(list@.take(i as int) =~= list@);
    }
    true
}

/// Walks the hierarchy depth first from the roots, if that walk ends.
pub fn walk_from(nodes: &Vec<Node>, roots: &Vec<usize>) -> (r: Option<Vec<Visit>>)
    ensures
        match r {
            Some(order) => order@ == Scene::walk(nodes@, roots@) && acceptable(
                order@,
                nodes@.len(),
            ),
            None => !acceptable(Scene::walk(nodes@, roots@), nodes@.len()),
        },
{
    let mut order: Vec<Visit> = Vec::new();
    let ok = descend(nodes, roots, None, 0, &mut order);
    assert(Seq::<Visit>::empty() + Scene::walk(nodes@, roots@) =~= Scene::walk(nodes@, roots@));
    if ok {
        Some(order)
    } else {
        None
    }
}

/// The node tree as lines to print: one per visit of the walk from the
/// roots, indented by its depth, with the node's index, its name, and what
/// it carries. There are no lines where the walk does not end.
pub fn debug_node_tree(nodes: &Vec<Node>, roots: &Vec<usize>) -> (r: Option<Vec<TreeLine>>)
    ensures
        match r {
            Some(lines) => {
                let walk = Scene::walk(nodes@, roots@);
                &&& acceptable(walk, nodes@.len())
                &&& lines@.len() == walk.len()
                &&& forall|k: int|
                    0 <= k < lines@.len() ==> (#[trigger] lines@[k]).describes(nodes@, walk[k])
            },
            None => !acceptable(Scene::walk(nodes@, roots@), nodes@.len()),
        },
{
    let order = match walk_from(nodes, roots) {
        Some(order) => order,
        None => {
            return None;
        },
    };
    let mut lines: Vec<TreeLine> = Vec::new();
    let mut k: usize = 0;
    while k < order.len()
        invariant
            k <= order@.len(),
            acceptable(order@, nodes@.len()),
            lines@.len() == k,
            forall|j: int| 0 <= j < k ==> (#[trigger] lines@[j]).describes(nodes@, order@[j]),
        decreases order@.len() - k,
    {
        let visit = order[k];
        let node = &nodes[visit.node];
        lines.push(
            TreeLine {
                indent: visit.depth,
                index: visit.node,
                name: node.name.clone(),
                camera: node.camera.is_some(),
                mesh: node.mesh.is_some(),
                skin: node.skin.is_some(),
            },
        );
        k += 1;
    }
    Some(lines)
}

/// Whether the mesh, the camera and the children of a node exist.
fn check_node(node: &Node, count: usize, mesh_count: usize, camera_count: usize) -> (r: bool)
    ensures
        r == refers_within(*node, count as nat, mesh_count as nat, camera_count as nat),
{
    let mesh_ok = match node.mesh {
        Some(m) => m < mesh_count,
        None => true,
    };
    let camera_ok = match node.camera {
        Some(c) => c < camera_count,
        None => true,
    };
    if !mesh_ok || !camera_ok {
        return false;
    }
    all_below(&node.children, count)
}

/// Whether every index of a list lies below `count`.
fn all_below(list: &Vec<usize>, count: usize) -> (r: bool)
    ensures
        r == forall|i: int| 0 <= i < list@.len() ==> #[trigger] list@[i] < count,
{
    let mut i: usize = 0;
    while i < list.len()
        invariant
            i <= list@.len(),
            forall|j: int| 0 <= j < i ==> #[trigger] list@[j] < count,
        decreases list@.len() - i,
    {
        if list[i] >= count {
            return false;
        }
        i += 1;
    }
    true
}

/// Whether every reference of the hierarchy exists.
fn check_references(
    nodes: &Vec<Node>,
    roots: &Vec<usize>,
    mesh_count: usize,
    camera_count: usize,
) -> (r: bool)
    ensures
        r == all_refer_within(nodes@, roots@, mesh_count as nat, camera_count as nat),
{
    let mut i: usize = 0;
    while i < nodes.len()
        invariant
            i <= nodes@.len(),
            forall|j: int|
                0 <= j < i ==> refers_within(
                    #[trigger] nodes@[j],
                    nodes@.len(),
                    mesh_count as nat,
                    camera_count as nat,
                ),
        decreases nodes@.len() - i,
    {
        if !check_node(&nodes[i], nodes.len(), mesh_count, camera_count) {
            assert(!refers_within(
                nodes@[i as int],
                nodes@.len(),
                mesh_count as nat,
                camera_count as nat,
            ));
            return false;
        }
        i += 1;
    }
    all_below(roots, nodes.len())
}

/// Whether two walks are the same, visit for visit.
fn same_walk(a: &Vec<Visit>, b: &Vec<Visit>) -> (r: bool)
    ensures
        r == (a@ == b@),
{
    if a.len() != b.len() {
        return false;
    }
    let mut i: usize = 0;
    while i < a.len()
        invariant
            i <= a@.len(),
            a@.len() == b@.len(),
            forall|j: int| 0 <= j < i ==> a@[j] == b@[j],
        decreases a@.len() - i,
    {
        let same_parent = match a[i].parent {
            Some(p) => match b[i].parent {
                Some(q) => p == q,
                None => false,
            },
            None => b[i].parent.is_none(),
        };
        if a[i].node != b[i].node || a[i].depth != b[i].depth || !same_parent {
            assert(a@[i as int] != b@[i as int]);
            return false;
        }
        i += 1;
    }
    assert(a@ =~= b@);
    true
}

impl Scene {
    /// Whether the scene is well formed: what [`Scene::new`] makes always
    /// is; one put together or changed by hand is tested with this.
    pub fn is_well_formed(&self) -> (r: bool)
        ensures
            r == self.wf(),
    {
        if !check_references(&self.nodes, &self.roots, self.mesh_count, self.camera_names.len()) {
            return false;
        }
        match walk_from(&self.nodes, &self.roots) {
            Some(order) => same_walk(&order, &self.order),
            None => false,
        }
    }

    /// The depth-first pre-order walk from the roots.
    pub open spec fn walk(nodes: Seq<Node>, roots: Seq<usize>) -> Seq<Visit> {
        forest(nodes, roots, None, 0)
    }

    /// Every reference exists, and `order` is the walk from the roots, which
    /// ends.
    pub open spec fn wf(&self) -> bool {
        &&& self.order@ == Scene::walk(self.nodes@, self.roots@)
        &&& acceptable(self.order@, self.nodes@.len())
        &&& all_refer_within(
            self.nodes@,
            self.roots@,
            self.mesh_count as nat,
            self.camera_names@.len(),
        )
    }

    /// No node is reached twice: the scene is a forest.
    pub open spec fn is_forest(&self) -> bool {
        visited_once(self.order@)
    }

    /// Why a hierarchy is rejected, if it is: a node refers to a mesh, a
    /// camera or a child that does not exist, or a root does not exist; or
    /// else the walk from the roots does not end.
    pub open spec fn rejection(
        nodes: Seq<Node>,
        roots: Seq<usize>,
        mesh_count: nat,
        camera_count: nat,
    ) -> Option<MeshLoadError> {
        if !all_refer_within(nodes, roots, mesh_count, camera_count) {
            Some(MeshLoadError::InvalidIndex)
        } else if !acceptable(Scene::walk(nodes, roots), nodes.len()) {
            Some(MeshLoadError::InvalidHierarchy)
        } else {
            None
        }
    }

    /// Checks the references and walks the hierarchy once, depth first, from
    /// the roots. A node that is reached twice is walked each time.
    pub fn new(
        nodes: Vec<Node>,
        roots: Vec<usize>,
        camera_names: Vec<Option<String>>,
        mesh_count: usize,
    ) -> (r: Result<Scene, MeshLoadError>)
        ensures
            match r {
                Ok(scene) => {
                    &&& Scene::rejection(nodes@, roots@, mesh_count as nat, camera_names@.len())
                        is None
                    &&& scene.nodes == nodes
                    &&& scene.roots == roots
                    &&& scene.camera_names == camera_names
                    &&& scene.mesh_count == mesh_count
                    &&& scene.wf()
                },
                Err(e) => Scene::rejection(nodes@, roots@, mesh_count as nat, camera_names@.len())
                    == Some(e),
            },
    {
        if !check_references(&nodes, &roots, mesh_count, camera_names.len()) {
            return Err(MeshLoadError::InvalidIndex);
        }
        match walk_from(&nodes, &roots) {
            Some(order) => Ok(Scene { nodes, roots, camera_names, mesh_count, order }),
            None => Err(MeshLoadError::InvalidHierarchy),
        }
    }
}

} // verus!
