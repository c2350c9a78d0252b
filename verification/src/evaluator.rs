//! Per-frame evaluation of a scene: the world transform of every node, mesh
//! and camera, composed root to leaf.

use vstd::prelude::*;
use crate::matrix::{compose3, identities, is_product, product, product3, returns_product, Mat4};
use crate::scene::{refers_within, Scene, Visit};

verus! {

/// The outcome of one walk over the scene.
#[derive(Debug)]
pub struct Transforms {
    /// World transform of each node, as its last visit left it; identity for
    /// a node the walk never reaches.
    pub node: Vec<Mat4>,
    /// World transform of each mesh of the document: that of the last node
    /// visited that carries it.
    pub model: Vec<Mat4>,
    /// World transform of each camera: that of the last node visited that carries it.
    pub camera: Vec<Mat4>,
    /// The camera of the wanted name that was visited last, if any was.
    pub camera_index: Option<usize>,
}

/// [`Transforms`] as sequences.
pub struct TransformsView {
    pub node: Seq<Mat4>,
    pub model: Seq<Mat4>,
    pub camera: Seq<Mat4>,
    pub camera_index: Option<usize>,
}

impl View for Transforms {
    type V = TransformsView;

    open spec fn view(&self) -> TransformsView {
        TransformsView {
            node: self.node@,
            model: self.model@,
            camera: self.camera@,
            camera_index: self.camera_index,
        }
    }
}

/// The characters of an optional name.
pub open spec fn name_view(name: Option<String>) -> Option<Seq<char>> {
    match name {
        Some(s) => Some(s@),
        None => None,
    }
}

/// The characters of an optional borrowed name.
pub open spec fn wanted_view(name: Option<&str>) -> Option<Seq<char>> {
    match name {
        Some(s) => Some(s@),
        None => None,
    }
}

/// A camera of this name is the one that was asked for. Where none was asked
/// for, none answers, and a camera without a name answers to no name.
pub open spec fn answers(name: Option<String>, wanted: Option<Seq<char>>) -> bool {
    &&& wanted matches Some(w)
    &&& name matches Some(n)
    &&& n@ == w
}

/// The state before the walk: every transform the identity, no camera found.
pub open spec fn unvisited(scene: Scene) -> TransformsView {
    TransformsView {
        node: Seq::new(scene.nodes@.len(), |i: int| Mat4::identity_spec()),
        model: Seq::new(scene.mesh_count as nat, |i: int| Mat4::identity_spec()),
        camera: Seq::new(scene.camera_names@.len(), |i: int| Mat4::identity_spec()),
        camera_index: None,
    }
}

/// The transform that a visit composes onto: that of the node it was reached
/// from, and `base` at a root.
pub open spec fn inherited(t: TransformsView, base: Mat4, v: Visit) -> Mat4 {
    match v.parent {
        Some(p) => t.node[p as int],
        None => base,
    }
}

/// The world transform that a visit gives its node: local × inherited × override.
pub open spec fn world_of<P: Fn(Mat4, Mat4) -> Mat4>(
    compose: P,
    scene: Scene,
    base: Mat4,
    overrides: Seq<Mat4>,
    t: TransformsView,
    v: Visit,
) -> Mat4 {
    product3(
        compose,
        scene.nodes@[v.node as int].matrix,
        inherited(t, base, v),
        overrides[v.node as int],
    )
}

/// The state after one more visit.
pub open spec fn visited<P: Fn(Mat4, Mat4) -> Mat4>(
    compose: P,
    scene: Scene,
    base: Mat4,
    overrides: Seq<Mat4>,
    wanted: Option<Seq<char>>,
    t: TransformsView,
    v: Visit,
) -> TransformsView {
    let node = scene.nodes@[v.node as int];
    let world = world_of(compose, scene, base, overrides, t, v);
    TransformsView {
        node: t.node.update(v.node as int, world),
        model: match node.mesh {
            Some(m) => t.model.update(m as int, world),
            None => t.model,
        },
        camera: match node.camera {
            Some(c) => t.camera.update(c as int, world),
            None => t.camera,
        },
        camera_index: match node.camera {
            Some(c) => if answers(scene.camera_names@[c as int], wanted) {
                Some(c)
            } else {
                t.camera_index
            },
            None => t.camera_index,
        },
    }
}

/// The state after the first `upto` visits of the scene's walk.
pub open spec fn evaluated<P: Fn(Mat4, Mat4) -> Mat4>(
    compose: P,
    scene: Scene,
    base: Mat4,
    overrides: Seq<Mat4>,
    wanted: Option<Seq<char>>,
    upto: nat,
) -> TransformsView
    decreases upto,
{
    if upto == 0 {
        unvisited(scene)
    } else {
        visited(
            compose,
            scene,
            base,
            overrides,
            wanted,
            evaluated(compose, scene, base, overrides, wanted, (upto - 1) as nat),
            scene.order@[upto - 1],
        )
    }
}

/// Visit `k` was composed by calls of `compose`: the product of the local
/// matrix and what the visit inherits, and the product of that and the
/// override, are values that `compose` has returned.
pub open spec fn composed_by_calls<P: Fn(Mat4, Mat4) -> Mat4>(
    compose: P,
    scene: Scene,
    base: Mat4,
    overrides: Seq<Mat4>,
    wanted: Option<Seq<char>>,
    k: int,
) -> bool {
    let t = evaluated(compose, scene, base, overrides, wanted, k as nat);
    let v = scene.order@[k];
    let local = scene.nodes@[v.node as int].matrix;
    &&& returns_product(compose, local, inherited(t, base, v))
    &&& returns_product(
        compose,
        product(compose, local, inherited(t, base, v)),
        overrides[v.node as int],
    )
}

/// Whether a camera of this name is the one that was asked for.
fn answers_to(name: &Option<String>, wanted: &Option<String>) -> (r: bool)
    ensures
        r == answers(*name, name_view(*wanted)),
{
    match wanted {
        Some(w) => match name {
            Some(n) => *n == *w,
            None => false,
        },
        None => false,
    }
}

impl Scene {
    /// Walks the scene once and composes the world transform of every node:
    /// its local matrix, times what it inherits, times its override.
    pub fn evaluate<P: Fn(Mat4, Mat4) -> Mat4>(
        &self,
        base: Mat4,
        overrides: &Vec<Mat4>,
        camera: Option<&str>,
        compose: &P,
    ) -> (t: Transforms)
        requires
            self.wf(),
            overrides@.len() == self.nodes@.len(),
            is_product(*compose),
        ensures
            t@ == evaluated(
                *compose,
                *self,
                base,
                overrides@,
                wanted_view(camera),
                self.order@.len(),
            ),
            forall|k: int|
                0 <= k < self.order@.len() ==> #[trigger] composed_by_calls(
                    *compose,
                    *self,
                    base,
                    overrides@,
                    wanted_view(camera),
                    k,
                ),
    {
        let wanted: Option<String> = match camera {
            Some(s) => Some(s.to_owned()),
            None => None,
        };
        let mut node = identities(self.nodes.len());
        let mut model = identities(self.mesh_count);
        let mut cameras = identities(self.camera_names.len());
        let mut camera_index: Option<usize> = None;
        let mut k: usize = 0;
        while k < self.order.len()
            invariant
                k <= self.order@.len(),
                self.wf(),
                overrides@.len() == self.nodes@.len(),
                is_product(*compose),
                name_view(wanted) == wanted_view(camera),
                node@.len() == self.nodes@.len(),
                model@.len() == self.mesh_count,
                cameras@.len() == self.camera_names@.len(),
                (TransformsView { node: node@, model: model@, camera: cameras@, camera_index })
                    == evaluated(
                    *compose,
                    *self,
                    base,
                    overrides@,
                    wanted_view(camera),
                    k as nat,
                ),
                forall|j: int|
                    0 <= j < k ==> #[trigger] composed_by_calls(
                        *compose,
                        *self,
                        base,
                        overrides@,
                        wanted_view(camera),
                        j,
                    ),
            decreases self.order@.len() - k,
        {
            let v = self.order[k];
            let n = v.node;
            let inherited = match v.parent {
                Some(p) => {
                    assert(p < node@.len()) by {
                        lemma_parent_exists(*self, k as int);
                    }
                    node[p]
                },
                None => base,
            };
            let world = compose3(compose, self.nodes[n].matrix, inherited, overrides[n]);
            node.set(n, world);
            match self.nodes[n].mesh {
                Some(m) => {
                    model.set(m, world);
                },
                None => {},
            }
            match self.nodes[n].camera {
                Some(c) => {
                    cameras.set(c, world);
                    if answers_to(&self.camera_names[c], &wanted) {
                        camera_index = Some(c);
                    }
                },
                None => {},
            }
            k += 1;
        }
        Transforms { node, model, camera: cameras, camera_index }
    }
}

/// A node is walked after the node it was reached from. Gives the place of
/// the visit of the parent.
pub proof fn lemma_parent_walked_first(scene: Scene, k: int) -> (j: int)
    requires
        scene.wf(),
        0 <= k < scene.order@.len(),
        scene.order@[k].parent is Some,
    ensures
        0 <= j < k,
        scene.order@[k].parent == Some(scene.order@[j].node),
{
    crate::scene::lemma_forest_parent_before(scene.nodes@, scene.roots@, None, 0, k)
}

/// A walk keeps one transform per node, mesh and camera, and finds only a
/// camera that exists.
pub proof fn lemma_evaluated_lengths<P: Fn(Mat4, Mat4) -> Mat4>(
    compose: P,
    scene: Scene,
    base: Mat4,
    overrides: Seq<Mat4>,
    wanted: Option<Seq<char>>,
    upto: nat,
)
    requires
        scene.wf(),
        upto <= scene.order@.len(),
    ensures
        evaluated(compose, scene, base, overrides, wanted, upto).node.len() == scene.nodes@.len(),
        evaluated(compose, scene, base, overrides, wanted, upto).model.len() == scene.mesh_count,
        evaluated(compose, scene, base, overrides, wanted, upto).camera.len()
            == scene.camera_names@.len(),
        evaluated(compose, scene, base, overrides, wanted, upto).camera_index matches Some(c) ==> c
            < scene.camera_names@.len(),
    decreases upto,
{
    if upto > 0 {
        lemma_evaluated_lengths(compose, scene, base, overrides, wanted, (upto - 1) as nat);
        lemma_visit_refers_within(scene, upto - 1);
    }
}

/// The node of a visit exists, and so do the mesh and the camera it carries.
pub proof fn lemma_visit_refers_within(scene: Scene, k: int)
    requires
        scene.wf(),
        0 <= k < scene.order@.len(),
    ensures
        scene.order@[k].node < scene.nodes@.len(),
        scene.nodes@[scene.order@[k].node as int].mesh matches Some(m) ==> m < scene.mesh_count,
        scene.nodes@[scene.order@[k].node as int].camera matches Some(c) ==> c
            < scene.camera_names@.len(),
{
    let v = scene.order@[k];
    assert(v.node < scene.nodes@.len());
    assert(refers_within(
        scene.nodes@[v.node as int],
        scene.nodes@.len(),
        scene.mesh_count as nat,
        scene.camera_names@.len(),
    ));
}

/// A visit leaves its node with its local matrix, times the world transform
/// of the node it was reached from (the base transform at a root), times its
/// override; and that stays so for as long as no later visit comes to the
/// node or to the node it was reached from.
pub proof fn lemma_world_composes_parent<P: Fn(Mat4, Mat4) -> Mat4>(
    compose: P,
    scene: Scene,
    base: Mat4,
    overrides: Seq<Mat4>,
    wanted: Option<Seq<char>>,
    k: int,
    upto: nat,
)
    requires
        scene.wf(),
        overrides.len() == scene.nodes@.len(),
        0 <= k < upto <= scene.order@.len(),
        scene.order@[k].parent != Some(scene.order@[k].node),
        forall|j: int|
            k < j < upto ==> (#[trigger] scene.order@[j]).node != scene.order@[k].node
                && scene.order@[k].parent != Some(scene.order@[j].node),
    ensures
        ({
            let t = evaluated(compose, scene, base, overrides, wanted, upto);
            let v = scene.order@[k];
            t.node[v.node as int] == product3(
                compose,
                scene.nodes@[v.node as int].matrix,
                match v.parent {
                    Some(p) => t.node[p as int],
                    None => base,
                },
                overrides[v.node as int],
            )
        }),
    decreases upto,
{
    let last = scene.order@[upto - 1];
    let v = scene.order@[k];
    lemma_evaluated_lengths(compose, scene, base, overrides, wanted, (upto - 1) as nat);
    lemma_visit_refers_within(scene, upto - 1);
    lemma_parent_exists(scene, k);
    if k < upto - 1 {
        lemma_world_composes_parent(compose, scene, base, overrides, wanted, k, (upto - 1) as nat);
        assert(last.node != v.node);
        assert(v.parent != Some(last.node));
    }
}

/// Transforms compose root to leaf. In a scene that is a forest, the world
/// transform of every node that the walk reaches is its local matrix, times
/// the world transform of its parent (the base transform at a root), times
/// its override.
pub proof fn lemma_tree_composes_root_to_leaf<P: Fn(Mat4, Mat4) -> Mat4>(
    compose: P,
    scene: Scene,
    base: Mat4,
    overrides: Seq<Mat4>,
    wanted: Option<Seq<char>>,
    k: int,
)
    requires
        scene.wf(),
        scene.is_forest(),
        overrides.len() == scene.nodes@.len(),
        0 <= k < scene.order@.len(),
    ensures
        ({
            let t = evaluated(compose, scene, base, overrides, wanted, scene.order@.len());
            let v = scene.order@[k];
            t.node[v.node as int] == product3(
                compose,
                scene.nodes@[v.node as int].matrix,
                match v.parent {
                    Some(p) => t.node[p as int],
                    None => base,
                },
                overrides[v.node as int],
            )
        }),
{
    let v = scene.order@[k];
    if v.parent is Some {
        let j = lemma_parent_walked_first(scene, k);
        assert(scene.order@[j].node != v.node);
        assert forall|m: int| k < m < scene.order@.len() implies (#[trigger] scene.order@[m]).node
            != v.node && v.parent != Some(scene.order@[m].node) by {
            assert(scene.order@[j].node != scene.order@[m].node);
        }
    }
    lemma_world_composes_parent(
        compose,
        scene,
        base,
        overrides,
        wanted,
        k,
        scene.order@.len(),
    );
}

/// A node that the walk has not reached keeps the identity.
pub proof fn lemma_unreached_stays_identity<P: Fn(Mat4, Mat4) -> Mat4>(
    compose: P,
    scene: Scene,
    base: Mat4,
    overrides: Seq<Mat4>,
    wanted: Option<Seq<char>>,
    upto: nat,
    node: int,
)
    requires
        scene.wf(),
        upto <= scene.order@.len(),
        0 <= node < scene.nodes@.len(),
        forall|k: int| 0 <= k < upto ==> (#[trigger] scene.order@[k]).node != node,
    ensures
        evaluated(compose, scene, base, overrides, wanted, upto).node[node] == Mat4::identity_spec(),
    decreases upto,
{
    if upto > 0 {
        lemma_unreached_stays_identity(
            compose,
            scene,
            base,
            overrides,
            wanted,
            (upto - 1) as nat,
            node,
        );
        lemma_evaluated_lengths(compose, scene, base, overrides, wanted, (upto - 1) as nat);
        assert(scene.order@[upto - 1].node != node);
    }
}

/// A mesh stands where the last node that carries it stands. Where visit `k`
/// comes to a node that carries mesh `m` and no later visit does, the
/// transform of `m` is the world transform that visit `k` left.
pub proof fn lemma_mesh_follows_last_carrier<P: Fn(Mat4, Mat4) -> Mat4>(
    compose: P,
    scene: Scene,
    base: Mat4,
    overrides: Seq<Mat4>,
    wanted: Option<Seq<char>>,
    upto: nat,
    k: int,
    m: usize,
)
    requires
        scene.wf(),
        0 <= k < upto <= scene.order@.len(),
        scene.nodes@[scene.order@[k].node as int].mesh == Some(m),
        forall|j: int|
            k < j < upto ==> scene.nodes@[(#[trigger] scene.order@[j]).node as int].mesh != Some(m),
    ensures
        ({
            let t = evaluated(compose, scene, base, overrides, wanted, upto);
            t.model[m as int] == t.node[scene.order@[k].node as int]
        }),
    decreases upto,
{
    let last = scene.order@[upto - 1];
    lemma_evaluated_lengths(compose, scene, base, overrides, wanted, (upto - 1) as nat);
    lemma_visit_refers_within(scene, upto - 1);
    lemma_visit_refers_within(scene, k);
    if k < upto - 1 {
        lemma_mesh_follows_last_carrier(
            compose,
            scene,
            base,
            overrides,
            wanted,
            (upto - 1) as nat,
            k,
            m,
        );
        assert(scene.nodes@[last.node as int].mesh != Some(m));
    }
}

/// A camera stands where the last node that carries it stands.
pub proof fn lemma_camera_follows_last_carrier<P: Fn(Mat4, Mat4) -> Mat4>(
    compose: P,
    scene: Scene,
    base: Mat4,
    overrides: Seq<Mat4>,
    wanted: Option<Seq<char>>,
    upto: nat,
    k: int,
    c: usize,
)
    requires
        scene.wf(),
        0 <= k < upto <= scene.order@.len(),
        scene.nodes@[scene.order@[k].node as int].camera == Some(c),
        forall|j: int|
            k < j < upto ==> scene.nodes@[(#[trigger] scene.order@[j]).node as int].camera != Some(
                c,
            ),
    ensures
        ({
            let t = evaluated(compose, scene, base, overrides, wanted, upto);
            t.camera[c as int] == t.node[scene.order@[k].node as int]
        }),
    decreases upto,
{
    let last = scene.order@[upto - 1];
    lemma_evaluated_lengths(compose, scene, base, overrides, wanted, (upto - 1) as nat);
    lemma_visit_refers_within(scene, upto - 1);
    lemma_visit_refers_within(scene, k);
    if k < upto - 1 {
        lemma_camera_follows_last_carrier(
            compose,
            scene,
            base,
            overrides,
            wanted,
            (upto - 1) as nat,
            k,
            c,
        );
        assert(scene.nodes@[last.node as int].camera != Some(c));
    }
}

/// A camera that no visited node carries under the wanted name is not found:
/// the walk ends with no camera bound.
pub proof fn lemma_unknown_camera_unbound<P: Fn(Mat4, Mat4) -> Mat4>(
    compose: P,
    scene: Scene,
    base: Mat4,
    overrides: Seq<Mat4>,
    wanted: Option<Seq<char>>,
    upto: nat,
)
    requires
        upto <= scene.order@.len(),
        forall|k: int|
            0 <= k < scene.order@.len() ==> (scene.nodes@[(#[trigger] scene.order@[k]).node as int].camera matches Some(
                c,
            ) ==> !answers(scene.camera_names@[c as int], wanted)),
    ensures
        evaluated(compose, scene, base, overrides, wanted, upto).camera_index is None,
    decreases upto,
{
    if upto > 0 {
        lemma_unknown_camera_unbound(compose, scene, base, overrides, wanted, (upto - 1) as nat);
        let v = scene.order@[upto - 1];
        assert(scene.nodes@[v.node as int].camera matches Some(c) ==> !answers(
            scene.camera_names@[c as int],
            wanted,
        ));
    }
}

/// Where no camera is asked for, none is found, whatever the scene carries.
pub proof fn lemma_no_camera_wanted_none_bound<P: Fn(Mat4, Mat4) -> Mat4>(
    compose: P,
    scene: Scene,
    base: Mat4,
    overrides: Seq<Mat4>,
    upto: nat,
)
    requires
        upto <= scene.order@.len(),
    ensures
        evaluated(compose, scene, base, overrides, None, upto).camera_index is None,
{
    lemma_unknown_camera_unbound(compose, scene, base, overrides, None, upto);
}

/// The pose of the scene at rest: what a walk gives where every override is
/// the identity.
pub open spec fn rest_pose<P: Fn(Mat4, Mat4) -> Mat4>(
    compose: P,
    scene: Scene,
    base: Mat4,
    wanted: Option<Seq<char>>,
) -> TransformsView {
    evaluated(
        compose,
        scene,
        base,
        Seq::new(scene.nodes@.len(), |i: int| Mat4::identity_spec()),
        wanted,
        scene.order@.len(),
    )
}

/// The node that a visit was reached from exists.
pub proof fn lemma_parent_exists(scene: Scene, k: int)
    requires
        scene.wf(),
        0 <= k < scene.order@.len(),
    ensures
        scene.order@[k].parent matches Some(p) ==> p < scene.nodes@.len(),
{
    crate::scene::lemma_forest_parents(scene.nodes@, scene.roots@, None, 0, k);
}

} // verus!
