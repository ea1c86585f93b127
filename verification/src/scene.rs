use vstd::prelude::*;

verus! {

/// The mesh name an optional string gives, as characters.
pub open spec fn mesh_view(mesh_id: Option<String>) -> Option<Seq<char>> {
    match mesh_id {
        Some(s) => Some(s@),
        None => None,
    }
}

/// A node of the scene graph: an optional mesh, the material it is drawn with, its
/// child nodes, and the placement data `T` (the node's local, world and inverse
/// transforms in the renderer) that the graph carries for each node.
pub struct Node<T> {
    transforms: T,
    mesh_id: Option<String>,
    material_id: u32,
    children: Vec<Node<T>>,
}

impl<T> Node<T> {
    /// The placement data of this node.
    pub closed spec fn transforms(&self) -> T {
        self.transforms
    }

    /// The mesh this node draws, if any.
    pub closed spec fn mesh(&self) -> Option<String> {
        self.mesh_id
    }

    /// The index of the material this node is drawn with.
    pub closed spec fn material(&self) -> u32 {
        self.material_id
    }

    /// The children of this node, in the order in which they were added.
    pub closed spec fn child_nodes(&self) -> Seq<Node<T>> {
        self.children@
    }

    /// A node drawing `mesh_id` (or nothing) with material 0, placed by `transforms`,
    /// without children.
    pub fn new(mesh_id: Option<String>, transforms: T) -> (node: Self)
        ensures
            node.mesh() == mesh_id,
            node.material() == 0,
            node.child_nodes() == Seq::<Node<T>>::empty(),
            node.transforms() == transforms,
    {
        Node { transforms, mesh_id, material_id: 0, children: Vec::new() }
    }

    pub fn set_mesh_id(&mut self, id: String)
        ensures
            final(self).mesh() == Some(id),
            final(self).material() == old(self).material(),
            final(self).child_nodes() == old(self).child_nodes(),
            final(self).transforms() == old(self).transforms(),
    {
        self.mesh_id = Some(id);
    }

    pub fn get_mesh_id(&self) -> (id: &Option<String>)
        ensures
            *id == self.mesh(),
    {
        &self.mesh_id
    }

    pub fn set_material_id(&mut self, id: u32)
        ensures
            final(self).material() == id,
            final(self).mesh() == old(self).mesh(),
            final(self).child_nodes() == old(self).child_nodes(),
            final(self).transforms() == old(self).transforms(),
    {
        self.material_id = id;
    }

    pub fn get_material_id(&self) -> (id: u32)
        ensures
            id == self.material(),
    {
        self.material_id
    }

    pub fn get_transforms(&self) -> (t: &T)
        ensures
            *t == self.transforms(),
    {
        &self.transforms
    }

    pub fn set_transforms(&mut self, transforms: T)
        ensures
            final(self).transforms() == transforms,
            final(self).mesh() == old(self).mesh(),
            final(self).material() == old(self).material(),
            final(self).child_nodes() == old(self).child_nodes(),
    {
        self.transforms = transforms;
    }

    pub fn get_children(&self) -> (children: &Vec<Node<T>>)
        ensures
            children@ == self.child_nodes(),
    {
        &self.children
    }

    /// The children, to be changed in place; the node keeps whatever they become.
    pub fn get_children_mut(&mut self) -> (children: &mut Vec<Node<T>>)
        ensures
            children@ == old(self).child_nodes(),
            final(self).child_nodes() == final(children)@,
            final(self).mesh() == old(self).mesh(),
            final(self).material() == old(self).material(),
            final(self).transforms() == old(self).transforms(),
    {
        &mut self.children
    }

    /// The child at `index`, if there is one.
    pub fn get_child(&mut self, index: usize) -> (child: Option<&Node<T>>)
        ensures
            *final(self) == *old(self),
            index < old(self).child_nodes().len() ==> child == Some(&old(self).child_nodes()[index as int]),
            index >= old(self).child_nodes().len() ==> child is None,
    {
        if index < self.children.len() {
            Some(&self.children[index])
        } else {
            None
        }
    }

    /// Appends `child` after the existing children.
    pub fn add_child(&mut self, child: Node<T>)
        ensures
            final(self).child_nodes() == old(self).child_nodes().push(child),
            final(self).mesh() == old(self).mesh(),
            final(self).material() == old(self).material(),
            final(self).transforms() == old(self).transforms(),
    {
        self.children.push(child);
    }
}

/// Law: a child appended to a node becomes its last child, behind the children it
/// already had, which keep their places.
pub proof fn lemma_added_child_is_last<T>(before: Node<T>, after: Node<T>, child: Node<T>)
    requires
        after.child_nodes() == before.child_nodes().push(child),
    ensures
        after.child_nodes().len() == before.child_nodes().len() + 1,
        after.child_nodes()[before.child_nodes().len() as int] == child,
        forall|i: int| 0 <= i < before.child_nodes().len() ==> after.child_nodes()[i] == before.child_nodes()[i],
{
}

/// A scene: a description, the root of the scene graph, and the lists of point
/// lights `L` and materials `M` in the order in which they were added (a node's
/// material id indexes the material list).
pub struct Scene<T, L, M> {
    pub description: String,
    root: Node<T>,
    point_lights: Vec<L>,
    materials: Vec<M>,
}

impl<T, L, M> Scene<T, L, M> {
    pub closed spec fn description_text(&self) -> String {
        self.description
    }

    pub closed spec fn root_node(&self) -> Node<T> {
        self.root
    }

    pub closed spec fn lights(&self) -> Seq<L> {
        self.point_lights@
    }

    pub closed spec fn material_list(&self) -> Seq<M> {
        self.materials@
    }

    /// A scene described by `desc` with the graph under `root`, and no lights or materials.
    pub fn new(desc: String, root: Node<T>) -> (scene: Self)
        ensures
            scene.description_text() == desc,
            scene.root_node() == root,
            scene.lights() == Seq::<L>::empty(),
            scene.material_list() == Seq::<M>::empty(),
    {
        Scene { description: desc, root, point_lights: Vec::new(), materials: Vec::new() }
    }

    pub fn get_root(&self) -> (root: &Node<T>)
        ensures
            *root == self.root_node(),
    {
        &self.root
    }

    pub fn set_root(&mut self, root: Node<T>)
        ensures
            final(self).root_node() == root,
            final(self).description_text() == old(self).description_text(),
            final(self).lights() == old(self).lights(),
            final(self).material_list() == old(self).material_list(),
    {
        self.root = root;
    }

    /// The root, to be changed in place; the scene keeps whatever it becomes.
    pub fn get_root_mut(&mut self) -> (root: &mut Node<T>)
        ensures
            *root == old(self).root_node(),
            final(self).root_node() == *final(root),
            final(self).description_text() == old(self).description_text(),
            final(self).lights() == old(self).lights(),
            final(self).material_list() == old(self).material_list(),
    {
        &mut self.root
    }

    /// Appends a point light after the existing ones.
    pub fn add_point_light(&mut self, pl: L)
        ensures
            final(self).lights() == old(self).lights().push(pl),
            final(self).description_text() == old(self).description_text(),
            final(self).root_node() == old(self).root_node(),
            final(self).material_list() == old(self).material_list(),
    {
        self.point_lights.push(pl);
    }

    pub fn get_point_lights(&self) -> (lights: &Vec<L>)
        ensures
            lights@ == self.lights(),
    {
        &self.point_lights
    }

    /// Appends a material after the existing ones; its id is the number of materials before it.
    pub fn add_material(&mut self, m: M)
        ensures
            final(self).material_list() == old(self).material_list().push(m),
            final(self).description_text() == old(self).description_text(),
            final(self).root_node() == old(self).root_node(),
            final(self).lights() == old(self).lights(),
    {
        self.materials.push(m);
    }

    pub fn get_materials(&self) -> (materials: &Vec<M>)
        ensures
            materials@ == self.material_list(),
    {
        &self.materials
    }
}

} // verus!
