//! Mesh fragments and their assembly into one mesh per document.
//!
//! A tessellator turns each path of a document into a [`MeshFragment`]. The
//! assembler concatenates the fragments of one document, in paint order, into
//! a single [`GeneratedMesh`]: vertices are copied in order and given a
//! uniform layout, indices are shifted by the number of vertices that came
//! before. Numeric attributes are carried as the bit patterns of the host's
//! 32-bit values; the assembler copies them and never computes on them.

use vstd::prelude::*;

verus! {

/// Normal given to a vertex whose fragment supplies none: the unit vector
/// along +Z, as three bit patterns.
pub const DEFAULT_NORMAL: [u32; 3] = [0, 0, 0x3F80_0000];

/// Why a tessellator gave up on one path. The failure is local to the path:
/// the rest of the document is still assembled.
#[derive(Clone, Copy, Debug, PartialEq, Eq)]
pub enum GeometryFailure {
    /// A coordinate of the path is not a finite number.
    NotFinite,
    /// The outline could not be resolved into triangles.
    Unresolvable,
}

/// One vertex as a tessellator emits it.
#[derive(Clone, Copy, Debug, PartialEq, Eq)]
pub struct Vertex {
    pub position: [u32; 3],
    pub normal: Option<[u32; 3]>,
    pub color: [u32; 4],
}

/// One vertex of an assembled mesh: every attribute is present.
#[derive(Clone, Copy, Debug, PartialEq, Eq)]
pub struct MeshVertex {
    pub position: [u32; 3],
    pub normal: [u32; 3],
    pub color: [u32; 4],
}

/// The triangles of one path: vertices, and indices into them, three per
/// triangle.
#[derive(Clone, Debug)]
pub struct MeshFragment {
    pub vertices: Vec<Vertex>,
    pub indices: Vec<u32>,
}

/// What tessellating one path gave.
pub type PathResult = Result<MeshFragment, GeometryFailure>;

/// Mathematical content of a [`MeshFragment`].
#[verifier::ext_equal]
pub struct FragmentView {
    pub vertices: Seq<Vertex>,
    pub indices: Seq<u32>,
}

/// Mathematical content of a [`GeneratedMesh`].
#[verifier::ext_equal]
pub struct MeshView {
    pub vertices: Seq<MeshVertex>,
    pub indices: Seq<u32>,
}

/// The vertex with a missing normal replaced by [`DEFAULT_NORMAL`].
pub open spec fn padded(v: Vertex) -> MeshVertex {
    MeshVertex {
        position: v.position,
        normal: match v.normal {
            Some(n) => n,
            None => DEFAULT_NORMAL,
        },
        color: v.color,
    }
}

impl FragmentView {
    /// The indices form whole triangles and each names a vertex of the
    /// fragment.
    pub open spec fn well_formed(self) -> bool {
        &&& self.indices.len() % 3 == 0
        &&& forall|i: int|
            0 <= i < self.indices.len() ==> (#[trigger] self.indices[i]) < self.vertices.len()
    }
}

impl MeshView {
    pub open spec fn empty() -> MeshView {
        MeshView { vertices: Seq::empty(), indices: Seq::empty() }
    }

    /// The indices form whole triangles, each names a vertex of the mesh, and
    /// every vertex can be named by a 32-bit index.
    pub open spec fn well_formed(self) -> bool {
        &&& self.vertices.len() <= u32::MAX
        &&& self.indices.len() % 3 == 0
        &&& forall|i: int|
            0 <= i < self.indices.len() ==> (#[trigger] self.indices[i]) < self.vertices.len()
    }

    pub open spec fn triangle_count(self) -> nat {
        self.indices.len() / 3
    }

    /// Whether `f` can be appended: it is well formed and its vertices still
    /// fit under 32-bit indices.
    pub open spec fn accepts(self, f: FragmentView) -> bool {
        &&& f.well_formed()
        &&& self.vertices.len() + f.vertices.len() <= u32::MAX
    }

    /// The mesh followed by `f`: the vertices of `f` padded and appended, its
    /// indices shifted by the number of vertices already present. A fragment
    /// that is not accepted is skipped.
    pub open spec fn with_fragment(self, f: FragmentView) -> MeshView {
        if self.accepts(f) {
            MeshView {
                vertices: self.vertices + f.vertices.map_values(|v: Vertex| padded(v)),
                indices: self.indices + f.indices.map_values(
                    |i: u32| (i + self.vertices.len()) as u32,
                ),
            }
        } else {
            self
        }
    }

    /// The mesh followed by the outcome of one path; a failed path adds
    /// nothing.
    pub open spec fn with_path(self, path: Option<FragmentView>) -> MeshView {
        match path {
            Some(f) => self.with_fragment(f),
            None => self,
        }
    }
}

impl View for MeshFragment {
    type V = FragmentView;

    open spec fn view(&self) -> FragmentView {
        FragmentView { vertices: self.vertices@, indices: self.indices@ }
    }
}

/// The outcomes of a document's paths with each fragment taken by its view
/// and each failure as `None`.
pub open spec fn path_views(paths: Seq<PathResult>) -> Seq<Option<FragmentView>> {
    paths.map_values(
        |p: PathResult|
            match p {
                Ok(f) => Some(f@),
                Err(_) => None,
            },
    )
}

/// The mesh of a document: its paths' fragments appended in order, starting
/// from the empty mesh.
pub open spec fn assemble_spec(paths: Seq<Option<FragmentView>>) -> MeshView
    decreases paths.len(),
{
    if paths.len() == 0 {
        MeshView::empty()
    } else {
        assemble_spec(paths.drop_last()).with_path(paths.last())
    }
}

/// Appending a path keeps a well-formed mesh well formed.
pub proof fn lemma_with_path_well_formed(mesh: MeshView, path: Option<FragmentView>)
    requires
        mesh.well_formed(),
    ensures
        mesh.with_path(path).well_formed(),
{
    if let Some(f) = path {
        if mesh.accepts(f) {
            let out = mesh.with_fragment(f);
            assert forall|i: int| 0 <= i < out.indices.len() implies (#[trigger] out.indices[i])
                < out.vertices.len() by {
                if i >= mesh.indices.len() {
                    assert(f.indices[i - mesh.indices.len()] < f.vertices.len());
                }
            }
        }
    }
}

/// Every assembled mesh is well formed, whatever the paths gave.
pub proof fn lemma_assembly_well_formed(paths: Seq<Option<FragmentView>>)
    ensures
        assemble_spec(paths).well_formed(),
    decreases paths.len(),
{
    if paths.len() > 0 {
        lemma_assembly_well_formed(paths.drop_last());
        lemma_with_path_well_formed(assemble_spec(paths.drop_last()), paths.last());
    }
}

/// Later paths never disturb earlier ones: the mesh of the first `k` paths
/// is a prefix, vertices and indices alike, of the mesh of all of them.
pub proof fn lemma_assembly_extends(paths: Seq<Option<FragmentView>>, k: int)
    requires
        0 <= k <= paths.len(),
    ensures
        assemble_spec(paths.take(k)).vertices.is_prefix_of(assemble_spec(paths).vertices),
        assemble_spec(paths.take(k)).indices.is_prefix_of(assemble_spec(paths).indices),
    decreases paths.len(),
{
    if k == paths.len() {
        assert(paths.take(k) =~= paths);
    } else {
        let shorter = paths.drop_last();
        lemma_assembly_extends(shorter, k);
        assert(shorter.take(k) =~= paths.take(k));
    }
}

/// Where an accepted fragment lands. If path `k` gave `f` and the mesh of
/// the paths before it accepts `f`, then in the mesh of the whole document
/// the vertices of `f` stand, padded and in order, right after those of the
/// earlier paths, and each index of `f` reappears shifted by their number,
/// so every triangle still names the vertices it named in `f`.
pub proof fn lemma_fragment_placement(paths: Seq<Option<FragmentView>>, k: int, f: FragmentView)
    requires
        0 <= k < paths.len(),
        paths[k] == Some(f),
        assemble_spec(paths.take(k)).accepts(f),
    ensures
        ({
            let before = assemble_spec(paths.take(k));
            let whole = assemble_spec(paths);
            &&& before.vertices.len() + f.vertices.len() <= whole.vertices.len()
            &&& before.indices.len() + f.indices.len() <= whole.indices.len()
            &&& forall|i: int|
                0 <= i < f.vertices.len() ==> #[trigger] whole.vertices[before.vertices.len() + i]
                    == padded(f.vertices[i])
            &&& forall|j: int|
                0 <= j < f.indices.len() ==> #[trigger] whole.indices[before.indices.len() + j]
                    == f.indices[j] + before.vertices.len()
            &&& forall|j: int|
                0 <= j < f.indices.len() ==> whole.vertices[(#[trigger] whole.indices[
                    before.indices.len() + j]) as int] == padded(f.vertices[f.indices[j] as int])
        }),
{
    let before = assemble_spec(paths.take(k));
    let through = assemble_spec(paths.take(k + 1));
    let whole = assemble_spec(paths);
    assert(paths.take(k + 1).drop_last() =~= paths.take(k));
    lemma_assembly_extends(paths, k + 1);
    assert forall|i: int| 0 <= i < f.vertices.len() implies #[trigger] whole.vertices[
        before.vertices.len() + i] == padded(f.vertices[i]) by {
        assert(through.vertices[before.vertices.len() + i] == padded(f.vertices[i]));
    }
    assert forall|j: int| 0 <= j < f.indices.len() implies #[trigger] whole.indices[
        before.indices.len() + j] == f.indices[j] + before.vertices.len() by {
        assert(through.indices[before.indices.len() + j] == (f.indices[j]
            + before.vertices.len()) as u32);
    }
    assert forall|j: int| 0 <= j < f.indices.len() implies whole.vertices[(
    #[trigger] whole.indices[before.indices.len() + j]) as int] == padded(
        f.vertices[f.indices[j] as int],
    ) by {
        let i = f.indices[j] as int;
        assert(whole.vertices[before.vertices.len() + i] == padded(f.vertices[i]));
    }
}

/// A document none of whose paths could be tessellated has the empty mesh.
pub proof fn lemma_failed_document_is_empty(paths: Seq<Option<FragmentView>>)
    requires
        forall|k: int| 0 <= k < paths.len() ==> paths[k] is None,
    ensures
        assemble_spec(paths) == MeshView::empty(),
    decreases paths.len(),
{
    if paths.len() > 0 {
        lemma_failed_document_is_empty(paths.drop_last());
    }
}

/// A fragment without vertices and indices, as a degenerate path gives,
/// leaves the mesh as it was.
pub proof fn lemma_empty_fragment_adds_nothing(mesh: MeshView, f: FragmentView)
    requires
        f.vertices.len() == 0,
        f.indices.len() == 0,
    ensures
        mesh.with_fragment(f) == mesh,
{
}

impl MeshFragment {
    /// Checks that the indices form whole triangles and stay inside the
    /// fragment's vertices.
    pub fn is_well_formed(&self) -> (ok: bool)
        ensures
            ok == self@.well_formed(),
    {
        if self.indices.len() % 3 != 0 {
            return false;
        }
        let mut i: usize = 0;
        while i < self.indices.len()
            invariant
                i <= self.indices.len(),
                forall|j: int| 0 <= j < i ==> (#[trigger] self.indices@[j]) < self.vertices@.len(),
            decreases self.indices.len() - i,
        {
            if self.indices[i] as usize >= self.vertices.len() {
                return false;
            }
            i += 1;
        }
        true
    }
}

/// Pads one vertex to the uniform layout.
pub fn pad(v: &Vertex) -> (out: MeshVertex)
    ensures
        out == padded(*v),
{
    MeshVertex {
        position: v.position,
        normal: match v.normal {
            Some(n) => n,
            None => DEFAULT_NORMAL,
        },
        color: v.color,
    }
}

/// The assembled triangle mesh of one document.
pub struct GeneratedMesh {
    vertices: Vec<MeshVertex>,
    indices: Vec<u32>,
}

impl View for GeneratedMesh {
    type V = MeshView;

    closed spec fn view(&self) -> MeshView {
        MeshView { vertices: self.vertices@, indices: self.indices@ }
    }
}

impl GeneratedMesh {
    #[verifier::type_invariant]
    spec fn inv(self) -> bool {
        self@.well_formed()
    }

    /// The mesh without triangles.
    pub fn empty() -> (mesh: GeneratedMesh)
        ensures
            mesh@ == MeshView::empty(),
    {
        GeneratedMesh { vertices: Vec::new(), indices: Vec::new() }
    }

    /// The vertices, in the uniform layout.
    pub fn vertices(&self) -> (vertices: &Vec<MeshVertex>)
        ensures
            vertices@ == self@.vertices,
    {
        &self.vertices
    }

    /// The index buffer, three indices per triangle.
    pub fn indices(&self) -> (indices: &Vec<u32>)
        ensures
            indices@ == self@.indices,
            self@.well_formed(),
    {
        proof {
            use_type_invariant(self);
        }
        &self.indices
    }

    /// The number of triangles.
    pub fn triangle_count(&self) -> (count: usize)
        ensures
            count == self@.triangle_count(),
    {
        self.indices.len() / 3
    }

    /// The three vertices of triangle `k`, or `None` where the mesh has no
    /// such triangle.
    pub fn triangle(&self, k: usize) -> (corners: Option<[MeshVertex; 3]>)
        ensures
            match corners {
                Some(found) => {
                    &&& k < self@.triangle_count()
                    &&& forall|c: int|
                        0 <= c < 3 ==> (#[trigger] self@.indices[3 * k + c]) < self@.vertices.len()
                            && found[c] == self@.vertices[self@.indices[3 * k + c] as int]
                },
                None => k >= self@.triangle_count(),
            },
    {
        proof {
            use_type_invariant(self);
        }
        if k >= self.indices.len() / 3 {
            return None;
        }
        let base: usize = 3 * k;
        let a = self.vertices[self.indices[base] as usize];
        let b = self.vertices[self.indices[base + 1] as usize];
        let c = self.vertices[self.indices[base + 2] as usize];
        Some([a, b, c])
    }
}

/// Decides whether the mesh under assembly accepts `f`.
fn accepts_fragment(vertices: &Vec<MeshVertex>, indices: &Vec<u32>, f: &MeshFragment) -> (ok: bool)
    ensures
        ok == (MeshView { vertices: vertices@, indices: indices@ }).accepts(f@),
{
    let limit: usize = u32::MAX as usize;
    f.vertices.len() <= limit && vertices.len() <= limit - f.vertices.len() && f.is_well_formed()
}

/// Appends an accepted fragment to the buffers of a mesh under assembly.
fn append_fragment(vertices: &mut Vec<MeshVertex>, indices: &mut Vec<u32>, f: &MeshFragment)
    requires
        (MeshView { vertices: old(vertices)@, indices: old(indices)@ }).accepts(f@),
    ensures
        (MeshView { vertices: final(vertices)@, indices: final(indices)@ }) == (MeshView {
            vertices: old(vertices)@,
            indices: old(indices)@,
        }).with_fragment(f@),
{
    let ghost before = MeshView { vertices: vertices@, indices: indices@ };
    let offset: u32 = vertices.len() as u32;
    let mut i: usize = 0;
    while i < f.vertices.len()
        invariant
            i <= f.vertices.len(),
            indices@ == before.indices,
            vertices@ == before.vertices + f.vertices@.take(i as int).map_values(
                |v: Vertex| padded(v),
            ),
        decreases f.vertices.len() - i,
    {
        vertices.push(pad(&f.vertices[i]));
        i += 1;
    }
    let mut j: usize = 0;
    while j < f.indices.len()
        invariant
            j <= f.indices.len(),
            before.accepts(f@),
            offset == before.vertices.len(),
            vertices@ == before.vertices + f.vertices@.map_values(|v: Vertex| padded(v)),
            indices@ == before.indices + f.indices@.take(j as int).map_values(
                |x: u32| (x + before.vertices.len()) as u32,
            ),
        decreases f.indices.len() - j,
    {
        indices.push(f.indices[j] + offset);
        j += 1;
    }
}

/// Assembles the mesh of one document from the outcomes of its paths, given
/// in paint order. Failed paths, and fragments that are malformed or would
/// outgrow 32-bit indices, are skipped; the others are appended in order.
/// The result is a function of the outcomes alone.
pub fn assemble(paths: &Vec<PathResult>) -> (mesh: GeneratedMesh)
    ensures
        mesh@ == assemble_spec(path_views(paths@)),
        mesh@.well_formed(),
{
    let ghost views = path_views(paths@);
    let mut vertices: Vec<MeshVertex> = Vec::new();
    let mut indices: Vec<u32> = Vec::new();
    let mut k: usize = 0;
    while k < paths.len()
        invariant
            k <= paths.len(),
            views == path_views(paths@),
            (MeshView { vertices: vertices@, indices: indices@ }) == assemble_spec(
                views.take(k as int),
            ),
        decreases paths.len() - k,
    {
        proof {
            assert(views.take(k + 1).drop_last() =~= views.take(k as int));
        }
        match &paths[k] {
            Ok(f) => {
                if accepts_fragment(&vertices, &indices, f) {
                    append_fragment(&mut vertices, &mut indices, f);
                }
            },
            Err(_) => {},
        }
        k += 1;
    }
    proof {
        assert(views.take(k as int) =~= views);
        lemma_assembly_well_formed(views);
    }
    GeneratedMesh { vertices, indices }
}

} // verus!
