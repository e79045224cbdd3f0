use vstd::prelude::*;

use std::sync::Arc;

use crate::packet::Vec3_32;

verus! {

/// A named resource, such as a mesh, loaded on demand.
pub struct Resource {
    name: String,
}

impl Resource {
    /// The name of the resource.
    pub closed spec fn name_view(&self) -> Seq<char> {
        self.name@
    }

    /// A resource called `name`.
    pub fn new(name: String) -> (r: Self)
        ensures
            r.name_view() == name@,
    {
        Resource { name }
    }

    /// The name of the resource.
    pub fn name(&self) -> (r: &str)
        ensures
            r@ == self.name_view(),
    {
        self.name.as_str()
    }
}

/// Hands out shared handles to resources.
pub struct ResourceManager;

impl ResourceManager {
    /// A resource manager.
    pub fn new() -> (r: Self) {
        ResourceManager
    }

    /// A shared handle to the resource called `name`.
    pub fn resource(&mut self, name: String) -> (r: Arc<Resource>)
        ensures
            r.name_view() == name@,
    {
        Arc::new(Resource::new(name))
    }
}


/// A triangle mesh: vertex indices, and positions and normals as
/// single-precision bit patterns.
pub struct Mesh {
    pub vertex_indices: Vec<u16>,
    pub vertex_positions: Vec<Vec3_32>,
    pub vertex_normals: Vec<Vec3_32>,
}

/// Why a primitive could not become a mesh.
#[derive(Clone, Copy, PartialEq, Eq, Structural, Debug)]
pub enum MeshError {
    /// The primitive has no vertex indices.
    MissingIndices,
    /// The index at the given position does not fit in sixteen bits.
    IndexTooLarge(usize),
    /// The primitive has no vertex positions.
    MissingPositions,
    /// The primitive has no vertex normals.
    MissingNormals,
}

/// What a file holds of one primitive: its indices, positions and normals,
/// each if present.
pub struct PrimitiveData {
    pub indices: Option<Vec<u32>>,
    pub positions: Option<Vec<Vec3_32>>,
    pub normals: Option<Vec<Vec3_32>>,
}

/// A mesh as values: indices, positions and normals.
pub type MeshView = (Seq<u16>, Seq<Vec3_32>, Seq<Vec3_32>);

/// The position of the first index that does not fit in sixteen bits.
pub open spec fn first_too_large(s: Seq<u32>) -> Option<int>
    decreases s.len(),
{
    if s.len() == 0 {
        None
    } else {
        match first_too_large(s.drop_last()) {
            Some(k) => Some(k),
            None => if s.last() > u16::MAX {
                Some(s.len() - 1)
            } else {
                None
            },
        }
    }
}

/// The indices in sixteen bits.
pub open spec fn narrowed(s: Seq<u32>) -> Seq<u16> {
    s.map_values(|x: u32| x as u16)
}

/// The mesh of one primitive, or why there is none: missing indices, then an
/// index too large, then missing positions, then missing normals.
pub open spec fn primitive_mesh(p: PrimitiveData) -> Result<MeshView, MeshError> {
    match p.indices {
        None => Err(MeshError::MissingIndices),
        Some(ix) => match first_too_large(ix@) {
            Some(k) => Err(MeshError::IndexTooLarge(k as usize)),
            None => match (p.positions, p.normals) {
                (None, _) => Err(MeshError::MissingPositions),
                (Some(_), None) => Err(MeshError::MissingNormals),
                (Some(ps), Some(ns)) => Ok((narrowed(ix@), ps@, ns@)),
            },
        },
    }
}

/// The mesh of a file's primitives, in order: the last primitive's mesh,
/// the first error of any primitive, or no vertices when there is no primitive.
pub open spec fn primitives_mesh(ps: Seq<PrimitiveData>) -> Result<MeshView, MeshError>
    decreases ps.len(),
{
    if ps.len() == 0 {
        Ok((Seq::empty(), Seq::empty(), Seq::empty()))
    } else {
        match primitives_mesh(ps.drop_last()) {
            Err(e) => Err(e),
            Ok(_) => primitive_mesh(ps.last()),
        }
    }
}

/// Whether a result is the given mesh or error.
pub open spec fn mesh_matches(r: Result<Mesh, MeshError>, v: Result<MeshView, MeshError>) -> bool {
    match r {
        Ok(m) => v == Ok::<MeshView, MeshError>((m.vertex_indices@, m.vertex_positions@, m.vertex_normals@)),
        Err(e) => v == Err::<MeshView, MeshError>(e),
    }
}

/// `first_too_large` finds the first index that does not fit.
proof fn lemma_first_too_large(s: Seq<u32>)
    ensures
        first_too_large(s) is None <==> indices_fit(s),
        first_too_large(s) matches Some(k) ==> 0 <= k < s.len() && s[k] > u16::MAX && indices_fit(s.take(k)),
    decreases s.len(),
{
    if s.len() > 0 {
        let q = s.drop_last();
        lemma_first_too_large(q);
        assert forall|i: int| 0 <= i < q.len() implies q[i] == s[i] by {}
        if let Some(k) = first_too_large(q) {
            assert(s.take(k) =~= q.take(k));
        } else if s.last() > u16::MAX {
            assert(s.take(s.len() - 1) =~= q);
        }
        assert(s[s.len() - 1] == s.last());
    }
}

/// What becomes of a primitive (law): a mesh exactly when it has indices
/// that all fit in sixteen bits, positions and normals, and then with the
/// same index values, positions and normals; an index too large is reported
/// at the first position whose index does not fit.
pub proof fn law_primitive_mesh(p: PrimitiveData)
    ensures
        primitive_mesh(p) is Ok <==> (p.indices matches Some(ix) && indices_fit(ix@) && p.positions is Some
            && p.normals is Some),
        primitive_mesh(p) matches Ok(m) ==> {
            &&& m.0.len() == p.indices->0@.len()
            &&& forall|i: int| 0 <= i < m.0.len() ==> #[trigger] m.0[i] as int == p.indices->0@[i] as int
            &&& m.1 == p.positions->0@
            &&& m.2 == p.normals->0@
        },
        primitive_mesh(p) matches Err(MeshError::IndexTooLarge(k)) ==> {
            &&& p.indices matches Some(ix)
            &&& first_too_large(ix@) matches Some(i)
            &&& k == i as usize
            &&& i <= usize::MAX ==> k == i
            &&& 0 <= i < ix@.len()
            &&& ix@[i] > u16::MAX
            &&& forall|j: int| 0 <= j < i ==> #[trigger] ix@[j] <= u16::MAX
        },
{
    if let Some(ix) = p.indices {
        lemma_first_too_large(ix@);
        if let Some(k) = first_too_large(ix@) {
            assert forall|j: int| 0 <= j < k implies #[trigger] ix@[j] <= u16::MAX by {
                assert(ix@.take(k)[j] == ix@[j]);
            }
        }
        if primitive_mesh(p) is Ok {
            let m = primitive_mesh(p)->Ok_0;
            assert forall|i: int| 0 <= i < m.0.len() implies #[trigger] m.0[i] as int == ix@[i] as int by {
                let x = ix@[i];
                assert(x <= u16::MAX);
                assert(m.0[i] == x as u16);
                assert((x as u16) as int == x as int) by (bit_vector)
                    requires
                        x <= 0xffff,
                ;
            }
        }
    }
}

/// Whether every index fits in sixteen bits.
pub open spec fn indices_fit(indices: Seq<u32>) -> bool {
    forall|i: int| 0 <= i < indices.len() ==> indices[i] <= u16::MAX
}

impl Mesh {
    /// The mesh of one primitive read from a file: see `primitive_mesh`.
    pub fn from_primitive_data(p: PrimitiveData) -> (r: Result<Mesh, MeshError>)
        ensures
            mesh_matches(r, primitive_mesh(p)),
    {
        let ghost pv = p;
        let PrimitiveData { indices, positions, normals } = p;
        match indices {
            None => Err(MeshError::MissingIndices),
            Some(ix) => {
                let mut narrowed_ix: Vec<u16> = Vec::new();
                let mut i: usize = 0;
                proof {
                    lemma_first_too_large(ix@);
                }
                while i < ix.len()
                    invariant
                        i <= ix@.len(),
                        pv == p,
                        pv.indices == Some(ix),
                        narrowed_ix@ == narrowed(ix@.take(i as int)),
                        indices_fit(ix@.take(i as int)),
                    decreases ix@.len() - i,
                {
                    let x = ix[i];
                    if x > 0xffff {
                        proof {
                            lemma_first_too_large(ix@);
                            assert(ix@[i as int] > u16::MAX);
                            assert(!indices_fit(ix@));
                            let k = first_too_large(ix@);
                            if let Some(k) = k {
                                if k < i {
                                    assert(ix@.take(i as int)[k] == ix@[k]);
                                }
                                if k > i {
                                    assert(ix@.take(k)[i as int] == ix@[i as int]);
                                }
                            }
                        }
                        return Err(MeshError::IndexTooLarge(i));
                    }
                    narrowed_ix.push(x as u16);
                    i = i + 1;
                    assert(narrowed_ix@ =~= narrowed(ix@.take(i as int)));
                    assert forall|j: int| 0 <= j < i implies ix@.take(i as int)[j] <= u16::MAX by {
                        if j < i - 1 {
                            assert(ix@.take(i as int)[j] == ix@.take(i - 1)[j]);
                        }
                    }
                }
                assert(ix@.take(i as int) =~= ix@);
                match (positions, normals) {
                    (None, _) => Err(MeshError::MissingPositions),
                    (Some(_), None) => Err(MeshError::MissingNormals),
                    (Some(ps), Some(ns)) => Ok(Mesh { vertex_indices: narrowed_ix, vertex_positions: ps, vertex_normals: ns }),
                }
            },
        }
    }

    /// The mesh of a file's primitives: see `primitives_mesh`.
    pub fn from_primitives(primitives: Vec<PrimitiveData>) -> (r: Result<Mesh, MeshError>)
        ensures
            mesh_matches(r, primitives_mesh(primitives@)),
    {
        let ghost all = primitives@;
        let mut rest = primitives;
        let mut mesh = Mesh { vertex_indices: Vec::new(), vertex_positions: Vec::new(), vertex_normals: Vec::new() };
        let ghost mut done: int = 0;
        assert(all.take(0) =~= Seq::<PrimitiveData>::empty());
        while rest.len() > 0
            invariant
                all == primitives@,
                0 <= done <= all.len(),
                rest@ == all.subrange(done, all.len() as int),
                mesh_matches(Ok(mesh), primitives_mesh(all.take(done))),
            decreases rest@.len(),
        {
            let ghost before = rest@;
            let p = rest.remove(0);
            proof {
                assert(p == all[done]);
                assert(all.take(done + 1).drop_last() =~= all.take(done));
                assert(all.take(done + 1).last() == all[done]);
                assert(rest@ =~= all.subrange(done + 1, all.len() as int));
            }
            match Mesh::from_primitive_data(p) {
                Ok(m) => {
                    mesh = m;
                },
                Err(e) => {
                    proof {
                        assert(primitives_mesh(all.take(done)) is Ok);
                        assert(primitives_mesh(all.take(done + 1)) == primitive_mesh(all[done]));
                        lemma_mesh_error_stays(all, done + 1);
                    }
                    return Err(e);
                },
            }
            proof {
                done = done + 1;
            }
        }
        assert(all.take(done) =~= all);
        Ok(mesh)
    }
}


/// An error of the primitives so far is the error of all of them.
proof fn lemma_mesh_error_stays(ps: Seq<PrimitiveData>, n: int)
    requires
        0 <= n <= ps.len(),
        primitives_mesh(ps.take(n)) is Err,
    ensures
        primitives_mesh(ps) == primitives_mesh(ps.take(n)),
    decreases ps.len() - n,
{
    if n < ps.len() {
        assert(ps.take(n + 1).drop_last() =~= ps.take(n));
        lemma_mesh_error_stays(ps, n + 1);
    } else {
        assert(ps.take(n) =~= ps);
    }
}

} // verus!
