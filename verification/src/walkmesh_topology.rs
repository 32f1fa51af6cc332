//! The topology of a walkmesh: which vertices each triangle joins and which
//! surface each triangle has. The coordinates stay with the caller; the edits
//! here decide how faces, surfaces and vertex numbering change.
use crate::error::EditError;
use crate::resource::{text_bytes, WalkmeshKind};
use crate::text::{is_blank, is_blank_text};
use vstd::prelude::*;
use vstd::seq_lib::group_to_multiset_ensures;

verus! {

/// A walkmesh without its coordinates: how many vertices it has, the three
/// vertex indices of each face and the surface of each face (none recorded,
/// or one per face).
#[derive(Debug, Clone, PartialEq, Eq)]
pub struct WalkmeshTopology {
    pub vertex_count: usize,
    pub faces: Vec<[u32; 3]>,
    pub surface_ids: Vec<i32>,
}

/// Every index of the face names an existing vertex.
pub open spec fn face_in_range(face: [u32; 3], vertex_count: int) -> bool {
    face[0] < vertex_count && face[1] < vertex_count && face[2] < vertex_count
}

/// Every face names only existing vertices.
pub open spec fn faces_in_range(faces: Seq<[u32; 3]>, vertex_count: int) -> bool {
    forall|i: int| 0 <= i < faces.len() ==> face_in_range(#[trigger] faces[i], vertex_count)
}

/// Some face names the vertex.
pub open spec fn vertex_used(faces: Seq<[u32; 3]>, vertex: int) -> bool {
    exists|i: int, k: int| 0 <= i < faces.len() && 0 <= k < 3 && #[trigger] faces[i][k] == vertex
}

/// The vertices that `kept` lists are those in use, in increasing order, and
/// `compacted` names by position in `kept` the vertices `faces` named.
pub open spec fn compaction(
    vertex_count: int,
    faces: Seq<[u32; 3]>,
    kept: Seq<usize>,
    compacted: Seq<[u32; 3]>,
) -> bool {
    &&& forall|i: int, j: int| 0 <= i < j < kept.len() ==> kept[i] < kept[j]
    &&& forall|i: int| 0 <= i < kept.len() ==> #[trigger] kept[i] < vertex_count
    &&& forall|i: int| 0 <= i < kept.len() ==> vertex_used(faces, #[trigger] kept[i] as int)
    &&& forall|v: int|
        0 <= v < vertex_count && vertex_used(faces, v) ==> #[trigger] kept.contains(v as usize)
    &&& compacted.len() == faces.len()
    &&& forall|i: int, k: int|
        0 <= i < faces.len() && 0 <= k < 3 ==> #[trigger] compacted[i][k] < kept.len() && kept[
            compacted[i][k] as int
        ] == faces[i][k]
}

/// Drops the vertices that no face names and renumbers the rest in their
/// order: `kept` lists the old index of each vertex kept, and the faces name
/// vertices by their new index.
pub fn compact_vertex_indices(vertex_count: usize, faces: &Vec<[u32; 3]>) -> (result: (
    Vec<usize>,
    Vec<[u32; 3]>,
))
    requires
        faces_in_range(faces@, vertex_count as int),
    ensures
        compaction(vertex_count as int, faces@, result.0@, result.1@),
{
    let mut used: Vec<bool> = Vec::new();
    let mut v: usize = 0;
    while v < vertex_count
        invariant
            v <= vertex_count,
            used@.len() == v,
            forall|w: int| 0 <= w < v ==> !used@[w],
        decreases vertex_count - v,
    {
        used.push(false);
        v = v + 1;
    }
    let mut i: usize = 0;
    while i < faces.len()
        invariant
            i <= faces@.len(),
            used@.len() == vertex_count,
            faces_in_range(faces@, vertex_count as int),
            forall|w: int|
                0 <= w < vertex_count ==> (used@[w] <==> exists|j: int, k: int|
                    0 <= j < i && 0 <= k < 3 && #[trigger] faces@[j][k] == w),
        decreases faces@.len() - i,
    {
        let face = faces[i];
        assert(face_in_range(faces@[i as int], vertex_count as int));
        used.set(face[0] as usize, true);
        used.set(face[1] as usize, true);
        used.set(face[2] as usize, true);
        proof {
            assert forall|w: int| 0 <= w < vertex_count implies (used@[w] <==> exists|j: int, k: int|
                0 <= j < i + 1 && 0 <= k < 3 && #[trigger] faces@[j][k] == w) by {
                if used@[w] && !(w == face[0] || w == face[1] || w == face[2]) {
                    let (j, k) = choose|j: int, k: int|
                        0 <= j < i && 0 <= k < 3 && #[trigger] faces@[j][k] == w;
                    assert(0 <= j < i + 1 && 0 <= k < 3 && faces@[j][k] == w);
                }
                if w == face[0] {
                    assert(faces@[i as int][0] == w);
                }
                if w == face[1] {
                    assert(faces@[i as int][1] == w);
                }
                if w == face[2] {
                    assert(faces@[i as int][2] == w);
                }
            }
        }
        i = i + 1;
    }
    let mut kept: Vec<usize> = Vec::new();
    let mut remap: Vec<u32> = Vec::new();
    let mut w: usize = 0;
    while w < vertex_count
        invariant
            w <= vertex_count,
            used@.len() == vertex_count,
            remap@.len() == w,
            forall|x: int|
                0 <= x < vertex_count ==> (used@[x] <==> vertex_used(faces@, x)),
            forall|a: int, b: int| 0 <= a < b < kept@.len() ==> kept@[a] < kept@[b],
            forall|a: int| 0 <= a < kept@.len() ==> #[trigger] kept@[a] < w,
            forall|a: int| 0 <= a < kept@.len() ==> used@[#[trigger] kept@[a] as int],
            forall|x: int| 0 <= x < w && used@[x] ==> #[trigger] kept@.contains(x as usize),
            forall|x: int|
                0 <= x < w && used@[x] ==> (#[trigger] remap@[x]) < kept@.len() && kept@[remap@[x] as int]
                    == x,
            kept@.len() <= w,
        decreases vertex_count - w,
    {
        if used[w] {
            proof {
                assert(vertex_used(faces@, w as int));
                let (j, k) = choose|j: int, k: int|
                    0 <= j < faces@.len() && 0 <= k < 3 && #[trigger] faces@[j][k] == w;
                assert(faces@[j][k] <= u32::MAX);
            }
            remap.push(kept.len() as u32);
            let ghost before = kept@;
            kept.push(w);
            assert(kept@[kept@.len() - 1] == w);
            proof {
                assert forall|x: int| 0 <= x < w + 1 && used@[x] implies #[trigger] kept@.contains(
                    x as usize,
                ) by {
                    if x < w {
                        assert(before.contains(x as usize));
                        let idx = choose|idx: int| 0 <= idx < before.len() && before[idx] == x as usize;
                        assert(kept@[idx] == x as usize);
                    } else {
                        assert(kept@[kept@.len() - 1] == x as usize);
                    }
                }
            }
        } else {
            remap.push(0);
        }
        w = w + 1;
    }
    let mut compacted: Vec<[u32; 3]> = Vec::new();
    let mut i: usize = 0;
    while i < faces.len()
        invariant
            i <= faces@.len(),
            faces_in_range(faces@, vertex_count as int),
            used@.len() == vertex_count,
            remap@.len() == vertex_count,
            forall|x: int|
                0 <= x < vertex_count ==> (used@[x] <==> vertex_used(faces@, x)),
            forall|x: int|
                0 <= x < vertex_count && used@[x] ==> (#[trigger] remap@[x]) < kept@.len()
                    && kept@[remap@[x] as int] == x,
            compacted@.len() == i,
            forall|j: int, k: int|
                0 <= j < i && 0 <= k < 3 ==> #[trigger] compacted@[j][k] < kept@.len() && kept@[
                    compacted@[j][k] as int
                ] == faces@[j][k],
        decreases faces@.len() - i,
    {
        let face = faces[i];
        assert(face_in_range(faces@[i as int], vertex_count as int));
        proof {
            assert(vertex_used(faces@, face[0] as int)) by {
                assert(faces@[i as int][0] == face[0]);
            }
            assert(vertex_used(faces@, face[1] as int)) by {
                assert(faces@[i as int][1] == face[1]);
            }
            assert(vertex_used(faces@, face[2] as int)) by {
                assert(faces@[i as int][2] == face[2]);
            }
        }
        let mapped: [u32; 3] = [
            remap[face[0] as usize],
            remap[face[1] as usize],
            remap[face[2] as usize],
        ];
        compacted.push(mapped);
        proof {
            assert forall|j: int, k: int| 0 <= j < i + 1 && 0 <= k < 3 implies #[trigger] compacted@[j][k] < kept@.len() && kept@[compacted@[j][k] as int]
                == faces@[j][k] by {
                if j == i {
                    assert(compacted@[j] == mapped);
                }
            }
        }
        i = i + 1;
    }
    (kept, compacted)
}

/// The vertices of a face, where the face exists and names only existing
/// vertices.
pub fn face_vertices(topology: &WalkmeshTopology, face_index: usize) -> (result: Result<
    [u32; 3],
    EditError,
>)
    ensures
        face_index >= topology.faces@.len() ==> result == Err::<[u32; 3], EditError>(
            EditError::WalkmeshFaceNotFound,
        ),
        face_index < topology.faces@.len() ==> result == if face_in_range(
            topology.faces@[face_index as int],
            topology.vertex_count as int,
        ) {
            Ok::<[u32; 3], EditError>(topology.faces@[face_index as int])
        } else {
            Err(EditError::WalkmeshFaceInvalid)
        },
{
    if face_index >= topology.faces.len() {
        return Err(EditError::WalkmeshFaceNotFound);
    }
    let face = topology.faces[face_index];
    let count = topology.vertex_count;
    if face[0] as usize >= count || face[1] as usize >= count || face[2] as usize >= count {
        return Err(EditError::WalkmeshFaceInvalid);
    }
    Ok(face)
}

/// The surface that a face takes over from `surfaces`: its own, or 0 where
/// none is recorded for it.
pub open spec fn surface_at(surfaces: Seq<i32>, face_index: int) -> i32 {
    if 0 <= face_index < surfaces.len() {
        surfaces[face_index]
    } else {
        0
    }
}

/// The faces after face `face_index`, `[a, b, c]`, is split around vertex
/// `center`: it becomes `[a, b, center]`, and `[b, c, center]` and
/// `[c, a, center]` follow the other faces.
pub open spec fn split_faces(faces: Seq<[u32; 3]>, face_index: int, center: u32) -> Seq<[u32; 3]> {
    let face = faces[face_index];
    faces.update(face_index, [face[0], face[1], center]).push([face[1], face[2], center]).push(
        [face[2], face[0], center],
    )
}

/// Splits a face into three around a new vertex, its centre, that the caller
/// placed at index `center`: the face keeps its first edge and two faces join
/// the other edges to the centre; recorded surfaces carry over to the new
/// faces.
pub fn split_face(topology: &mut WalkmeshTopology, face_index: usize, center: u32)
    requires
        face_index < old(topology).faces@.len(),
        old(topology).surface_ids@.len() == 0 || face_index < old(topology).surface_ids@.len(),
        old(topology).vertex_count < usize::MAX,
    ensures
        final(topology).vertex_count == old(topology).vertex_count + 1,
        final(topology).faces@ == split_faces(old(topology).faces@, face_index as int, center),
        final(topology).surface_ids@ == if old(topology).surface_ids@.len() == 0 {
            old(topology).surface_ids@
        } else {
            old(topology).surface_ids@.push(old(topology).surface_ids@[face_index as int]).push(
                old(topology).surface_ids@[face_index as int],
            )
        },
{
    let face = topology.faces[face_index];
    topology.vertex_count = topology.vertex_count + 1;
    topology.faces.set(face_index, [face[0], face[1], center]);
    topology.faces.push([face[1], face[2], center]);
    topology.faces.push([face[2], face[0], center]);
    if topology.surface_ids.len() > 0 {
        let surface = topology.surface_ids[face_index];
        topology.surface_ids.push(surface);
        topology.surface_ids.push(surface);
    }
}

/// The seven faces that extruding face `[a, b, c]` to new vertices `d`, `e`,
/// `f` adds: the moved face, turned over, and two faces per side.
pub open spec fn extrusion_faces(face: [u32; 3], first: u32) -> Seq<[u32; 3]> {
    let (a, b, c) = (face[0], face[1], face[2]);
    let (d, e, f) = (first, (first + 1) as u32, (first + 2) as u32);
    seq![[f, e, d], [b, a, d], [b, d, e], [c, b, e], [c, e, f], [a, c, f], [a, f, d]]
}

/// Extrudes a face to three new vertices that the caller placed at indices
/// `first`, `first + 1` and `first + 2`, adding the seven faces of
/// `extrusion_faces`; recorded surfaces carry over to them.
pub fn extrude_face(topology: &mut WalkmeshTopology, face_index: usize, first: u32)
    requires
        face_index < old(topology).faces@.len(),
        first <= u32::MAX - 2,
        old(topology).vertex_count <= usize::MAX - 3,
    ensures
        final(topology).vertex_count == old(topology).vertex_count + 3,
        final(topology).faces@ == old(topology).faces@ + extrusion_faces(
            old(topology).faces@[face_index as int],
            first,
        ),
        final(topology).surface_ids@ == if old(topology).surface_ids@.len() == 0 {
            old(topology).surface_ids@
        } else {
            old(topology).surface_ids@ + Seq::new(
                7,
                |i: int| surface_at(old(topology).surface_ids@, face_index as int),
            )
        },
{
    let face = topology.faces[face_index];
    let (a, b, c) = (face[0], face[1], face[2]);
    let (d, e, f) = (first, first + 1, first + 2);
    topology.vertex_count = topology.vertex_count + 3;
    topology.faces.push([f, e, d]);
    topology.faces.push([b, a, d]);
    topology.faces.push([b, d, e]);
    topology.faces.push([c, b, e]);
    topology.faces.push([c, e, f]);
    topology.faces.push([a, c, f]);
    topology.faces.push([a, f, d]);
    assert(topology.faces@ =~= old(topology).faces@ + extrusion_faces(face, first));
    if topology.surface_ids.len() > 0 {
        let surface = if face_index < topology.surface_ids.len() {
            topology.surface_ids[face_index]
        } else {
            0
        };
        let mut added: usize = 0;
        while added < 7
            invariant
                added <= 7,
                face_index < old(topology).faces@.len(),
                topology.vertex_count == old(topology).vertex_count + 3,
                topology.faces@ == old(topology).faces@ + extrusion_faces(
                    old(topology).faces@[face_index as int],
                    first,
                ),
                surface == surface_at(old(topology).surface_ids@, face_index as int),
                topology.surface_ids@ == old(topology).surface_ids@ + Seq::new(
                    added as nat,
                    |i: int| surface_at(old(topology).surface_ids@, face_index as int),
                ),
            decreases 7 - added,
        {
            topology.surface_ids.push(surface);
            added = added + 1;
            assert(topology.surface_ids@ =~= old(topology).surface_ids@ + Seq::new(
                added as nat,
                |i: int| surface_at(old(topology).surface_ids@, face_index as int),
            ));
        }
    }
}

/// Removes a face (and its surface, where one is recorded for it), then drops
/// the vertices no face names any more; gives the old index of each vertex
/// kept.
pub fn remove_face(topology: &mut WalkmeshTopology, face_index: usize) -> (result: Result<
    Vec<usize>,
    EditError,
>)
    requires
        face_index < old(topology).faces@.len() ==> faces_in_range(
            old(topology).faces@.remove(face_index as int),
            old(topology).vertex_count as int,
        ),
    ensures
        face_index >= old(topology).faces@.len() ==> result == Err::<Vec<usize>, EditError>(
            EditError::WalkmeshFaceNotFound,
        ) && *final(topology) == *old(topology),
        face_index < old(topology).faces@.len() ==> (result matches Ok(kept) && {
            &&& compaction(
                old(topology).vertex_count as int,
                old(topology).faces@.remove(face_index as int),
                kept@,
                final(topology).faces@,
            )
            &&& final(topology).vertex_count == kept@.len()
            &&& final(topology).surface_ids@ == if face_index < old(topology).surface_ids@.len() {
                old(topology).surface_ids@.remove(face_index as int)
            } else {
                old(topology).surface_ids@
            }
        }),
{
    if face_index >= topology.faces.len() {
        return Err(EditError::WalkmeshFaceNotFound);
    }
    topology.faces.remove(face_index);
    if face_index < topology.surface_ids.len() {
        topology.surface_ids.remove(face_index);
    }
    let (kept, faces) = compact_vertex_indices(topology.vertex_count, &topology.faces);
    topology.vertex_count = kept.len();
    topology.faces = faces;
    Ok(kept)
}

/// The surfaces after one is set on a face: one per face (dropping any beyond
/// the faces, adding 0 for faces without one), the face's set to `surface_id`.
pub open spec fn surfaces_with(surfaces: Seq<i32>, face_count: int, face_index: int, surface_id: i32) -> Seq<i32> {
    Seq::new(face_count as nat, |i: int| if i == face_index { surface_id } else { surface_at(surfaces, i) })
}

/// Sets the surface of a face, giving every face a recorded surface.
pub fn set_surface(topology: &mut WalkmeshTopology, face_index: usize, surface_id: i32) -> (result: Result<(), EditError>)
    ensures
        face_index >= old(topology).faces@.len() ==> result == Err::<(), EditError>(
            EditError::WalkmeshFaceNotFound,
        ) && *final(topology) == *old(topology),
        face_index < old(topology).faces@.len() ==> {
            &&& result is Ok
            &&& final(topology).vertex_count == old(topology).vertex_count
            &&& final(topology).faces@ == old(topology).faces@
            &&& final(topology).surface_ids@ == surfaces_with(
                old(topology).surface_ids@,
                old(topology).faces@.len() as int,
                face_index as int,
                surface_id,
            )
        },
{
    let count = topology.faces.len();
    if face_index >= count {
        return Err(EditError::WalkmeshFaceNotFound);
    }
    let ghost old_surfaces = topology.surface_ids@;
    let mut surfaces: Vec<i32> = Vec::new();
    let mut i: usize = 0;
    while i < count
        invariant
            i <= count,
            count == topology.faces@.len(),
            face_index < count,
            old_surfaces == topology.surface_ids@,
            surfaces@ == surfaces_with(old_surfaces, count as int, face_index as int, surface_id).take(
                i as int,
            ),
        decreases count - i,
    {
        let value = if i == face_index {
            surface_id
        } else if i < topology.surface_ids.len() {
            topology.surface_ids[i]
        } else {
            0
        };
        surfaces.push(value);
        i = i + 1;
        assert(surfaces@ =~= surfaces_with(old_surfaces, count as int, face_index as int, surface_id).take(
            i as int,
        ));
    }
    assert(surfaces@ =~= surfaces_with(old_surfaces, count as int, face_index as int, surface_id));
    topology.surface_ids = surfaces;
    Ok(())
}

/// Two indices of the face are the same vertex.
pub open spec fn degenerate(face: [u32; 3]) -> bool {
    face[0] == face[1] || face[1] == face[2] || face[0] == face[2]
}

/// A face with its vertices renumbered by `remap`.
pub open spec fn remapped(face: [u32; 3], remap: Seq<u32>) -> [u32; 3] {
    [remap[face[0] as int], remap[face[1] as int], remap[face[2] as int]]
}

/// The faces and surfaces after welding renumbers the vertices by `remap`:
/// each face renumbered, those that became degenerate dropped, and each kept
/// face given its surface (0 where none is recorded).
pub open spec fn welded(faces: Seq<[u32; 3]>, surfaces: Seq<i32>, remap: Seq<u32>) -> (Seq<[u32; 3]>, Seq<i32>)
    decreases faces.len(),
{
    if faces.len() == 0 {
        (Seq::empty(), Seq::empty())
    } else {
        let (kept, kept_surfaces) = welded(faces.drop_last(), surfaces, remap);
        let face = remapped(faces.last(), remap);
        if degenerate(face) {
            (kept, kept_surfaces)
        } else {
            (kept.push(face), kept_surfaces.push(surface_at(surfaces, faces.len() - 1)))
        }
    }
}

proof fn lemma_welded_in_range(faces: Seq<[u32; 3]>, surfaces: Seq<i32>, remap: Seq<u32>, count: int)
    requires
        faces_in_range(faces, remap.len() as int),
        forall|v: int| 0 <= v < remap.len() ==> #[trigger] remap[v] < count,
    ensures
        faces_in_range(welded(faces, surfaces, remap).0, count),
        welded(faces, surfaces, remap).0.len() == welded(faces, surfaces, remap).1.len(),
    decreases faces.len(),
{
    if faces.len() > 0 {
        assert(faces_in_range(faces.drop_last(), remap.len() as int)) by {
            assert forall|i: int| 0 <= i < faces.drop_last().len() implies face_in_range(
                #[trigger] faces.drop_last()[i],
                remap.len() as int,
            ) by {
                assert(faces.drop_last()[i] == faces[i]);
            }
        }
        lemma_welded_in_range(faces.drop_last(), surfaces, remap, count);
        assert(face_in_range(faces[faces.len() - 1], remap.len() as int));
    }
}

/// Renumbers the faces by the vertex map of a weld (`remap` gives each old
/// vertex its welded index among `welded_vertex_count`), drops the faces that
/// became degenerate, gives each kept face its surface, then drops unused
/// vertices; gives the welded index of each vertex kept. A face that names a
/// vertex beyond the map stops the weld and leaves the topology as it was.
pub fn weld_faces(topology: &mut WalkmeshTopology, remap: &Vec<u32>, welded_vertex_count: usize) -> (result:
    Result<Vec<usize>, EditError>)
    requires
        forall|v: int| 0 <= v < remap@.len() ==> #[trigger] remap@[v] < welded_vertex_count,
    ensures
        !faces_in_range(old(topology).faces@, remap@.len() as int) ==> result == Err::<
            Vec<usize>,
            EditError,
        >(EditError::WalkmeshFaceInvalid) && *final(topology) == *old(topology),
        faces_in_range(old(topology).faces@, remap@.len() as int) ==> (result matches Ok(kept) && {
            let (faces, surfaces) = welded(old(topology).faces@, old(topology).surface_ids@, remap@);
            &&& compaction(welded_vertex_count as int, faces, kept@, final(topology).faces@)
            &&& final(topology).vertex_count == kept@.len()
            &&& final(topology).surface_ids@ == surfaces
        }),
{
    let mut faces: Vec<[u32; 3]> = Vec::new();
    let mut surfaces: Vec<i32> = Vec::new();
    let ghost all = topology.faces@;
    let mut i: usize = 0;
    while i < topology.faces.len()
        invariant
            i <= all.len(),
            all == topology.faces@,
            *topology == *old(topology),
            faces_in_range(all.take(i as int), remap@.len() as int),
            (faces@, surfaces@) == welded(all.take(i as int), topology.surface_ids@, remap@),
        decreases all.len() - i,
    {
        let face = topology.faces[i];
        let limit = remap.len();
        if face[0] as usize >= limit || face[1] as usize >= limit || face[2] as usize >= limit {
            assert(!face_in_range(all[i as int], remap@.len() as int));
            return Err(EditError::WalkmeshFaceInvalid);
        }
        let mapped: [u32; 3] = [remap[face[0] as usize], remap[face[1] as usize], remap[face[2] as usize]];
        proof {
            assert(all.take(i + 1).drop_last() =~= all.take(i as int));
            assert(all.take(i + 1).last() == face);
            assert(mapped == remapped(face, remap@));
            assert(faces_in_range(all.take(i + 1), remap@.len() as int)) by {
                assert forall|j: int| 0 <= j < i + 1 implies face_in_range(
                    #[trigger] all.take(i + 1)[j],
                    remap@.len() as int,
                ) by {
                    if j < i {
                        assert(all.take(i + 1)[j] == all.take(i as int)[j]);
                    }
                }
            }
        }
        if !(mapped[0] == mapped[1] || mapped[1] == mapped[2] || mapped[0] == mapped[2]) {
            faces.push(mapped);
            let surface = if i < topology.surface_ids.len() {
                topology.surface_ids[i]
            } else {
                0
            };
            surfaces.push(surface);
        }
        i = i + 1;
    }
    proof {
        assert(all.take(all.len() as int) =~= all);
        lemma_welded_in_range(all, topology.surface_ids@, remap@, welded_vertex_count as int);
    }
    let (kept, compacted) = compact_vertex_indices(welded_vertex_count, &faces);
    topology.vertex_count = kept.len();
    topology.faces = compacted;
    topology.surface_ids = surfaces;
    Ok(kept)
}

/// What a walkmesh's topology is found wanting in: a face that joins a vertex
/// to itself, names a missing vertex, repeats an earlier face or encloses no
/// area; an edge that more than two faces share, or that two faces run the
/// same way.
#[derive(Debug, Clone, Copy, PartialEq, Eq)]
pub enum WalkmeshIssue {
    FaceDegenerate { face: usize },
    FaceVertexMissing { face: usize },
    FaceDuplicate { face: usize },
    FaceZeroArea { face: usize },
    EdgeNonManifold { from: u32, to: u32, faces: usize },
    EdgeOrientation { from: u32, to: u32 },
}

/// The order of `Ord` on `(u32, u32, u32, usize)`: lexicographic.
pub open spec fn quad_le(a: (u32, u32, u32, usize), b: (u32, u32, u32, usize)) -> bool {
    ||| a.0 < b.0
    ||| a.0 == b.0 && a.1 < b.1
    ||| a.0 == b.0 && a.1 == b.1 && a.2 < b.2
    ||| a.0 == b.0 && a.1 == b.1 && a.2 == b.2 && a.3 <= b.3
}

/// `slice::sort_unstable` (std) on quadruples of integers: the result is a
/// rearrangement of the quadruples in non-decreasing lexicographic order.
#[verifier::external_body]
fn sort_quads(quads: &mut Vec<(u32, u32, u32, usize)>)
    ensures
        final(quads)@.len() == old(quads)@.len(),
        final(quads)@.to_multiset() == old(quads)@.to_multiset(),
        forall|a: int, b: int|
            0 <= a < b < final(quads)@.len() ==> quad_le(
                #[trigger] final(quads)@[a],
                #[trigger] final(quads)@[b],
            ),
{
    quads.sort_unstable();
}

/// The vertices of a face in increasing order.
pub open spec fn canonical(face: [u32; 3]) -> (u32, u32, u32) {
    let (a, b, c) = (face[0], face[1], face[2]);
    if a <= b {
        if b <= c {
            (a, b, c)
        } else if a <= c {
            (a, c, b)
        } else {
            (c, a, b)
        }
    } else {
        if a <= c {
            (b, a, c)
        } else if b <= c {
            (b, c, a)
        } else {
            (c, b, a)
        }
    }
}

fn canonical_of(face: [u32; 3]) -> (sorted: (u32, u32, u32))
    ensures
        sorted == canonical(face),
{
    let (a, b, c) = (face[0], face[1], face[2]);
    if a <= b {
        if b <= c {
            (a, b, c)
        } else if a <= c {
            (a, c, b)
        } else {
            (c, a, b)
        }
    } else {
        if a <= c {
            (b, a, c)
        } else if b <= c {
            (b, c, a)
        } else {
            (c, b, a)
        }
    }
}

/// Face `i` names the same three vertices as an earlier face that names only
/// existing vertices.
pub open spec fn repeats_earlier_face(faces: Seq<[u32; 3]>, vertex_count: int, i: int) -> bool {
    exists|j: int|
        0 <= j < i && face_in_range(#[trigger] faces[j], vertex_count) && canonical(faces[j])
            == canonical(faces[i])
}

/// What is found wanting in face `i`, in the order it is checked: degenerate;
/// then either a missing vertex (nothing more is checked), or a repeat of an
/// earlier face and no area (`zero_area`, judged by the caller from the
/// coordinates).
pub open spec fn issues_of_face(faces: Seq<[u32; 3]>, vertex_count: int, zero_area: Seq<bool>, i: int) -> Seq<
    WalkmeshIssue,
> {
    let face = faces[i];
    let first: Seq<WalkmeshIssue> = if degenerate(face) {
        seq![WalkmeshIssue::FaceDegenerate { face: i as usize }]
    } else {
        seq![]
    };
    if !face_in_range(face, vertex_count) {
        first.push(WalkmeshIssue::FaceVertexMissing { face: i as usize })
    } else {
        let second = if repeats_earlier_face(faces, vertex_count, i) {
            first.push(WalkmeshIssue::FaceDuplicate { face: i as usize })
        } else {
            first
        };
        if zero_area[i] {
            second.push(WalkmeshIssue::FaceZeroArea { face: i as usize })
        } else {
            second
        }
    }
}

/// What is found wanting in the first `n` faces, face by face.
pub open spec fn face_issue_list(faces: Seq<[u32; 3]>, vertex_count: int, zero_area: Seq<bool>, n: int) -> Seq<
    WalkmeshIssue,
>
    decreases n,
{
    if n <= 0 {
        Seq::empty()
    } else {
        face_issue_list(faces, vertex_count, zero_area, n - 1) + issues_of_face(
            faces,
            vertex_count,
            zero_area,
            n - 1,
        )
    }
}

/// A face with its vertices in increasing order and its position.
pub open spec fn face_quad(face: [u32; 3], i: int) -> (u32, u32, u32, usize) {
    (canonical(face).0, canonical(face).1, canonical(face).2, i as usize)
}

/// The faces that name only existing vertices, each as `face_quad`, in order.
pub open spec fn face_quads(faces: Seq<[u32; 3]>, vertex_count: int) -> Seq<(u32, u32, u32, usize)>
    decreases faces.len(),
{
    if faces.len() == 0 {
        Seq::empty()
    } else {
        let before = face_quads(faces.drop_last(), vertex_count);
        let i = faces.len() - 1;
        if face_in_range(faces[i], vertex_count) {
            before.push(face_quad(faces[i], i))
        } else {
            before
        }
    }
}

proof fn lemma_face_quads(faces: Seq<[u32; 3]>, vertex_count: int)
    requires
        faces.len() <= usize::MAX,
    ensures
        forall|a: int, b: int|
            0 <= a < b < face_quads(faces, vertex_count).len() ==> (#[trigger] face_quads(
                faces,
                vertex_count,
            )[a]).3 < (#[trigger] face_quads(faces, vertex_count)[b]).3,
        forall|a: int|
            0 <= a < face_quads(faces, vertex_count).len() ==> {
                let q = #[trigger] face_quads(faces, vertex_count)[a];
                &&& (q.3 as int) < faces.len()
                &&& face_in_range(faces[q.3 as int], vertex_count)
                &&& q == face_quad(faces[q.3 as int], q.3 as int)
            },
        forall|i: int|
            0 <= i < faces.len() && face_in_range(#[trigger] faces[i], vertex_count) ==> face_quads(
                faces,
                vertex_count,
            ).contains(face_quad(faces[i], i)),
    decreases faces.len(),
{
    if faces.len() > 0 {
        let front = faces.drop_last();
        lemma_face_quads(front, vertex_count);
        let before = face_quads(front, vertex_count);
        let all = face_quads(faces, vertex_count);
        let i = faces.len() - 1;
        if face_in_range(faces[i], vertex_count) {
            assert(all == before.push(face_quad(faces[i], i)));
        } else {
            assert(all == before);
        }
        assert forall|j: int| 0 <= j < front.len() implies #[trigger] front[j] == faces[j] by {}
        assert forall|j: int|
            0 <= j < faces.len() && face_in_range(#[trigger] faces[j], vertex_count) implies all.contains(
            face_quad(faces[j], j),
        ) by {
            if j < i {
                assert(front[j] == faces[j]);
                assert(before.contains(face_quad(faces[j], j)));
                let k = choose|k: int| 0 <= k < before.len() && before[k] == face_quad(faces[j], j);
                assert(all[k] == before[k]);
            } else {
                assert(all[all.len() - 1] == face_quad(faces[j], j));
            }
        }
        assert forall|a: int| 0 <= a < all.len() implies {
            let q = #[trigger] all[a];
            &&& (q.3 as int) < faces.len()
            &&& face_in_range(faces[q.3 as int], vertex_count)
            &&& q == face_quad(faces[q.3 as int], q.3 as int)
        } by {
            if a < before.len() {
                assert(all[a] == before[a]);
                assert(front[before[a].3 as int] == faces[before[a].3 as int]);
            }
        }
        assert forall|a: int, b: int| 0 <= a < b < all.len() implies (#[trigger] all[a]).3 < (
        #[trigger] all[b]).3 by {
            if b < before.len() {
                assert(all[a] == before[a] && all[b] == before[b]);
            } else {
                assert(all[a] == before[a]);
                assert((before[a].3 as int) < front.len());
            }
        }
    }
}

/// The position of face `i`'s quadruple among sorted quadruples decides
/// whether it repeats an earlier face: it does exactly when the quadruple
/// before it holds the same vertices.
proof fn lemma_repeat_by_neighbour(
    faces: Seq<[u32; 3]>,
    vertex_count: int,
    sorted: Seq<(u32, u32, u32, usize)>,
    p: int,
)
    requires
        faces.len() <= usize::MAX,
        sorted.to_multiset() == face_quads(faces, vertex_count).to_multiset(),
        sorted.no_duplicates(),
        forall|a: int, b: int| 0 <= a < b < sorted.len() ==> quad_le(#[trigger] sorted[a], #[trigger] sorted[b]),
        0 <= p < sorted.len(),
    ensures
        (sorted[p].3 as int) < faces.len(),
        face_in_range(faces[sorted[p].3 as int], vertex_count),
        sorted[p] == face_quad(faces[sorted[p].3 as int], sorted[p].3 as int),
        repeats_earlier_face(faces, vertex_count, sorted[p].3 as int) <==> (p > 0 && sorted[p - 1].0
            == sorted[p].0 && sorted[p - 1].1 == sorted[p].1 && sorted[p - 1].2 == sorted[p].2),
{
    broadcast use group_to_multiset_ensures;

    let quads = face_quads(faces, vertex_count);
    lemma_face_quads(faces, vertex_count);
    assert(sorted.to_multiset().count(sorted[p]) > 0);
    assert(quads.contains(sorted[p]));
    let k = choose|k: int| 0 <= k < quads.len() && quads[k] == sorted[p];
    assert(quads[k] == sorted[p]);
    let i = sorted[p].3 as int;
    if p > 0 && sorted[p - 1].0 == sorted[p].0 && sorted[p - 1].1 == sorted[p].1 && sorted[p - 1].2
        == sorted[p].2 {
        assert(sorted.to_multiset().count(sorted[p - 1]) > 0);
        assert(quads.contains(sorted[p - 1]));
        let m = choose|m: int| 0 <= m < quads.len() && quads[m] == sorted[p - 1];
        assert(quads[m] == sorted[p - 1]);
        assert(quad_le(sorted[p - 1], sorted[p]));
        assert(sorted[p - 1] != sorted[p]);
        let j = sorted[p - 1].3 as int;
        assert(j < i);
        assert(face_in_range(faces[j], vertex_count) && canonical(faces[j]) == canonical(faces[i]));
    }
    if repeats_earlier_face(faces, vertex_count, i) {
        let j = choose|j: int|
            0 <= j < i && face_in_range(#[trigger] faces[j], vertex_count) && canonical(faces[j])
                == canonical(faces[i]);
        let target = face_quad(faces[j], j);
        assert(quads.contains(target));
        assert(sorted.to_multiset().count(target) > 0);
        assert(sorted.contains(target));
        let r = choose|r: int| 0 <= r < sorted.len() && sorted[r] == target;
        if r >= p {
            if r > p {
                assert(quad_le(sorted[p], sorted[r]));
            }
            assert(false);
        }
        if r < p - 1 {
            assert(quad_le(sorted[r], sorted[p - 1]));
            assert(quad_le(sorted[p - 1], sorted[p]));
        }
    }
}

/// What is found wanting in each face, face by face: degenerate faces, faces
/// that name a missing vertex, repeats of an earlier face, and faces without
/// area (`zero_area`, one flag per face, judged by the caller from the
/// coordinates).
pub fn face_issues(vertex_count: usize, faces: &Vec<[u32; 3]>, zero_area: &Vec<bool>) -> (issues: Vec<
    WalkmeshIssue,
>)
    requires
        zero_area@.len() == faces@.len(),
    ensures
        issues@ == face_issue_list(faces@, vertex_count as int, zero_area@, faces@.len() as int),
{
    broadcast use group_to_multiset_ensures;

    let mut quads: Vec<(u32, u32, u32, usize)> = Vec::new();
    let mut i: usize = 0;
    while i < faces.len()
        invariant
            i <= faces@.len(),
            quads@ == face_quads(faces@.take(i as int), vertex_count as int),
        decreases faces@.len() - i,
    {
        let face = faces[i];
        proof {
            assert(faces@.take(i + 1).drop_last() =~= faces@.take(i as int));
            assert(faces@.take(i + 1)[i as int] == face);
        }
        if (face[0] as usize) < vertex_count && (face[1] as usize) < vertex_count && (face[2] as usize)
            < vertex_count {
            let c = canonical_of(face);
            quads.push((c.0, c.1, c.2, i));
        }
        i = i + 1;
    }
    proof {
        assert(faces@.take(faces@.len() as int) =~= faces@);
        lemma_face_quads(faces@, vertex_count as int);
        let quads_spec = face_quads(faces@, vertex_count as int);
        assert(quads_spec.no_duplicates()) by {
            assert forall|a: int, b: int|
                0 <= a < quads_spec.len() && 0 <= b < quads_spec.len() && a != b implies quads_spec[a]
                != quads_spec[b] by {
                if a < b {
                    assert(quads_spec[a].3 < quads_spec[b].3);
                } else {
                    assert(quads_spec[b].3 < quads_spec[a].3);
                }
            }
        }
        quads_spec.lemma_multiset_has_no_duplicates();
    }
    let ghost unsorted = quads@;
    sort_quads(&mut quads);
    proof {
        assert forall|x: (u32, u32, u32, usize)| quads@.to_multiset().contains(x) implies quads@.to_multiset().count(
            x,
        ) == 1 by {
            assert(unsorted.to_multiset().contains(x));
        }
        quads@.lemma_multiset_has_no_duplicates_conv();
    }
    let mut repeats: Vec<bool> = Vec::new();
    let mut f: usize = 0;
    while f < faces.len()
        invariant
            f <= faces@.len(),
            repeats@.len() == f,
            forall|x: int| 0 <= x < f ==> !repeats@[x],
        decreases faces@.len() - f,
    {
        repeats.push(false);
        f = f + 1;
    }
    let mut p: usize = 0;
    while p < quads.len()
        invariant
            p <= quads@.len(),
            repeats@.len() == faces@.len(),
            faces@.len() <= usize::MAX,
            quads@.to_multiset() == face_quads(faces@, vertex_count as int).to_multiset(),
            quads@.no_duplicates(),
            forall|a: int, b: int| 0 <= a < b < quads@.len() ==> quad_le(#[trigger] quads@[a], #[trigger] quads@[b]),
            forall|a: int| 0 <= a < p ==> repeats@[#[trigger] quads@[a].3 as int] == repeats_earlier_face(
                faces@,
                vertex_count as int,
                quads@[a].3 as int,
            ),
            forall|x: int|
                0 <= x < faces@.len() && repeats@[x] ==> exists|a: int| 0 <= a < p && #[trigger] quads@[a].3 == x,
        decreases quads@.len() - p,
    {
        proof {
            lemma_repeat_by_neighbour(faces@, vertex_count as int, quads@, p as int);
        }
        let here = quads[p];
        let same = p > 0 && quads[p - 1].0 == here.0 && quads[p - 1].1 == here.1 && quads[p - 1].2 == here.2;
        let ghost before = repeats@;
        repeats.set(here.3, same);
        proof {
            assert forall|a: int| 0 <= a < p + 1 implies repeats@[#[trigger] quads@[a].3 as int]
                == repeats_earlier_face(faces@, vertex_count as int, quads@[a].3 as int) by {
                if a < p {
                    assert(quads@[a] != quads@[p as int]);
                    lemma_repeat_by_neighbour(faces@, vertex_count as int, quads@, a);
                    assert(quads@[a].3 != quads@[p as int].3);
                }
            }
            assert forall|x: int| 0 <= x < faces@.len() && repeats@[x] implies exists|a: int|
                0 <= a < p + 1 && #[trigger] quads@[a].3 == x by {
                if x != here.3 {
                    assert(before[x]);
                } else {
                    assert(quads@[p as int].3 == x);
                }
            }
        }
        p = p + 1;
    }
    let mut issues: Vec<WalkmeshIssue> = Vec::new();
    let mut i: usize = 0;
    while i < faces.len()
        invariant
            i <= faces@.len(),
            zero_area@.len() == faces@.len(),
            repeats@.len() == faces@.len(),
            faces@.len() <= usize::MAX,
            quads@.to_multiset() == face_quads(faces@, vertex_count as int).to_multiset(),
            forall|a: int| 0 <= a < quads@.len() ==> repeats@[#[trigger] quads@[a].3 as int] == repeats_earlier_face(
                faces@,
                vertex_count as int,
                quads@[a].3 as int,
            ),
            issues@ == face_issue_list(faces@, vertex_count as int, zero_area@, i as int),
        decreases faces@.len() - i,
    {
        let face = faces[i];
        if face[0] == face[1] || face[1] == face[2] || face[0] == face[2] {
            issues.push(WalkmeshIssue::FaceDegenerate { face: i });
        }
        if (face[0] as usize) >= vertex_count || (face[1] as usize) >= vertex_count || (face[2] as usize)
            >= vertex_count {
            issues.push(WalkmeshIssue::FaceVertexMissing { face: i });
        } else {
            proof {
                assert(face_in_range(faces@[i as int], vertex_count as int));
                lemma_face_quads(faces@, vertex_count as int);
                let target = face_quad(faces@[i as int], i as int);
                assert(face_quads(faces@, vertex_count as int).contains(target));
                vstd::seq_lib::to_multiset_contains(face_quads(faces@, vertex_count as int), target);
                vstd::seq_lib::to_multiset_contains(quads@, target);
                assert(quads@.contains(target));
                let a = choose|a: int| 0 <= a < quads@.len() && quads@[a] == target;
                assert(quads@[a].3 == i);
            }
            if repeats[i] {
                issues.push(WalkmeshIssue::FaceDuplicate { face: i });
            }
            if zero_area[i] {
                issues.push(WalkmeshIssue::FaceZeroArea { face: i });
            }
        }
        proof {
            assert(issues@ =~= face_issue_list(faces@, vertex_count as int, zero_area@, i + 1));
        }
        i = i + 1;
    }
    issues
}

/// The entry that an edge of a face from `from` to `to` makes: its two
/// vertices in increasing order, and 1 where the face runs it that way, 0
/// where it runs it the other way.
pub open spec fn edge_entry(from: u32, to: u32) -> (u32, u32, u32, usize) {
    if from < to {
        (from, to, 1, 0)
    } else {
        (to, from, 0, 0)
    }
}

/// The entries of a face's three edges.
pub open spec fn face_edge_entries(face: [u32; 3]) -> Seq<(u32, u32, u32, usize)> {
    seq![edge_entry(face[0], face[1]), edge_entry(face[1], face[2]), edge_entry(face[2], face[0])]
}

/// The edge entries of the faces that name only existing vertices, in order.
pub open spec fn edge_entries(faces: Seq<[u32; 3]>, vertex_count: int) -> Seq<(u32, u32, u32, usize)>
    decreases faces.len(),
{
    if faces.len() == 0 {
        Seq::empty()
    } else {
        let before = edge_entries(faces.drop_last(), vertex_count);
        if face_in_range(faces.last(), vertex_count) {
            before + face_edge_entries(faces.last())
        } else {
            before
        }
    }
}

/// How many entries are of the edge between `from` and `to`.
pub open spec fn edge_count(entries: Seq<(u32, u32, u32, usize)>, from: u32, to: u32) -> nat
    decreases entries.len(),
{
    if entries.len() == 0 {
        0
    } else {
        edge_count(entries.drop_last(), from, to) + if entries.last().0 == from && entries.last().1
            == to {
            1nat
        } else {
            0nat
        }
    }
}

/// How many entries of the edge between `from` and `to` run it from `from`.
pub open spec fn forward_count(entries: Seq<(u32, u32, u32, usize)>, from: u32, to: u32) -> nat
    decreases entries.len(),
{
    if entries.len() == 0 {
        0
    } else {
        forward_count(entries.drop_last(), from, to) + if entries.last().0 == from && entries.last().1
            == to && entries.last().2 == 1 {
            1nat
        } else {
            0nat
        }
    }
}

/// What is wrong with the edge between `from` and `to`: more than two faces
/// share it, or exactly two run it the same way.
pub open spec fn edge_issue(entries: Seq<(u32, u32, u32, usize)>, from: u32, to: u32) -> Option<
    WalkmeshIssue,
> {
    let n = edge_count(entries, from, to);
    let forward = forward_count(entries, from, to);
    if n > 2 {
        Some(WalkmeshIssue::EdgeNonManifold { from, to, faces: n as usize })
    } else if n == 2 && (forward == 0 || forward == 2) {
        Some(WalkmeshIssue::EdgeOrientation { from, to })
    } else {
        None
    }
}

/// The edge an issue is about.
pub open spec fn issue_edge(issue: WalkmeshIssue) -> (u32, u32) {
    match issue {
        WalkmeshIssue::EdgeNonManifold { from, to, .. } => (from, to),
        WalkmeshIssue::EdgeOrientation { from, to } => (from, to),
        _ => (0, 0),
    }
}

/// Edge `a` comes before edge `b` in the order of their vertices.
pub open spec fn edge_before(a: (u32, u32), b: (u32, u32)) -> bool {
    a.0 < b.0 || (a.0 == b.0 && a.1 < b.1)
}

pub open spec fn quad_edge(q: (u32, u32, u32, usize)) -> (u32, u32) {
    (q.0, q.1)
}

/// Every entry runs its edge one way or the other and carries no position.
pub open spec fn well_formed_entries(entries: Seq<(u32, u32, u32, usize)>) -> bool {
    forall|i: int| 0 <= i < entries.len() ==> (#[trigger] entries[i]).2 <= 1 && entries[i].3 == 0
}

proof fn lemma_edge_entries_well_formed(faces: Seq<[u32; 3]>, vertex_count: int)
    ensures
        well_formed_entries(edge_entries(faces, vertex_count)),
    decreases faces.len(),
{
    if faces.len() > 0 {
        lemma_edge_entries_well_formed(faces.drop_last(), vertex_count);
        let before = edge_entries(faces.drop_last(), vertex_count);
        let added = face_edge_entries(faces.last());
        assert forall|i: int| 0 <= i < (before + added).len() implies (#[trigger] (before + added)[i]).2
            <= 1 && (before + added)[i].3 == 0 by {
            if i < before.len() {
                assert((before + added)[i] == before[i]);
            } else {
                assert((before + added)[i] == added[i - before.len()]);
            }
        }
    }
}

proof fn lemma_edge_count_multiset(entries: Seq<(u32, u32, u32, usize)>, from: u32, to: u32)
    requires
        well_formed_entries(entries),
    ensures
        edge_count(entries, from, to) == entries.to_multiset().count((from, to, 0u32, 0usize))
            + entries.to_multiset().count((from, to, 1u32, 0usize)),
        forward_count(entries, from, to) == entries.to_multiset().count((from, to, 1u32, 0usize)),
    decreases entries.len(),
{
    broadcast use group_to_multiset_ensures, vstd::multiset::group_multiset_axioms;

    if entries.len() == 0 {
    } else {
        let front = entries.drop_last();
        assert(well_formed_entries(front)) by {
            assert forall|i: int| 0 <= i < front.len() implies (#[trigger] front[i]).2 <= 1
                && front[i].3 == 0 by {
                assert(front[i] == entries[i]);
            }
        }
        lemma_edge_count_multiset(front, from, to);
        assert(entries =~= front.push(entries.last()));
        assert(entries.last() == entries[entries.len() - 1]);
    }
}

proof fn lemma_edge_count_found(entries: Seq<(u32, u32, u32, usize)>, from: u32, to: u32)
    requires
        edge_count(entries, from, to) > 0,
    ensures
        exists|t: int| 0 <= t < entries.len() && #[trigger] quad_edge(entries[t]) == (from, to),
    decreases entries.len(),
{
    let front = entries.drop_last();
    if edge_count(front, from, to) > 0 {
        lemma_edge_count_found(front, from, to);
        let t = choose|t: int| 0 <= t < front.len() && #[trigger] quad_edge(front[t]) == (from, to);
        assert(entries[t] == front[t]);
    } else {
        assert(quad_edge(entries[entries.len() - 1]) == (from, to));
    }
}

/// The counts over the first `n` sorted entries of the edge of a run
/// `[start, end)`: the entries of that edge are exactly those of the run.
proof fn lemma_run_prefix_counts(q: Seq<(u32, u32, u32, usize)>, start: int, end: int, n: int)
    requires
        forall|a: int, b: int| 0 <= a < b < q.len() ==> quad_le(#[trigger] q[a], #[trigger] q[b]),
        0 <= start < end <= q.len(),
        forall|t: int| start <= t < end ==> #[trigger] quad_edge(q[t]) == quad_edge(q[start]),
        start == 0 || edge_before(quad_edge(q[start - 1]), quad_edge(q[start])),
        end == q.len() || edge_before(quad_edge(q[start]), quad_edge(q[end])),
        0 <= n <= q.len(),
    ensures
        edge_count(q.take(n), q[start].0, q[start].1) == if n <= start {
            0
        } else if n <= end {
            n - start
        } else {
            end - start
        },
        forward_count(q.take(n), q[start].0, q[start].1) == if n <= start {
            0
        } else if n <= end {
            forward_count(q.subrange(start, n), q[start].0, q[start].1)
        } else {
            forward_count(q.subrange(start, end), q[start].0, q[start].1)
        },
    decreases n,
{
    let k = quad_edge(q[start]);
    if n > 0 {
        lemma_run_prefix_counts(q, start, end, n - 1);
        assert(q.take(n).drop_last() =~= q.take(n - 1));
        assert(q.take(n).last() == q[n - 1]);
        let t = n - 1;
        if t < start {
            assert(quad_le(q[t], q[start - 1]) || t == start - 1);
            assert(quad_edge(q[t]) != k);
        } else if t >= end {
            assert(quad_le(q[end], q[t]) || t == end);
            assert(quad_edge(q[t]) != k);
        } else {
            assert(quad_edge(q[t]) == k);
            assert(q.subrange(start, n).last() == q[t]);
            if t > start {
                assert(q.subrange(start, n).drop_last() =~= q.subrange(start, t));
            } else {
                assert(q.subrange(start, n).drop_last() =~= q.subrange(start, start));
                assert(q.subrange(start, start).len() == 0);
            }
            assert(forward_count(q.subrange(start, n), k.0, k.1) == forward_count(
                q.subrange(start, n).drop_last(),
                k.0,
                k.1,
            ) + if q[t].2 == 1 {
                1nat
            } else {
                0nat
            });
        }
    }
}

/// The issue of the edge of a run of sorted entries, read from the run: the
/// edge has as many entries as the run, and a run of two runs it one way iff
/// both entries do.
proof fn lemma_run_issue(
    q: Seq<(u32, u32, u32, usize)>,
    all: Seq<(u32, u32, u32, usize)>,
    start: int,
    end: int,
)
    requires
        forall|a: int, b: int| 0 <= a < b < q.len() ==> quad_le(#[trigger] q[a], #[trigger] q[b]),
        q.to_multiset() == all.to_multiset(),
        well_formed_entries(q),
        well_formed_entries(all),
        0 <= start < end <= q.len(),
        forall|t: int| start <= t < end ==> #[trigger] quad_edge(q[t]) == quad_edge(q[start]),
        start == 0 || edge_before(quad_edge(q[start - 1]), quad_edge(q[start])),
        end == q.len() || quad_edge(q[end]) != quad_edge(q[start]),
    ensures
        edge_count(all, q[start].0, q[start].1) == end - start,
        end - start == 2 ==> ((forward_count(all, q[start].0, q[start].1) == 0 || forward_count(
            all,
            q[start].0,
            q[start].1,
        ) == 2) <==> q[start].2 == q[start + 1].2),
{
    let (from, to) = (q[start].0, q[start].1);
    if end < q.len() {
        assert(quad_le(q[start], q[end]));
    }
    lemma_run_prefix_counts(q, start, end, q.len() as int);
    assert(q.take(q.len() as int) =~= q);
    lemma_edge_count_multiset(q, from, to);
    lemma_edge_count_multiset(all, from, to);
    if end - start == 2 {
        let run = q.subrange(start, end);
        let first = run.drop_last();
        assert(first =~= q.subrange(start, start + 1));
        assert(first.drop_last() =~= q.subrange(start, start));
        assert(run.last() == q[start + 1]);
        assert(first.last() == q[start]);
        assert(quad_edge(q[start + 1]) == quad_edge(q[start]));
        assert(q[start + 1].2 <= 1 && q[start].2 <= 1);
        assert(forward_count(first.drop_last(), from, to) == 0);
        assert(forward_count(first, from, to) == if q[start].2 == 1 {
            1nat
        } else {
            0nat
        });
    }
}

/// Where a run of one edge ends: the first entry of another edge, or the end.
fn run_end(q: &Vec<(u32, u32, u32, usize)>, start: usize) -> (end: usize)
    requires
        start < q@.len(),
    ensures
        start < end <= q@.len(),
        forall|t: int| start <= t < end ==> #[trigger] quad_edge(q@[t]) == quad_edge(q@[start as int]),
        end == q@.len() || quad_edge(q@[end as int]) != quad_edge(q@[start as int]),
{
    let from = q[start].0;
    let to = q[start].1;
    let length = q.len();
    let mut end = start + 1;
    while end < length && q[end].0 == from && q[end].1 == to
        invariant
            length == q@.len(),
            start < end <= q@.len(),
            from == q@[start as int].0,
            to == q@[start as int].1,
            forall|t: int| start <= t < end ==> #[trigger] quad_edge(q@[t]) == quad_edge(q@[start as int]),
        decreases q@.len() - end,
    {
        end = end + 1;
    }
    end
}

/// What is wrong with the edges of the faces that name only existing
/// vertices, edge by edge in the order of their vertices: an edge that more
/// than two faces share, or that exactly two faces run the same way.
pub fn edge_issues(vertex_count: usize, faces: &Vec<[u32; 3]>) -> (issues: Vec<WalkmeshIssue>)
    ensures
        forall|a: int, b: int|
            0 <= a < b < issues@.len() ==> edge_before(
                issue_edge(#[trigger] issues@[a]),
                issue_edge(#[trigger] issues@[b]),
            ),
        forall|a: int|
            0 <= a < issues@.len() ==> edge_issue(
                edge_entries(faces@, vertex_count as int),
                issue_edge(#[trigger] issues@[a]).0,
                issue_edge(issues@[a]).1,
            ) == Some(issues@[a]),
        forall|from: u32, to: u32|
            #[trigger] edge_issue(edge_entries(faces@, vertex_count as int), from, to) is Some ==> exists|a: int|
                0 <= a < issues@.len() && #[trigger] issue_edge(issues@[a]) == (from, to),
{
    broadcast use group_to_multiset_ensures;

    let mut entries: Vec<(u32, u32, u32, usize)> = Vec::new();
    let mut i: usize = 0;
    while i < faces.len()
        invariant
            i <= faces@.len(),
            entries@ == edge_entries(faces@.take(i as int), vertex_count as int),
        decreases faces@.len() - i,
    {
        let face = faces[i];
        proof {
            assert(faces@.take(i + 1).drop_last() =~= faces@.take(i as int));
            assert(faces@.take(i + 1).last() == face);
        }
        if (face[0] as usize) < vertex_count && (face[1] as usize) < vertex_count && (face[2] as usize)
            < vertex_count {
            let ghost before = entries@;
            let pairs: [(u32, u32); 3] = [(face[0], face[1]), (face[1], face[2]), (face[2], face[0])];
            let mut k: usize = 0;
            while k < 3
                invariant
                    k <= 3,
                    pairs == [(face[0], face[1]), (face[1], face[2]), (face[2], face[0])],
                    entries@ == before + face_edge_entries(face).take(k as int),
                decreases 3 - k,
            {
                let (from, to) = pairs[k];
                if from < to {
                    entries.push((from, to, 1, 0));
                } else {
                    entries.push((to, from, 0, 0));
                }
                proof {
                    assert(face_edge_entries(face)[k as int] == edge_entry(from, to));
                    assert(entries@ =~= before + face_edge_entries(face).take(k + 1));
                }
                k = k + 1;
            }
            assert(face_edge_entries(face).take(3) =~= face_edge_entries(face));
        }
        i = i + 1;
    }
    proof {
        assert(faces@.take(faces@.len() as int) =~= faces@);
        lemma_edge_entries_well_formed(faces@, vertex_count as int);
    }
    let ghost all = entries@;
    sort_quads(&mut entries);
    let q = entries;
    proof {
        assert(well_formed_entries(q@)) by {
            assert forall|i: int| 0 <= i < q@.len() implies (#[trigger] q@[i]).2 <= 1 && q@[i].3
                == 0 by {
                assert(q@.to_multiset().count(q@[i]) > 0);
                assert(all.contains(q@[i]));
                let j = choose|j: int| 0 <= j < all.len() && all[j] == q@[i];
                assert(all[j].2 <= 1 && all[j].3 == 0);
            }
        }
    }
    let mut issues: Vec<WalkmeshIssue> = Vec::new();
    let mut start: usize = 0;
    while start < q.len()
        invariant
            start <= q@.len(),
            all == edge_entries(faces@, vertex_count as int),
            well_formed_entries(all),
            well_formed_entries(q@),
            q@.to_multiset() == all.to_multiset(),
            forall|a: int, b: int| 0 <= a < b < q@.len() ==> quad_le(#[trigger] q@[a], #[trigger] q@[b]),
            start < q@.len() && start > 0 ==> edge_before(
                quad_edge(q@[start - 1]),
                quad_edge(q@[start as int]),
            ),
            forall|a: int, b: int|
                0 <= a < b < issues@.len() ==> edge_before(
                    issue_edge(#[trigger] issues@[a]),
                    issue_edge(#[trigger] issues@[b]),
                ),
            forall|a: int|
                0 <= a < issues@.len() ==> edge_issue(
                    all,
                    issue_edge(#[trigger] issues@[a]).0,
                    issue_edge(issues@[a]).1,
                ) == Some(issues@[a]),
            start < q@.len() ==> forall|a: int|
                0 <= a < issues@.len() ==> edge_before(
                    issue_edge(#[trigger] issues@[a]),
                    quad_edge(q@[start as int]),
                ),
            forall|t: int|
                0 <= t < start && (#[trigger] edge_issue(all, q@[t].0, q@[t].1)) is Some ==> exists|a: int|
                    0 <= a < issues@.len() && #[trigger] issue_edge(issues@[a]) == quad_edge(q@[t]),
        decreases q@.len() - start,
    {
        let end = run_end(&q, start);
        let from = q[start].0;
        let to = q[start].1;
        let ghost key = quad_edge(q@[start as int]);
        let count = end - start;
        let ghost before_issues = issues@;
        proof {
            lemma_run_issue(q@, all, start as int, end as int);
        }
        if count > 2 {
            issues.push(WalkmeshIssue::EdgeNonManifold { from, to, faces: count });
            assert(edge_issue(all, from, to) == Some(issues@[issues@.len() - 1]));
        } else if count == 2 && q[start].2 == q[start + 1].2 {
            issues.push(WalkmeshIssue::EdgeOrientation { from, to });
            assert(edge_issue(all, from, to) == Some(issues@[issues@.len() - 1]));
        } else {
            assert(edge_issue(all, from, to) is None);
        }
        proof {
            assert forall|a: int|
                0 <= a < issues@.len() implies edge_issue(
                all,
                issue_edge(#[trigger] issues@[a]).0,
                issue_edge(issues@[a]).1,
            ) == Some(issues@[a]) by {
                if a < before_issues.len() {
                    assert(issues@[a] == before_issues[a]);
                }
            }
            assert forall|a: int, b: int|
                0 <= a < b < issues@.len() implies edge_before(
                issue_edge(#[trigger] issues@[a]),
                issue_edge(#[trigger] issues@[b]),
            ) by {
                assert(issues@[a] == before_issues[a]);
                if b < before_issues.len() {
                    assert(issues@[b] == before_issues[b]);
                }
            }
        }
        proof {
            assert(edge_issue(all, from, to) is Some ==> issues@.len() == before_issues.len() + 1
                && issue_edge(issues@[issues@.len() - 1]) == key);
            assert forall|t: int|
                0 <= t < end && (#[trigger] edge_issue(all, q@[t].0, q@[t].1)) is Some implies exists|a: int|
                0 <= a < issues@.len() && #[trigger] issue_edge(issues@[a]) == quad_edge(q@[t]) by {
                if t < start {
                    let a = choose|a: int|
                        0 <= a < before_issues.len() && #[trigger] issue_edge(before_issues[a])
                            == quad_edge(q@[t]);
                    assert(issues@[a] == before_issues[a]);
                } else {
                    assert(quad_edge(q@[t]) == key);
                    assert(issue_edge(issues@[issues@.len() - 1]) == key);
                }
            }
            if end < q@.len() {
                assert(quad_le(q@[start as int], q@[end as int]));
                assert(edge_before(key, quad_edge(q@[end as int])));
                assert forall|a: int| 0 <= a < issues@.len() implies edge_before(
                    issue_edge(#[trigger] issues@[a]),
                    quad_edge(q@[end as int]),
                ) by {
                    if a < before_issues.len() {
                        assert(issues@[a] == before_issues[a]);
                        assert(edge_before(issue_edge(before_issues[a]), key));
                    }
                }
                assert(end > 0 && quad_edge(q@[end - 1]) == key);
            }
        }
        start = end;
    }
    proof {
        assert forall|from: u32, to: u32|
            #[trigger] edge_issue(all, from, to) is Some implies exists|a: int|
                0 <= a < issues@.len() && #[trigger] issue_edge(issues@[a]) == (from, to) by {
            lemma_edge_count_multiset(all, from, to);
            lemma_edge_count_multiset(q@, from, to);
            lemma_edge_count_found(q@, from, to);
            let t = choose|t: int| 0 <= t < q@.len() && #[trigger] quad_edge(q@[t]) == (from, to);
            assert(edge_issue(all, q@[t].0, q@[t].1) is Some);
        }
    }
    issues
}

/// Topology edits keep every face naming an existing vertex: splitting or
/// extruding a face whose new vertices are numbered after the existing ones,
/// and renumbering the vertices that faces use.
pub proof fn law_edits_keep_faces_in_range(
    faces: Seq<[u32; 3]>,
    vertex_count: int,
    face_index: int,
    kept: Seq<usize>,
    compacted: Seq<[u32; 3]>,
)
    requires
        faces_in_range(faces, vertex_count),
        0 <= face_index < faces.len(),
        0 <= vertex_count <= u32::MAX - 2,
    ensures
        faces_in_range(split_faces(faces, face_index, vertex_count as u32), vertex_count + 1),
        faces_in_range(
            faces + extrusion_faces(faces[face_index], vertex_count as u32),
            vertex_count + 3,
        ),
        compaction(vertex_count, faces, kept, compacted) ==> faces_in_range(
            compacted,
            kept.len() as int,
        ),
{
    let split = split_faces(faces, face_index, vertex_count as u32);
    assert(face_in_range(faces[face_index], vertex_count));
    assert forall|i: int| 0 <= i < split.len() implies face_in_range(
        #[trigger] split[i],
        vertex_count + 1,
    ) by {
        if i < faces.len() && i != face_index {
            assert(split[i] == faces[i]);
        }
    }
    let extruded = faces + extrusion_faces(faces[face_index], vertex_count as u32);
    assert forall|i: int| 0 <= i < extruded.len() implies face_in_range(
        #[trigger] extruded[i],
        vertex_count + 3,
    ) by {
        if i < faces.len() {
            assert(extruded[i] == faces[i]);
        } else {
            assert(extruded[i] == extrusion_faces(faces[face_index], vertex_count as u32)[i
                - faces.len()]);
        }
    }
    if compaction(vertex_count, faces, kept, compacted) {
        assert forall|i: int| 0 <= i < compacted.len() implies face_in_range(
            #[trigger] compacted[i],
            kept.len() as int,
        ) by {
            assert(compacted[i][0] < kept.len());
            assert(compacted[i][1] < kept.len());
            assert(compacted[i][2] < kept.len());
        }
    }
}

/// A PWK or DWK that holds only use points and no geometry may leave its
/// principal walkmesh empty; a WOK may not.
pub open spec fn spec_hook_only(kind: WalkmeshKind, vertex_count: nat, face_count: nat, hook_count: nat) -> bool {
    kind != WalkmeshKind::Wok && vertex_count == 0 && face_count == 0 && hook_count > 0
}

/// Whether a walkmesh of this kind and these counts holds only use points.
pub fn hook_only_walkmesh(kind: WalkmeshKind, vertex_count: usize, face_count: usize, hook_count: usize) -> (hook_only: bool)
    ensures
        hook_only == spec_hook_only(kind, vertex_count as nat, face_count as nat, hook_count as nat),
{
    let wok = match kind {
        WalkmeshKind::Wok => true,
        _ => false,
    };
    !wok && vertex_count == 0 && face_count == 0 && hook_count > 0
}

/// A name a variant or use point accepts: not blank, at most 63 bytes.
pub open spec fn part_name_ok(name: Seq<char>) -> bool {
    !is_blank_text(name) && text_bytes(name).len() <= 63
}

/// Whether a variant or use point name is acceptable.
pub fn walkmesh_part_name_ok(name: &str) -> (ok: bool)
    ensures
        ok == part_name_ok(name@),
{
    !is_blank(name) && name.as_bytes().len() <= 63
}

/// The rules of a walkmesh's kind: a WOK's surfaces are identifiers 0 to 19,
/// and a WOK has no variants and no use points.
pub open spec fn spec_check_walkmesh_kind(
    kind: WalkmeshKind,
    surface_ids: Seq<i32>,
    variant_count: nat,
    hook_count: nat,
) -> Result<(), EditError> {
    if kind == WalkmeshKind::Wok && exists|i: int|
        0 <= i < surface_ids.len() && !(0 <= #[trigger] surface_ids[i] <= 19) {
        Err(EditError::WalkmeshSurfaceInvalid)
    } else if kind == WalkmeshKind::Wok && (variant_count > 0 || hook_count > 0) {
        Err(EditError::WalkmeshWokStructureInvalid)
    } else {
        Ok(())
    }
}

/// Checks the rules of a walkmesh's kind before it is written.
pub fn check_walkmesh_kind(kind: WalkmeshKind, surface_ids: &[i32], variant_count: usize, hook_count: usize) -> (result:
    Result<(), EditError>)
    ensures
        result == spec_check_walkmesh_kind(kind, surface_ids@, variant_count as nat, hook_count as nat),
{
    let wok = match kind {
        WalkmeshKind::Wok => true,
        _ => false,
    };
    if wok {
        let mut i: usize = 0;
        while i < surface_ids.len()
            invariant
                kind == WalkmeshKind::Wok,
                i <= surface_ids@.len(),
                forall|j: int| 0 <= j < i ==> 0 <= #[trigger] surface_ids@[j] <= 19,
            decreases surface_ids@.len() - i,
        {
            if surface_ids[i] < 0 || surface_ids[i] > 19 {
                assert(!(0 <= surface_ids@[i as int] <= 19));
                return Err(EditError::WalkmeshSurfaceInvalid);
            }
            i += 1;
        }
        if variant_count > 0 || hook_count > 0 {
            return Err(EditError::WalkmeshWokStructureInvalid);
        }
    }
    Ok(())
}

} // verus!
