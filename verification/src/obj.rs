use vstd::prelude::*;

use std::collections::BTreeSet;

use vstd::std_specs::btree::{increasing_seq, spec_btree_keys_iter};
use vstd::std_specs::cmp::OrdSpec;
use vstd::std_specs::iter::IteratorSpec;

use crate::mesh::MeshData;

verus! {

/// `s` is strictly increasing.
pub open spec fn strictly_increasing(s: Seq<u16>) -> bool {
    forall|i: int, j: int| 0 <= i < j < s.len() ==> s[i] < s[j]
}

/// Ids are totally ordered by their values.
proof fn lemma_ids_ordered()
    ensures
        vstd::laws_cmp::obeys_cmp::<u16>(),
{
    broadcast use vstd::laws_cmp::group_laws_cmp;

}

/// Iterating a set of ids yields each id of the set once, in increasing
/// order.
proof fn lemma_set_iter_ids(set: &BTreeSet<u16>)
    ensures
        strictly_increasing(spec_btree_keys_iter(set).remaining().unref()),
        spec_btree_keys_iter(set).remaining().unref().to_set() == set@,
{
    broadcast use vstd::std_specs::btree::group_btree_axioms, vstd::laws_cmp::group_laws_cmp;

    let r = spec_btree_keys_iter(set).remaining();
    assert(increasing_seq(r));
    assert forall|i: int, j: int| 0 <= i < j < r.unref().len() implies r.unref()[i] < r.unref()[j] by {
        assert(OrdSpec::cmp_spec(&r[i], &r[j]) is Less);
    }
    assert(r.unref().to_set() =~= set@) by {
        assert forall|x: u16| r.unref().to_set().contains(x) <==> r.to_set().contains(&x) by {
            if r.unref().contains(x) {
                let k = choose|k: int| 0 <= k < r.unref().len() && r.unref()[k] == x;
                assert(r[k] == &x);
            }
            if r.contains(&x) {
                let k = choose|k: int| 0 <= k < r.len() && r[k] == &x;
                assert(r.unref()[k] == x);
            }
        }
    }
}

/// The material ids used by a mesh, each once, in increasing order.
pub fn used_material_ids(voxel_ids: &Vec<u16>) -> (used: Vec<u16>)
    ensures
        strictly_increasing(used@),
        forall|id: u16| used@.contains(id) <==> voxel_ids@.contains(id),
{
    broadcast use vstd::std_specs::btree::group_btree_axioms;

    let mut set: BTreeSet<u16> = BTreeSet::new();
    let mut i: usize = 0;
    while i < voxel_ids.len()
        invariant
            i <= voxel_ids@.len(),
            forall|id: u16| set@.contains(id) <==> voxel_ids@.subrange(0, i as int).contains(id),
        decreases voxel_ids@.len() - i,
    {
        proof {
            lemma_ids_ordered();
        }
        set.insert(voxel_ids[i]);
        proof {
            let pre = voxel_ids@.subrange(0, i as int);
            let post = voxel_ids@.subrange(0, i as int + 1);
            assert(post =~= pre.push(voxel_ids@[i as int]));
            assert forall|x: u16| post.contains(x) <==> pre.contains(x) || x == voxel_ids@[i as int] by {
                if post.contains(x) {
                    let k = choose|k: int| 0 <= k < post.len() && post[k] == x;
                    if k < pre.len() {
                        assert(pre[k] == x);
                    }
                }
                if pre.contains(x) {
                    let k = choose|k: int| 0 <= k < pre.len() && pre[k] == x;
                    assert(post[k] == x);
                }
                if x == voxel_ids@[i as int] {
                    assert(post[i as int] == x);
                }
            }
        }
        i = i + 1;
    }
    assert(voxel_ids@.subrange(0, voxel_ids@.len() as int) =~= voxel_ids@);
    proof {
        lemma_ids_ordered();
        lemma_set_iter_ids(&set);
    }
    let ghost keys = spec_btree_keys_iter(&set).remaining().unref();
    let mut used: Vec<u16> = Vec::new();
    for id in it: set.iter()
        invariant
            keys == it.seq().unref(),
            used@ == keys.take(it.index() as int),
    {
        used.push(*id);
        proof {
            assert(used@ =~= keys.take(it.index() as int + 1));
        }
    }
    assert(used@ =~= keys);
    proof {
        assert forall|id: u16| used@.contains(id) <==> voxel_ids@.contains(id) by {
            assert(keys.to_set().contains(id) <==> keys.contains(id));
        }
    }
    used
}

/// Material of quad q: the id of its first vertex, or 0 when that vertex
/// does not exist.
pub open spec fn quad_material(voxel_ids: Seq<u16>, indices: Seq<u32>, q: int) -> u16 {
    if indices[6 * q] < voxel_ids.len() {
        voxel_ids[indices[6 * q] as int]
    } else {
        0
    }
}

/// Number of whole quads (six indices each).
pub open spec fn quad_total(indices: Seq<u32>) -> int {
    indices.len() as int / 6
}

/// The two triangles of quad q with 1-based vertex numbers.
pub open spec fn quad_triangles(indices: Seq<u32>, q: int) -> Seq<(u32, u32, u32)> {
    seq![
        ((indices[6 * q] + 1) as u32, (indices[6 * q + 1] + 1) as u32, (indices[6 * q + 2] + 1) as u32),
        ((indices[6 * q + 3] + 1) as u32, (indices[6 * q + 4] + 1) as u32, (indices[6 * q + 5] + 1) as u32),
    ]
}

/// Triangles of the first n quads whose material is `id`, in quad order.
pub open spec fn material_triangles(voxel_ids: Seq<u16>, indices: Seq<u32>, id: u16, n: int) -> Seq<(u32, u32, u32)>
    decreases n,
{
    if n <= 0 {
        Seq::empty()
    } else {
        material_triangles(voxel_ids, indices, id, n - 1) + (if quad_material(voxel_ids, indices, n - 1)
            == id {
            quad_triangles(indices, n - 1)
        } else {
            Seq::empty()
        })
    }
}

/// Face numbers of used quads fit after adding one.
pub open spec fn obj_indices_ok(voxel_ids: Seq<u16>, indices: Seq<u32>) -> bool {
    forall|q: int, t: int|
        0 <= q < quad_total(indices) && 0 <= t < 6 && voxel_ids.contains(
            quad_material(voxel_ids, indices, q),
        ) ==> #[trigger] indices[6 * q + t] < u32::MAX
}

/// The material ids of a list of groups.
pub open spec fn group_ids(groups: Seq<ObjGroup>) -> Seq<u16> {
    groups.map_values(|g: ObjGroup| g.id)
}

/// The faces of one material group of an OBJ export.
pub struct ObjGroup {
    pub id: u16,
    pub triangles: Vec<(u32, u32, u32)>,
}

/// The triangles (1-based vertex numbers) of the quads of material `id`,
/// two per quad, in quad order.
pub fn triangles_of_material(mesh: &MeshData, id: u16) -> (tris: Vec<(u32, u32, u32)>)
    requires
        mesh.voxel_ids@.contains(id),
        obj_indices_ok(mesh.voxel_ids@, mesh.indices@),
    ensures
        tris@ == material_triangles(mesh.voxel_ids@, mesh.indices@, id, quad_total(mesh.indices@)),
{
    let n_indices = mesh.indices.len();
    let quad_count = n_indices / 6;
    let mut tris: Vec<(u32, u32, u32)> = Vec::new();
    let mut q: usize = 0;
    while q < quad_count
        invariant
            quad_count == quad_total(mesh.indices@),
            n_indices == mesh.indices@.len(),
            quad_count == n_indices / 6,
            mesh.voxel_ids@.contains(id),
            obj_indices_ok(mesh.voxel_ids@, mesh.indices@),
            q <= quad_count,
            tris@ == material_triangles(mesh.voxel_ids@, mesh.indices@, id, q as int),
        decreases quad_count - q,
    {
        proof {
            vstd::arithmetic::div_mod::lemma_fundamental_div_mod(n_indices as int, 6);
            vstd::arithmetic::div_mod::lemma_mod_bound(n_indices as int, 6);
            let l = n_indices as int;
            assert(6 * (q + 1) <= l) by (nonlinear_arith)
                requires
                    q + 1 <= l / 6,
                    l == 6 * (l / 6) + l % 6,
                    l % 6 >= 0,
            ;
        }
        let i0 = mesh.indices[q * 6] as usize;
        let current_quad_mat: u16 = if i0 < mesh.voxel_ids.len() { mesh.voxel_ids[i0] } else { 0 };
        if current_quad_mat == id {
            proof {
                assert(mesh.indices@[6 * q + 0] < u32::MAX);
                assert(mesh.indices@[6 * q + 1] < u32::MAX);
                assert(mesh.indices@[6 * q + 2] < u32::MAX);
                assert(mesh.indices@[6 * q + 3] < u32::MAX);
                assert(mesh.indices@[6 * q + 4] < u32::MAX);
                assert(mesh.indices@[6 * q + 5] < u32::MAX);
            }
            let t1 = (mesh.indices[q * 6] + 1, mesh.indices[q * 6 + 1] + 1, mesh.indices[q * 6 + 2] + 1);
            let t2 = (mesh.indices[q * 6 + 3] + 1, mesh.indices[q * 6 + 4] + 1, mesh.indices[q * 6 + 5] + 1);
            tris.push(t1);
            tris.push(t2);
            assert(tris@ =~= material_triangles(mesh.voxel_ids@, mesh.indices@, id, q as int + 1));
        } else {
            assert(tris@ =~= material_triangles(mesh.voxel_ids@, mesh.indices@, id, q as int + 1));
        }
        q = q + 1;
    }
    tris
}

/// The material groups of an OBJ export: one per material used by the
/// mesh, in increasing id order, each with the triangles of its quads.
pub fn obj_groups(mesh: &MeshData) -> (groups: Vec<ObjGroup>)
    requires
        obj_indices_ok(mesh.voxel_ids@, mesh.indices@),
    ensures
        strictly_increasing(group_ids(groups@)),
        forall|id: u16| group_ids(groups@).contains(id) <==> mesh.voxel_ids@.contains(id),
        forall|k: int|
            0 <= k < groups@.len() ==> (#[trigger] groups@[k]).triangles@ == material_triangles(
                mesh.voxel_ids@,
                mesh.indices@,
                groups@[k].id,
                quad_total(mesh.indices@),
            ),
{
    let used = used_material_ids(&mesh.voxel_ids);
    let mut groups: Vec<ObjGroup> = Vec::new();
    let mut k: usize = 0;
    while k < used.len()
        invariant
            obj_indices_ok(mesh.voxel_ids@, mesh.indices@),
            forall|id: u16| used@.contains(id) <==> mesh.voxel_ids@.contains(id),
            k <= used@.len(),
            groups@.len() == k,
            forall|j: int| 0 <= j < k ==> (#[trigger] groups@[j]).id == used@[j],
            forall|j: int|
                0 <= j < k ==> (#[trigger] groups@[j]).triangles@ == material_triangles(
                    mesh.voxel_ids@,
                    mesh.indices@,
                    groups@[j].id,
                    quad_total(mesh.indices@),
                ),
        decreases used@.len() - k,
    {
        let id = used[k];
        assert(used@.contains(id));
        let triangles = triangles_of_material(mesh, id);
        groups.push(ObjGroup { id, triangles });
        k = k + 1;
    }
    assert(group_ids(groups@) =~= used@);
    groups
}

} // verus!
