//! The mesh as a source of triangles, and the lesser and the greater of two
//! values.
use vstd::prelude::*;
use vstd::std_specs::cmp::PartialOrdIs;
use vstd::std_specs::cmp::PartialOrdSpec;

verus! {

/// Three vertices in order.
#[derive(Debug, PartialEq, Eq)]
pub struct Triangle<V> {
    pub v0: V,
    pub v1: V,
    pub v2: V,
}

/// The index list refers to vertices of a table of `count` vertices only,
/// and its length is a multiple of three.
pub open spec fn valid_mesh(count: nat, indicies: Seq<usize>) -> bool {
    &&& indicies.len() % 3 == 0
    &&& forall|k: int| 0 <= k < indicies.len() ==> #[trigger] indicies[k] < count
}

/// The triangles that an index list picks from a vertex table: each run of
/// three indices names the three vertices of one triangle.
pub open spec fn triangles_of<V>(verts: Seq<V>, indicies: Seq<usize>) -> Seq<Triangle<V>> {
    Seq::new(
        indicies.len() / 3,
        |k: int|
            Triangle {
                v0: verts[indicies[3 * k] as int],
                v1: verts[indicies[3 * k + 1] as int],
                v2: verts[indicies[3 * k + 2] as int],
            },
    )
}

/// A triangle mesh as a vertex table and an index list, with a cursor that
/// hands the triangles out one by one. The vertices may be of any type.
#[derive(Debug)]
pub struct PolygonCollection<V> {
    verts: Vec<V>,
    indicies: Vec<usize>,
    cursor: usize,
}

impl<V> PolygonCollection<V> {
    /// The mesh is valid and the cursor stands at the start of a triangle.
    #[verifier::type_invariant]
    spec fn inv(self) -> bool {
        &&& valid_mesh(self.verts@.len(), self.indicies@)
        &&& self.cursor % 3 == 0
        &&& self.cursor <= self.indicies.len()
    }

    /// All triangles of the mesh, in order.
    pub closed spec fn triangles(self) -> Seq<Triangle<V>> {
        triangles_of(self.verts@, self.indicies@)
    }

    /// The number of triangles handed out so far.
    pub closed spec fn position(self) -> nat {
        (self.cursor / 3) as nat
    }

}

impl<V: Copy> PolygonCollection<V> {
    /// The mesh of the given vertices and indices, with nothing handed out
    /// yet; `None` unless the two make a valid mesh.
    pub fn new(verts: Vec<V>, indicies: Vec<usize>) -> (r: Option<PolygonCollection<V>>)
        ensures
            r is Some <==> valid_mesh(verts@.len(), indicies@),
            r matches Some(p) ==> p.triangles() == triangles_of(verts@, indicies@) && p.position()
                == 0,
    {
        if indicies.len() % 3 != 0 {
            return None;
        }
        let mut k: usize = 0;
        while k < indicies.len()
            invariant
                k <= indicies.len(),
                forall|j: int| 0 <= j < k ==> #[trigger] indicies@[j] < verts.len(),
            decreases indicies.len() - k,
        {
            if indicies[k] >= verts.len() {
                return None;
            }
            k += 1;
        }
        Some(PolygonCollection { verts, indicies, cursor: 0 })
    }

    /// The number of triangles in the mesh.
    pub fn len(&self) -> (n: usize)
        ensures
            n == self.triangles().len(),
    {
        self.indicies.len() / 3
    }

    /// Starts over: the first triangle is the next again.
    pub fn restart(&mut self)
        ensures
            final(self).triangles() == old(self).triangles(),
            final(self).position() == 0,
    {
        proof {
            use_type_invariant(&*self);
        }
        self.cursor = 0;
    }

    /// The next triangle, if one is left.
    pub fn next(&mut self) -> (r: Option<Triangle<V>>)
        ensures
            final(self).triangles() == old(self).triangles(),
            r == (if old(self).position() < old(self).triangles().len() {
                Some(old(self).triangles()[old(self).position() as int])
            } else {
                None
            }),
            final(self).position() == (if r is Some {
                old(self).position() + 1
            } else {
                old(self).position()
            }),
            final(self).position() <= final(self).triangles().len(),
    {
        proof {
            use_type_invariant(&*self);
        }
        if self.cursor < self.indicies.len() {
            let triangle: Triangle<V> = Triangle {
                v0: self.verts[self.indicies[self.cursor]],
                v1: self.verts[self.indicies[self.cursor + 1]],
                v2: self.verts[self.indicies[self.cursor + 2]],
            };
            self.cursor += 3;
            Some(triangle)
        } else {
            None
        }
    }
}

/// The smaller of two values: `a` when `a < b`, else `b`.
pub fn min<T>(a: T, b: T) -> (r: T) where T: PartialOrd
    ensures
        r == a || r == b,
        T::obeys_partial_cmp_spec() ==> r == (if a.is_lt(&b) {
            a
        } else {
            b
        }),
{
    if a < b {
        a
    } else {
        b
    }
}

/// The larger of two values: `a` when `a > b`, else `b`.
pub fn max<T>(a: T, b: T) -> (r: T) where T: PartialOrd
    ensures
        r == a || r == b,
        T::obeys_partial_cmp_spec() ==> r == (if a.is_gt(&b) {
            a
        } else {
            b
        }),
{
    if a > b {
        a
    } else {
        b
    }
}

} // verus!
