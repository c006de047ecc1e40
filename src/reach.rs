//! Object pointers and the reachability pass over one serialized file.
use std::collections::HashMap;
use vstd::prelude::*;

verus! {

broadcast use vstd::std_specs::hash::group_hash_axioms;

/// A pointer to an object. `file_id` 0 is the file the pointer is read
/// from; any other value is a 1-based index into that file's externals.
#[derive(Debug, Clone, Copy, PartialEq, Eq, PartialOrd, Ord, Hash, Structural)]
pub struct ObjectPtr {
    pub file_id: i32,
    pub path_id: i64,
}

impl ObjectPtr {
    pub open spec fn local(&self) -> bool {
        self.file_id == 0
    }

    /// Whether the pointer points into the file it is read from.
    pub fn is_local(&self) -> (r: bool)
        ensures
            r == self.local(),
    {
        self.file_id == 0
    }

    /// Whether this is the null pointer: local with path id 0.
    pub fn is_null(&self) -> (r: bool)
        ensures
            r == (self.file_id == 0 && self.path_id == 0),
    {
        self.file_id == 0 && self.path_id == 0
    }

    /// The index into the externals table for a non-local pointer.
    pub fn externals_index(&self) -> (r: Option<usize>)
        ensures
            r matches Some(i) ==> self.file_id > 0 && i == self.file_id - 1,
            r is None ==> self.file_id <= 0,
    {
        if self.file_id > 0 {
            Some((self.file_id - 1) as usize)
        } else {
            None
        }
    }
}

/// What a reachability pass found: the local objects reached, and the
/// pointers that leave the file.
pub struct Reachability {
    pub locals: Vec<i64>,
    pub externals: Vec<ObjectPtr>,
}

/// Why a reachability pass stopped.
pub enum ReachError<E> {
    /// Scanning an object for pointers failed.
    Scan(E),
    /// A root or a local pointer names an object the file does not have.
    MissingObject(i64),
}

proof fn lemma_push_contains<A>(s: Seq<A>, x: A)
    ensures
        forall|y: A| #[trigger] s.push(x).contains(y) <==> (s.contains(y) || y == x),
        !s.contains(x) && s.no_duplicates() ==> s.push(x).no_duplicates(),
{
    assert forall|y: A| #[trigger] s.push(x).contains(y) <==> (s.contains(y) || y == x) by {
        if s.contains(y) {
            let w = choose|w: int| 0 <= w < s.len() && s[w] == y;
            assert(s.push(x)[w] == y);
        }
        if y == x {
            assert(s.push(x)[s.len() as int] == y);
        }
        if s.push(x).contains(y) && y != x {
            let w = choose|w: int| 0 <= w < s.len() + 1 && s.push(x)[w] == y;
            assert(s[w] == y);
        }
    }
    if !s.contains(x) && s.no_duplicates() {
        assert forall|i: int, j: int| 0 <= i < s.len() + 1 && 0 <= j < s.len() + 1 && i != j implies s.push(x)[i] != s.push(x)[j] by {
            if i < s.len() && j < s.len() {
            } else if i < s.len() {
                assert(s.contains(s[i]));
            } else {
                assert(s.contains(s[j]));
            }
        }
    }
}

fn contains_ptr(v: &Vec<ObjectPtr>, x: ObjectPtr) -> (r: bool)
    ensures
        r == v@.contains(x),
{
    let mut i: usize = 0;
    while i < v.len()
        invariant
            i <= v@.len(),
            forall|j: int| 0 <= j < i ==> v@[j] != x,
        decreases v@.len() - i,
    {
        if v[i] == x {
            return true;
        }
        i = i + 1;
    }
    false
}

/// Whether every pointer of `v` is accounted for: a local one by its
/// object in `locals`, any other by itself in `externals`.
pub open spec fn pointers_covered(v: Seq<ObjectPtr>, locals: Seq<i64>, externals: Seq<ObjectPtr>) -> bool {
    forall|j: int| 0 <= j < v.len() ==> (v[j].local() ==> locals.contains(v[j].path_id)) && (!v[j].local() ==> externals.contains(#[trigger] v[j]))
}

/// Whether some outcome of scanning `x` has all its pointers accounted for.
pub open spec fn scan_covered<F: Fn(i64) -> Result<Vec<ObjectPtr>, E>, E>(scan: F, x: i64, locals: Seq<i64>, externals: Seq<ObjectPtr>) -> bool {
    exists|v: Vec<ObjectPtr>| #[trigger] scan.ensures((x,), Ok::<Vec<ObjectPtr>, E>(v)) && pointers_covered(v@, locals, externals)
}

/// Every local object reachable from `roots` by local pointers, with the
/// pointers that leave the file met on the way; `scan` lists the pointers
/// of one object. Each object is scanned once; pointers out of the file are
/// recorded, not followed.
pub fn reachable<F, E>(object_ids: &Vec<i64>, roots: &Vec<i64>, scan: F) -> (r: Result<Reachability, ReachError<E>>)
    where
        F: Fn(i64) -> Result<Vec<ObjectPtr>, E>,
    requires
        forall|id: i64| object_ids@.contains(id) ==> #[trigger] scan.requires((id,)),
    ensures
        r matches Ok(res) ==> {
            &&& forall|i: int| 0 <= i < roots@.len() ==> res.locals@.contains(#[trigger] roots@[i])
            &&& forall|i: int| 0 <= i < res.locals@.len() ==> object_ids@.contains(#[trigger] res.locals@[i])
            &&& res.locals@.no_duplicates()
            &&& res.externals@.no_duplicates()
            &&& forall|i: int| 0 <= i < res.locals@.len() ==> roots@.contains(#[trigger] res.locals@[i])
                || exists|p: i64, v: Vec<ObjectPtr>| res.locals@.contains(p) && p != res.locals@[i] && scan.ensures((p,), Ok::<Vec<ObjectPtr>, E>(v)) && v@.contains(ObjectPtr { file_id: 0, path_id: res.locals@[i] })
            &&& forall|i: int| 0 <= i < res.externals@.len() ==> !(#[trigger] res.externals@[i]).local()
                && exists|p: i64, v: Vec<ObjectPtr>| res.locals@.contains(p) && scan.ensures((p,), Ok::<Vec<ObjectPtr>, E>(v)) && v@.contains(res.externals@[i])
            &&& forall|i: int| 0 <= i < res.locals@.len() ==> scan_covered::<F, E>(scan, #[trigger] res.locals@[i], res.locals@, res.externals@)
        },
        r matches Err(ReachError::MissingObject(id)) ==> !object_ids@.contains(id),
        r matches Err(ReachError::Scan(e)) ==> exists|p: i64| object_ids@.contains(p) && scan.ensures((p,), Err::<Vec<ObjectPtr>, E>(e)),
{
    let mut objects: HashMap<i64, usize> = HashMap::new();
    let mut k: usize = 0;
    while k < object_ids.len()
        invariant
            k <= object_ids@.len(),
            forall|j: int| 0 <= j < k ==> objects@.contains_key(#[trigger] object_ids@[j]),
            forall|id: i64| objects@.contains_key(id) ==> object_ids@.contains(id),
        decreases object_ids@.len() - k,
    {
        objects.insert(object_ids[k], k);
        proof {
            assert(object_ids@[k as int] == object_ids@[k as int]);
        }
        k = k + 1;
    }
    proof {
        assert forall|id: i64| object_ids@.contains(id) implies objects@.contains_key(id) by {
            let w = choose|w: int| 0 <= w < object_ids@.len() && object_ids@[w] == id;
            assert(objects@.contains_key(object_ids@[w]));
        }
    }

    let mut seen: HashMap<i64, usize> = HashMap::new();
    let mut order: Vec<i64> = Vec::new();
    let mut i: usize = 0;
    while i < roots.len()
        invariant
            forall|id: i64| objects@.contains_key(id) <==> object_ids@.contains(id),
            i <= roots@.len(),
            forall|id: i64| #[trigger] seen@.contains_key(id) <==> order@.contains(id),
            order@.no_duplicates(),
            forall|j: int| 0 <= j < order@.len() ==> object_ids@.contains(#[trigger] order@[j]),
            forall|j: int| 0 <= j < order@.len() ==> roots@.contains(#[trigger] order@[j]),
            forall|j: int| 0 <= j < i ==> order@.contains(#[trigger] roots@[j]),
        decreases roots@.len() - i,
    {
        let id = roots[i];
        if !objects.contains_key(&id) {
            return Err(ReachError::MissingObject(id));
        }
        let ghost pre = order@;
        if !seen.contains_key(&id) {
            seen.insert(id, order.len());
            order.push(id);
            proof {
                lemma_push_contains(pre, id);
                assert(order@ == pre.push(id));
                assert forall|j: int| 0 <= j < order@.len() implies roots@.contains(#[trigger] order@[j]) by {
                    if j < pre.len() {
                        assert(order@[j] == pre[j]);
                    } else {
                        assert(roots@[i as int] == id);
                    }
                }
                assert forall|j: int| 0 <= j < order@.len() implies object_ids@.contains(#[trigger] order@[j]) by {
                    if j < pre.len() {
                        assert(order@[j] == pre[j]);
                    }
                }
            }
        }
        proof {
            assert(roots@[i as int] == id);
            assert(order@.contains(id));
            assert forall|j: int| 0 <= j <= i implies order@.contains(#[trigger] roots@[j]) by {
                if j < i {
                    assert(pre.contains(roots@[j]));
                }
            }
        }
        i = i + 1;
    }

    let mut externals: Vec<ObjectPtr> = Vec::new();
    let ghost mut src: Map<i64, (i64, Vec<ObjectPtr>)> = Map::empty();
    let ghost mut ext_src: Map<ObjectPtr, (i64, Vec<ObjectPtr>)> = Map::empty();
    let ghost mut scanned: Map<i64, Vec<ObjectPtr>> = Map::empty();
    let mut next: usize = 0;
    while next < order.len()
        invariant
            forall|id: i64| objects@.contains_key(id) <==> object_ids@.contains(id),
            forall|id: i64| object_ids@.contains(id) ==> #[trigger] scan.requires((id,)),
            forall|id: i64| #[trigger] seen@.contains_key(id) <==> order@.contains(id),
            order@.no_duplicates(),
            externals@.no_duplicates(),
            next <= order@.len(),
            forall|j: int| 0 <= j < order@.len() ==> object_ids@.contains(#[trigger] order@[j]),
            forall|j: int| 0 <= j < roots@.len() ==> order@.contains(#[trigger] roots@[j]),
            forall|j: int| 0 <= j < order@.len() ==> roots@.contains(#[trigger] order@[j]) || (src.contains_key(order@[j])
                && order@.contains(src[order@[j]].0) && src[order@[j]].0 != order@[j] && scan.ensures((src[order@[j]].0,), Ok::<Vec<ObjectPtr>, E>(src[order@[j]].1))
                && src[order@[j]].1@.contains(ObjectPtr { file_id: 0, path_id: order@[j] })),
            forall|j: int| 0 <= j < externals@.len() ==> !(#[trigger] externals@[j]).local() && ext_src.contains_key(externals@[j])
                && order@.contains(ext_src[externals@[j]].0) && scan.ensures((ext_src[externals@[j]].0,), Ok::<Vec<ObjectPtr>, E>(ext_src[externals@[j]].1))
                && ext_src[externals@[j]].1@.contains(externals@[j]),
            forall|j: int| 0 <= j < next ==> #[trigger] scanned.contains_key(order@[j]) && scan.ensures((order@[j],), Ok::<Vec<ObjectPtr>, E>(scanned[order@[j]]))
                && forall|q: int| 0 <= q < scanned[order@[j]]@.len() ==> (scanned[order@[j]]@[q].local() ==> order@.contains(scanned[order@[j]]@[q].path_id))
                    && (!scanned[order@[j]]@[q].local() ==> externals@.contains(scanned[order@[j]]@[q])),
        decreases object_ids@.len() - next,
    {
        proof {
            order@.unique_seq_to_set();
            object_ids@.lemma_cardinality_of_set();
            assert(order@.to_set().subset_of(object_ids@.to_set())) by {
                assert forall|x: i64| order@.to_set().contains(x) implies object_ids@.to_set().contains(x) by {
                    let w = choose|w: int| 0 <= w < order@.len() && order@[w] == x;
                    assert(object_ids@.contains(order@[w]));
                }
            }
            vstd::set_lib::lemma_len_subset(order@.to_set(), object_ids@.to_set());
        }
        let p = order[next];
        assert(object_ids@.contains(p));
        let ptrs = match scan(p) {
            Ok(v) => v,
            Err(e) => return Err(ReachError::Scan(e)),
        };
        let ghost old_order = order@;
        let ghost old_externals = externals@;
        let mut j: usize = 0;
        while j < ptrs.len()
            invariant
                forall|id: i64| objects@.contains_key(id) <==> object_ids@.contains(id),
                forall|id: i64| object_ids@.contains(id) ==> #[trigger] scan.requires((id,)),
                forall|id: i64| #[trigger] seen@.contains_key(id) <==> order@.contains(id),
                scan.ensures((p,), Ok::<Vec<ObjectPtr>, E>(ptrs)),
                order@.no_duplicates(),
                externals@.no_duplicates(),
                next < old_order.len(),
                old_order[next as int] == p,
                j <= ptrs@.len(),
                old_order.len() <= order@.len(),
                forall|q: int| 0 <= q < old_order.len() ==> order@[q] == old_order[q],
                old_externals.len() <= externals@.len(),
                forall|q: int| 0 <= q < old_externals.len() ==> externals@[q] == old_externals[q],
                forall|q: int| 0 <= q < order@.len() ==> object_ids@.contains(#[trigger] order@[q]),
                forall|q: int| 0 <= q < roots@.len() ==> order@.contains(#[trigger] roots@[q]),
                forall|q: int| 0 <= q < order@.len() ==> roots@.contains(#[trigger] order@[q]) || (src.contains_key(order@[q])
                    && order@.contains(src[order@[q]].0) && src[order@[q]].0 != order@[q] && scan.ensures((src[order@[q]].0,), Ok::<Vec<ObjectPtr>, E>(src[order@[q]].1))
                    && src[order@[q]].1@.contains(ObjectPtr { file_id: 0, path_id: order@[q] })),
                forall|q: int| 0 <= q < externals@.len() ==> !(#[trigger] externals@[q]).local() && ext_src.contains_key(externals@[q])
                    && order@.contains(ext_src[externals@[q]].0) && scan.ensures((ext_src[externals@[q]].0,), Ok::<Vec<ObjectPtr>, E>(ext_src[externals@[q]].1))
                    && ext_src[externals@[q]].1@.contains(externals@[q]),
                forall|q: int| 0 <= q < next ==> #[trigger] scanned.contains_key(order@[q]) && scan.ensures((order@[q],), Ok::<Vec<ObjectPtr>, E>(scanned[order@[q]]))
                    && forall|w: int| 0 <= w < scanned[order@[q]]@.len() ==> (scanned[order@[q]]@[w].local() ==> order@.contains(scanned[order@[q]]@[w].path_id))
                        && (!scanned[order@[q]]@[w].local() ==> externals@.contains(scanned[order@[q]]@[w])),
                forall|w: int| 0 <= w < j ==> (ptrs@[w].local() ==> order@.contains(ptrs@[w].path_id)) && (!ptrs@[w].local() ==> externals@.contains(#[trigger] ptrs@[w])),
            decreases ptrs@.len() - j,
        {
            let q = ptrs[j];
            let ghost pre_order = order@;
            let ghost pre_externals = externals@;
            assert(order@.contains(p)) by {
                assert(order@[next as int] == p);
            }
            if !q.is_local() {
                if !contains_ptr(&externals, q) {
                    externals.push(q);
                    proof {
                        lemma_push_contains(pre_externals, q);
                        assert(externals@ == pre_externals.push(q));
                        ext_src = ext_src.insert(q, (p, ptrs));
                        assert(ptrs@[j as int] == q);
                        assert(externals@[externals@.len() - 1] == q);
                        assert forall|w: int| 0 <= w < externals@.len() implies !(#[trigger] externals@[w]).local() && ext_src.contains_key(externals@[w])
                            && order@.contains(ext_src[externals@[w]].0) && scan.ensures((ext_src[externals@[w]].0,), Ok::<Vec<ObjectPtr>, E>(ext_src[externals@[w]].1))
                            && ext_src[externals@[w]].1@.contains(externals@[w]) by {
                            if w < pre_externals.len() {
                                assert(externals@[w] == pre_externals[w]);
                                assert(externals@[w] != q);
                            }
                        }
                    }
                }
            } else if !seen.contains_key(&q.path_id) {
                if !objects.contains_key(&q.path_id) {
                    return Err(ReachError::MissingObject(q.path_id));
                }
                seen.insert(q.path_id, order.len());
                order.push(q.path_id);
                proof {
                    lemma_push_contains(pre_order, q.path_id);
                    assert(order@ == pre_order.push(q.path_id));
                    src = src.insert(q.path_id, (p, ptrs));
                    assert(pre_order.contains(p));
                    assert(!pre_order.contains(q.path_id));
                    assert(ptrs@[j as int] == q);
                    assert(q == ObjectPtr { file_id: 0, path_id: q.path_id });
                    assert(order@[order@.len() - 1] == q.path_id);
                    assert forall|w: int| 0 <= w < order@.len() implies object_ids@.contains(#[trigger] order@[w]) by {
                        if w < pre_order.len() {
                            assert(order@[w] == pre_order[w]);
                        }
                    }
                    assert forall|w: int| 0 <= w < order@.len() implies roots@.contains(#[trigger] order@[w]) || (src.contains_key(order@[w])
                        && order@.contains(src[order@[w]].0) && src[order@[w]].0 != order@[w] && scan.ensures((src[order@[w]].0,), Ok::<Vec<ObjectPtr>, E>(src[order@[w]].1))
                        && src[order@[w]].1@.contains(ObjectPtr { file_id: 0, path_id: order@[w] })) by {
                        if w < pre_order.len() {
                            assert(order@[w] == pre_order[w]);
                            assert(pre_order[w] != q.path_id);
                        }
                    }
                }
            }
            proof {
                assert forall|y: i64| #[trigger] pre_order.contains(y) implies order@.contains(y) by {
                    let w = choose|w: int| 0 <= w < pre_order.len() && pre_order[w] == y;
                    assert(order@[w] == y);
                }
                assert forall|y: ObjectPtr| #[trigger] pre_externals.contains(y) implies externals@.contains(y) by {
                    let w = choose|w: int| 0 <= w < pre_externals.len() && pre_externals[w] == y;
                    assert(externals@[w] == y);
                }
                assert(ptrs@[j as int] == q);
                assert forall|w: int| 0 <= w < next implies #[trigger] scanned.contains_key(order@[w]) && scan.ensures((order@[w],), Ok::<Vec<ObjectPtr>, E>(scanned[order@[w]]))
                    && forall|z: int| 0 <= z < scanned[order@[w]]@.len() ==> (scanned[order@[w]]@[z].local() ==> order@.contains(scanned[order@[w]]@[z].path_id))
                        && (!scanned[order@[w]]@[z].local() ==> externals@.contains(scanned[order@[w]]@[z])) by {
                    assert(order@[w] == pre_order[w]);
                    assert(scanned.contains_key(pre_order[w]));
                    let v = scanned[pre_order[w]];
                    assert forall|z: int| 0 <= z < v@.len() implies (v@[z].local() ==> order@.contains(v@[z].path_id)) && (!v@[z].local() ==> externals@.contains(v@[z])) by {
                        if v@[z].local() {
                            assert(pre_order.contains(v@[z].path_id));
                        } else {
                            assert(pre_externals.contains(v@[z]));
                        }
                    }
                }
            }
            j = j + 1;
        }
        proof {
            scanned = scanned.insert(p, ptrs);
            assert(order@[next as int] == p);
        }
        next = next + 1;
    }
    let res = Reachability { locals: order, externals };
    proof {
        assert forall|i: int| 0 <= i < roots@.len() implies res.locals@.contains(#[trigger] roots@[i]) by {}
        assert forall|i: int| 0 <= i < res.locals@.len() implies object_ids@.contains(#[trigger] res.locals@[i]) by {}
        assert(res.locals@.no_duplicates());
        assert(res.externals@.no_duplicates());
        assert forall|i: int| 0 <= i < res.locals@.len() implies roots@.contains(#[trigger] res.locals@[i])
            || exists|p: i64, v: Vec<ObjectPtr>| res.locals@.contains(p) && p != res.locals@[i] && scan.ensures((p,), Ok::<Vec<ObjectPtr>, E>(v)) && v@.contains(ObjectPtr { file_id: 0, path_id: res.locals@[i] }) by {
            if !roots@.contains(res.locals@[i]) {
                let w = src[res.locals@[i]];
                assert(res.locals@.contains(w.0) && w.0 != res.locals@[i] && scan.ensures((w.0,), Ok::<Vec<ObjectPtr>, E>(w.1)) && w.1@.contains(ObjectPtr { file_id: 0, path_id: res.locals@[i] }));
            }
        }
        assert forall|i: int| 0 <= i < res.externals@.len() implies !(#[trigger] res.externals@[i]).local()
            && exists|p: i64, v: Vec<ObjectPtr>| res.locals@.contains(p) && scan.ensures((p,), Ok::<Vec<ObjectPtr>, E>(v)) && v@.contains(res.externals@[i]) by {
            let w = ext_src[res.externals@[i]];
            assert(res.locals@.contains(w.0) && scan.ensures((w.0,), Ok::<Vec<ObjectPtr>, E>(w.1)) && w.1@.contains(res.externals@[i]));
        }
        assert forall|i: int| 0 <= i < res.locals@.len() implies scan_covered::<F, E>(scan, #[trigger] res.locals@[i], res.locals@, res.externals@) by {
            let v = scanned[res.locals@[i]];
            assert(scanned.contains_key(res.locals@[i]));
            assert(scan.ensures((res.locals@[i],), Ok::<Vec<ObjectPtr>, E>(v)));
            assert(pointers_covered(v@, res.locals@, res.externals@));
        }
    }
    Ok(res)
}

} // verus!
