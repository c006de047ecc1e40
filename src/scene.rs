//! Resolving `/`-separated GameObject paths against a file's transform hierarchy.
use std::collections::HashMap;
use vstd::prelude::*;

use crate::strings::{join_reversed, push_char};
use crate::text::{split_char, split_on, str_eq};
use vstd::string::*;

verus! {

broadcast use vstd::std_specs::hash::group_hash_axioms;

/// A Transform of a serialized file, as the hierarchy lookup reads it.
pub struct TransformNode {
    /// The Transform's path id.
    pub path_id: i64,
    /// The path id of the GameObject that owns the Transform.
    pub game_object: i64,
    /// The name of that GameObject.
    pub name: String,
    /// The parent Transform's path id; `None` for a root.
    pub father: Option<i64>,
    /// The path ids of the child Transforms, in order.
    pub children: Vec<i64>,
}

/// The path ids of the Transforms of `nodes` that have no parent, in order.
pub open spec fn root_path_ids(nodes: Seq<TransformNode>) -> Seq<i64>
    decreases nodes.len(),
{
    if nodes.len() == 0 {
        Seq::empty()
    } else {
        root_path_ids(nodes.drop_last()) + if nodes.last().father is None {
            seq![nodes.last().path_id]
        } else {
            Seq::empty()
        }
    }
}

/// What a path lookup found.
#[derive(Debug, Clone, Copy, PartialEq, Eq, Structural)]
pub enum PathLookup {
    /// The path id of the Transform the path names.
    Found(i64),
    /// No Transform has that path.
    NotFound,
    /// Two or more roots carry the path's first name.
    Ambiguous,
}

/// Why a hierarchy could not be indexed.
#[derive(Debug, Clone, Copy, PartialEq, Eq, Structural)]
pub enum SceneError {
    /// Two Transforms share this path id.
    DuplicatePathId(i64),
    /// A Transform lists a child with this path id that is not in the hierarchy.
    MissingChild(i64),
}

/// The root Transforms of one serialized file, indexed for path lookups.
pub struct SceneLookup {
    nodes: Vec<TransformNode>,
    index: HashMap<i64, usize>,
    roots: Vec<usize>,
}

impl SceneLookup {
    pub closed spec fn wf(&self) -> bool {
        &&& forall|id: i64| #[trigger] self.index@.contains_key(id) ==> self.index@[id] < self.nodes@.len() && self.nodes@[self.index@[id] as int].path_id == id
        &&& forall|i: int| 0 <= i < self.nodes@.len() ==> #[trigger] self.index@.contains_key(self.nodes@[i].path_id) && self.index@[self.nodes@[i].path_id] == i
        &&& forall|i: int, j: int| 0 <= i < self.nodes@.len() && 0 <= j < self.nodes@[i].children@.len() ==> self.index@.contains_key(#[trigger] self.nodes@[i].children@[j])
        &&& forall|k: int| 0 <= k < self.roots@.len() ==> #[trigger] self.roots@[k] < self.nodes@.len() && self.nodes@[self.roots@[k] as int].father is None
    }

    /// Whether `id` is the path id of a Transform of the hierarchy.
    pub closed spec fn has(&self, id: i64) -> bool {
        self.index@.contains_key(id)
    }

    /// The GameObject name of the Transform `id`.
    pub closed spec fn name_of(&self, id: i64) -> Seq<char> {
        self.nodes@[self.index@[id] as int].name@
    }

    /// The children of the Transform `id`.
    pub closed spec fn children_of(&self, id: i64) -> Seq<i64> {
        self.nodes@[self.index@[id] as int].children@
    }

    /// The number of Transforms indexed.
    pub closed spec fn node_count(&self) -> nat {
        self.nodes@.len()
    }

    /// The parent of the Transform `id`.
    pub closed spec fn father_of(&self, id: i64) -> Option<i64> {
        self.nodes@[self.index@[id] as int].father
    }

    /// The GameObject that owns the Transform `id`.
    pub closed spec fn game_object_of(&self, id: i64) -> i64 {
        self.nodes@[self.index@[id] as int].game_object
    }

    /// The path ids of the roots, in the order they were given.
    pub closed spec fn root_ids(&self) -> Seq<i64> {
        Seq::new(self.roots@.len(), |k: int| self.nodes@[self.roots@[k] as int].path_id)
    }

    /// The ids in `kids` whose GameObject is named `seg`, in order.
    pub open spec fn named(&self, kids: Seq<i64>, seg: Seq<char>) -> Seq<i64>
        decreases kids.len(),
    {
        if kids.len() == 0 {
            Seq::empty()
        } else {
            self.named(kids.drop_last(), seg) + if self.name_of(kids.last()) == seg {
                seq![kids.last()]
            } else {
                Seq::empty()
            }
        }
    }

    /// The children named `seg` of every Transform of `cur`, in order.
    pub open spec fn step(&self, cur: Seq<i64>, seg: Seq<char>) -> Seq<i64>
        decreases cur.len(),
    {
        if cur.len() == 0 {
            Seq::empty()
        } else {
            self.step(cur.drop_last(), seg) + self.named(self.children_of(cur.last()), seg)
        }
    }

    /// The Transforms reached from `cur` by following `segs` one level each.
    pub open spec fn descend(&self, cur: Seq<i64>, segs: Seq<Seq<char>>) -> Seq<i64>
        decreases segs.len(),
    {
        if segs.len() == 0 {
            cur
        } else if self.step(cur, segs[0]).len() == 0 {
            Seq::empty()
        } else {
            self.descend(self.step(cur, segs[0]), segs.drop_first())
        }
    }

    /// What looking up `path` yields: the roots named by its first segment
    /// must be exactly one; from there each further segment keeps every child
    /// so named; the last of the Transforms left is the answer.
    pub open spec fn spec_lookup(&self, path: Seq<char>) -> PathLookup {
        let segs = split_on(path, '/');
        let roots = self.named(self.root_ids(), segs[0]);
        if roots.len() == 0 {
            PathLookup::NotFound
        } else if roots.len() > 1 {
            PathLookup::Ambiguous
        } else {
            let found = self.descend(roots, segs.drop_first());
            if found.len() == 0 {
                PathLookup::NotFound
            } else {
                PathLookup::Found(found.last())
            }
        }
    }

    /// The number of Transforms indexed.
    pub fn len(&self) -> (r: usize)
        ensures
            r == self.node_count(),
    {
        self.nodes.len()
    }

    /// Whether `id` is the path id of a Transform of the hierarchy.
    pub fn contains(&self, id: i64) -> (r: bool)
        requires
            self.wf(),
        ensures
            r == self.has(id),
    {
        self.index.contains_key(&id)
    }

    /// Indexes the Transforms of one file.
    pub fn new(nodes: Vec<TransformNode>) -> (r: Result<SceneLookup, SceneError>)
        ensures
            r matches Ok(s) ==> s.wf()
                && (forall|i: int| 0 <= i < nodes@.len() ==> #[trigger] s.has(nodes@[i].path_id) && s.name_of(nodes@[i].path_id) == nodes@[i].name@ && s.children_of(nodes@[i].path_id) == nodes@[i].children@
                    && s.father_of(nodes@[i].path_id) == nodes@[i].father && s.game_object_of(nodes@[i].path_id) == nodes@[i].game_object)
                && s.root_ids() == root_path_ids(nodes@)
                && s.node_count() == nodes@.len()
                && (forall|id: i64| #[trigger] s.has(id) ==> exists|i: int| 0 <= i < nodes@.len() && nodes@[i].path_id == id),
            r matches Err(SceneError::DuplicatePathId(id)) ==> exists|i: int, j: int| 0 <= i < j < nodes@.len() && nodes@[i].path_id == id && nodes@[j].path_id == id,
            r matches Err(SceneError::MissingChild(id)) ==> (forall|i: int, j: int| 0 <= i < j < nodes@.len() ==> nodes@[i].path_id != nodes@[j].path_id) && exists|i: int| 0 <= i < nodes@.len() && nodes@[i].children@.contains(id) && forall|k: int| 0 <= k < nodes@.len() ==> nodes@[k].path_id != id,
    {
        let mut index: HashMap<i64, usize> = HashMap::new();
        let mut roots: Vec<usize> = Vec::new();
        let mut i: usize = 0;
        while i < nodes.len()
            invariant
                i <= nodes@.len(),
                forall|id: i64| #[trigger] index@.contains_key(id) ==> index@[id] < i && nodes@[index@[id] as int].path_id == id,
                forall|k: int| 0 <= k < i ==> #[trigger] index@.contains_key(nodes@[k].path_id) && index@[nodes@[k].path_id] == k,
                forall|k: int| 0 <= k < roots@.len() ==> #[trigger] roots@[k] < nodes@.len() && nodes@[roots@[k] as int].father is None,
                Seq::new(roots@.len(), |k: int| nodes@[roots@[k] as int].path_id) == root_path_ids(nodes@.subrange(0, i as int)),
            decreases nodes@.len() - i,
        {
            let id = nodes[i].path_id;
            if index.contains_key(&id) {
                let ghost j = index@[id] as int;
                assert(nodes@[j].path_id == id);
                return Err(SceneError::DuplicatePathId(id));
            }
            index.insert(id, i);
            let ghost old_roots = roots@;
            proof {
                assert(nodes@.subrange(0, i + 1).drop_last() =~= nodes@.subrange(0, i as int));
            }
            if nodes[i].father.is_none() {
                roots.push(i);
                proof {
                    assert(Seq::new(roots@.len(), |k: int| nodes@[roots@[k] as int].path_id) =~= Seq::new(old_roots.len(), |k: int| nodes@[old_roots[k] as int].path_id).push(id));
                }
            } else {
                assert(Seq::new(roots@.len(), |k: int| nodes@[roots@[k] as int].path_id) =~= Seq::new(old_roots.len(), |k: int| nodes@[old_roots[k] as int].path_id));
            }
            i = i + 1;
        }
        let mut a: usize = 0;
        while a < nodes.len()
            invariant
                a <= nodes@.len(),
                forall|id: i64| #[trigger] index@.contains_key(id) ==> index@[id] < nodes@.len() && nodes@[index@[id] as int].path_id == id,
                forall|k: int| 0 <= k < nodes@.len() ==> #[trigger] index@.contains_key(nodes@[k].path_id) && index@[nodes@[k].path_id] == k,
                forall|k: int, j: int| 0 <= k < a && 0 <= j < nodes@[k].children@.len() ==> index@.contains_key(#[trigger] nodes@[k].children@[j]),
            decreases nodes@.len() - a,
        {
            let mut b: usize = 0;
            while b < nodes[a].children.len()
                invariant
                    a < nodes@.len(),
                    b <= nodes@[a as int].children@.len(),
                    forall|id: i64| #[trigger] index@.contains_key(id) ==> index@[id] < nodes@.len() && nodes@[index@[id] as int].path_id == id,
                    forall|k: int| 0 <= k < nodes@.len() ==> #[trigger] index@.contains_key(nodes@[k].path_id) && index@[nodes@[k].path_id] == k,
                    forall|k: int, j: int| 0 <= k < a && 0 <= j < nodes@[k].children@.len() ==> index@.contains_key(#[trigger] nodes@[k].children@[j]),
                    forall|j: int| 0 <= j < b ==> index@.contains_key(#[trigger] nodes@[a as int].children@[j]),
                decreases nodes@[a as int].children@.len() - b,
            {
                let c = nodes[a].children[b];
                if !index.contains_key(&c) {
                    proof {
                        assert(nodes@[a as int].children@[b as int] == c);
                        assert forall|k: int| 0 <= k < nodes@.len() implies nodes@[k].path_id != c by {
                            assert(index@.contains_key(nodes@[k].path_id));
                        }
                        assert forall|p: int, q: int| 0 <= p < q < nodes@.len() implies nodes@[p].path_id != nodes@[q].path_id by {
                            assert(index@.contains_key(nodes@[p].path_id));
                            assert(index@.contains_key(nodes@[q].path_id));
                        }
                    }
                    return Err(SceneError::MissingChild(c));
                }
                b = b + 1;
            }
            a = a + 1;
        }
        assert(nodes@.subrange(0, nodes@.len() as int) =~= nodes@);
        let s = SceneLookup { nodes, index, roots };
        proof {
            assert forall|id: i64| #[trigger] s.has(id) implies exists|i: int| 0 <= i < s.nodes@.len() && s.nodes@[i].path_id == id by {
                assert(s.nodes@[s.index@[id] as int].path_id == id);
            }
        }
        Ok(s)
    }

    /// The path ids of the root Transforms.
    pub fn roots(&self) -> (r: Vec<i64>)
        requires
            self.wf(),
        ensures
            r@ == self.root_ids(),
    {
        let mut r: Vec<i64> = Vec::new();
        let mut k: usize = 0;
        while k < self.roots.len()
            invariant
                self.wf(),
                k <= self.roots@.len(),
                r@ =~= self.root_ids().subrange(0, k as int),
            decreases self.roots@.len() - k,
        {
            r.push(self.nodes[self.roots[k]].path_id);
            k = k + 1;
        }
        r
    }

    pub(crate) fn node(&self, id: i64) -> (r: &TransformNode)
        requires
            self.wf(),
            self.has(id),
        ensures
            r.name@ == self.name_of(id),
            r.father == self.father_of(id),
            r.game_object == self.game_object_of(id),
            r.children@ == self.children_of(id),
            forall|j: int| 0 <= j < r.children@.len() ==> self.has(#[trigger] r.children@[j]),
    {
        let i = *self.index.get(&id).unwrap();
        &self.nodes[i]
    }

    /// The ids among `kids` whose GameObject is named `seg`, appended to `out`.
    fn push_named(&self, kids: &Vec<i64>, seg: &str, out: &mut Vec<i64>)
        requires
            self.wf(),
            forall|j: int| 0 <= j < kids@.len() ==> self.has(#[trigger] kids@[j]),
        ensures
            final(out)@ == old(out)@ + self.named(kids@, seg@),
            forall|j: int| 0 <= j < final(out)@.len() && !(0 <= j < old(out)@.len()) ==> self.has(#[trigger] final(out)@[j]),
    {
        let ghost start = out@;
        let mut j: usize = 0;
        while j < kids.len()
            invariant
                self.wf(),
                forall|j2: int| 0 <= j2 < kids@.len() ==> self.has(#[trigger] kids@[j2]),
                j <= kids@.len(),
                out@ == start + self.named(kids@.subrange(0, j as int), seg@),
                forall|k: int| start.len() <= k < out@.len() ==> self.has(#[trigger] out@[k]),
            decreases kids@.len() - j,
        {
            let c = kids[j];
            let n = self.node(c);
            proof {
                assert(kids@.subrange(0, j + 1).drop_last() =~= kids@.subrange(0, j as int));
            }
            if str_eq(n.name.as_str(), seg) {
                out.push(c);
            }
            j = j + 1;
        }
        assert(kids@.subrange(0, kids@.len() as int) =~= kids@);
    }

    /// The children named `seg` of every Transform of `cur`, in order.
    fn step_exec(&self, cur: &Vec<i64>, seg: &str) -> (r: Vec<i64>)
        requires
            self.wf(),
            forall|j: int| 0 <= j < cur@.len() ==> self.has(#[trigger] cur@[j]),
        ensures
            r@ == self.step(cur@, seg@),
            forall|j: int| 0 <= j < r@.len() ==> self.has(#[trigger] r@[j]),
    {
        let mut found: Vec<i64> = Vec::new();
        let mut i: usize = 0;
        while i < cur.len()
            invariant
                self.wf(),
                forall|j: int| 0 <= j < cur@.len() ==> self.has(#[trigger] cur@[j]),
                i <= cur@.len(),
                found@ == self.step(cur@.subrange(0, i as int), seg@),
                forall|j: int| 0 <= j < found@.len() ==> self.has(#[trigger] found@[j]),
            decreases cur@.len() - i,
        {
            let n = self.node(cur[i]);
            proof {
                assert(cur@.subrange(0, i + 1).drop_last() =~= cur@.subrange(0, i as int));
            }
            self.push_named(&n.children, seg, &mut found);
            i = i + 1;
        }
        assert(cur@.subrange(0, cur@.len() as int) =~= cur@);
        found
    }

    /// Resolves a `/`-separated GameObject path to a Transform's path id.
    pub fn lookup_path(&self, path: &str) -> (r: PathLookup)
        requires
            self.wf(),
        ensures
            r == self.spec_lookup(path@),
    {
        let segments = split_char(path, '/');
        let ghost segs = split_on(path@, '/');
        assert(segments@.len() >= 1) by {
            reveal_with_fuel(split_on, 1);
        }
        let root_ids = self.roots();
        proof {
            assert forall|j: int| 0 <= j < root_ids@.len() implies self.has(#[trigger] root_ids@[j]) by {
                let k = self.roots@[j] as int;
                assert(self.index@.contains_key(self.nodes@[k].path_id));
            }
        }
        let mut current: Vec<i64> = Vec::new();
        self.push_named(&root_ids, segments[0].as_str(), &mut current);
        assert(current@ =~= self.named(self.root_ids(), segs[0]));
        if current.len() == 0 {
            return PathLookup::NotFound;
        }
        if current.len() > 1 {
            return PathLookup::Ambiguous;
        }
        let mut i: usize = 1;
        while i < segments.len()
            invariant
                self.wf(),
                segments@.len() == segs.len(),
                segs == split_on(path@, '/'),
                self.named(self.root_ids(), segs[0]).len() == 1,
                forall|k: int| 0 <= k < segments@.len() ==> #[trigger] segments@[k]@ == segs[k],
                1 <= i <= segments@.len(),
                current@.len() > 0,
                forall|j: int| 0 <= j < current@.len() ==> self.has(#[trigger] current@[j]),
                self.descend(self.named(self.root_ids(), segs[0]), segs.drop_first()) == self.descend(current@, segs.subrange(i as int, segs.len() as int)),
            decreases segments@.len() - i,
        {
            let found = self.step_exec(&current, segments[i].as_str());
            proof {
                let rest = segs.subrange(i as int, segs.len() as int);
                assert(rest[0] == segs[i as int]);
                assert(rest.drop_first() =~= segs.subrange(i + 1, segs.len() as int));
            }
            if found.len() == 0 {
                proof {
                    let rest = segs.subrange(i as int, segs.len() as int);
                    assert(self.descend(current@, rest) == Seq::<i64>::empty());
                }
                return PathLookup::NotFound;
            }
            current = found;
            i = i + 1;
        }
        proof {
            assert(segs.subrange(segs.len() as int, segs.len() as int) =~= Seq::<Seq<char>>::empty());
        }
        PathLookup::Found(current[current.len() - 1])
    }

    /// The Transforms from `id` up to its root, `id` first; `None` when a
    /// parent is missing or the chain is longer than `fuel`.
    pub open spec fn chain_up(&self, id: i64, fuel: nat) -> Option<Seq<i64>>
        decreases fuel,
    {
        if fuel == 0 || !self.has(id) {
            None
        } else {
            match self.father_of(id) {
                None => Some(seq![id]),
                Some(f) => match self.chain_up(f, (fuel - 1) as nat) {
                    Some(rest) => Some(seq![id] + rest),
                    None => None,
                },
            }
        }
    }

    /// The transform path of `id`: the names from its root down to it,
    /// joined with `/`. A chain longer than the hierarchy repeats a Transform
    /// and never reaches a root: it has no path.
    pub open spec fn spec_path_of(&self, id: i64) -> Option<Seq<char>> {
        match self.chain_up(id, self.node_count()) {
            Some(ch) => Some(join_reversed(Seq::new(ch.len(), |i: int| self.name_of(ch[i])), 0, '/')),
            None => None,
        }
    }

    /// The transform path of the Transform `id`, root first.
    pub fn path_of(&self, id: i64) -> (r: Option<String>)
        requires
            self.wf(),
        ensures
            r matches Some(s) ==> self.spec_path_of(id) == Some(s@),
            r is None ==> self.spec_path_of(id) is None,
    {
        let mut names: Vec<String> = Vec::new();
        let ghost mut ids: Seq<i64> = Seq::empty();
        let mut cur = id;
        let mut fuel: usize = self.len();
        loop
            invariant_except_break
                self.chain_up(id, self.node_count()) == (match self.chain_up(cur, fuel as nat) {
                    Some(rest) => Some(ids + rest),
                    None => None::<Seq<i64>>,
                }),
            invariant
                self.wf(),
                names@.len() == ids.len(),
                forall|k: int| 0 <= k < ids.len() ==> self.name_of(#[trigger] ids[k]) == names@[k]@,
            ensures
                self.wf(),
                names@.len() >= 1,
                names@.len() == ids.len(),
                forall|k: int| 0 <= k < ids.len() ==> self.name_of(#[trigger] ids[k]) == names@[k]@,
                self.chain_up(id, self.node_count()) == Some(ids),
            decreases fuel,
        {
            if fuel == 0 || !self.contains(cur) {
                return None;
            }
            let n = self.node(cur);
            names.push(n.name.as_str().to_string());
            proof {
                ids = ids.push(cur);
            }
            match n.father {
                None => {
                    proof {
                        assert(ids.drop_last() + seq![cur] =~= ids);
                    }
                    break;
                },
                Some(f) => {
                    proof {
                        assert forall|rest: Seq<i64>| ids.drop_last() + (seq![cur] + rest) =~= ids + rest by {}
                    }
                    cur = f;
                    fuel = fuel - 1;
                },
            }
        }
        let k = names.len();
        let mut result = names[k - 1].clone();
        let mut j: usize = k - 1;
        let ghost parts = Seq::new(ids.len(), |i: int| self.name_of(ids[i]));
        while j > 0
            invariant
                k == names@.len(),
                k == ids.len(),
                j < k,
                parts.len() == k,
                forall|i: int| 0 <= i < k ==> parts[i] == names@[i]@,
                result@ == join_reversed(parts, j as int, '/'),
            decreases j,
        {
            j = j - 1;
            push_char(&mut result, '/');
            result.append(names[j].as_str());
        }
        Some(result)
    }
}

/// More fuel does not change a chain that already reaches a root.
pub proof fn lemma_chain_up_fuel(s: &SceneLookup, id: i64, n: nat)
    requires
        s.chain_up(id, n) is Some,
    ensures
        s.chain_up(id, n + 1) == s.chain_up(id, n),
    decreases n,
{
    if let Some(f) = s.father_of(id) {
        lemma_chain_up_fuel(s, f, (n - 1) as nat);
    }
}

} // verus!
