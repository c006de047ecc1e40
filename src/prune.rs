//! Pruning a scene down to the hierarchies kept, with the ancestors that
//! lead to them stripped of every other child.
use std::collections::HashSet;
use vstd::prelude::*;

use crate::scene::SceneLookup;

verus! {

broadcast use vstd::std_specs::hash::group_hash_axioms;

/// The ids of `kids` that lie in `keep`, in order.
pub open spec fn filter_kept(kids: Seq<i64>, keep: Set<i64>) -> Seq<i64>
    decreases kids.len(),
{
    if kids.len() == 0 {
        Seq::empty()
    } else {
        filter_kept(kids.drop_last(), keep) + if keep.contains(kids.last()) {
            seq![kids.last()]
        } else {
            Seq::empty()
        }
    }
}

/// An ancestor rewritten by pruning keeps exactly those of its children
/// that are kept: a child outside the kept set leaves its child list, and
/// every kept child stays.
pub proof fn lemma_filter_kept(kids: Seq<i64>, keep: Set<i64>, c: i64)
    ensures
        filter_kept(kids, keep).contains(c) <==> kids.contains(c) && keep.contains(c),
    decreases kids.len(),
{
    if kids.len() > 0 {
        let rest = kids.drop_last();
        lemma_filter_kept(rest, keep, c);
        let f = filter_kept(rest, keep);
        let tail = if keep.contains(kids.last()) { seq![kids.last()] } else { Seq::<i64>::empty() };
        assert(filter_kept(kids, keep) == f + tail);
        if (f + tail).contains(c) {
            let w = choose|w: int| 0 <= w < (f + tail).len() && (f + tail)[w] == c;
            if w < f.len() {
                assert(f[w] == c);
                let v = choose|v: int| 0 <= v < rest.len() && rest[v] == c;
                assert(kids[v] == c);
            } else {
                assert(kids[kids.len() - 1] == c);
            }
        }
        if kids.contains(c) && keep.contains(c) {
            let v = choose|v: int| 0 <= v < kids.len() && kids[v] == c;
            if v < kids.len() - 1 {
                assert(rest[v] == c);
                let w = choose|w: int| 0 <= w < f.len() && f[w] == c;
                assert((f + tail)[w] == c);
            } else {
                assert((f + tail)[f.len() as int] == c);
            }
        }
    }
}

/// What pruning decided: the objects to keep, the new child list of each
/// ancestor Transform it rewrote, and the GameObjects to deactivate.
pub struct PrunePlan {
    pub reachable: Vec<i64>,
    pub rewritten: Vec<(i64, Vec<i64>)>,
    pub disabled: Vec<i64>,
}

/// Why a prune plan could not be made.
#[derive(Debug, Clone, Copy, PartialEq, Eq, Structural)]
pub enum PruneError {
    /// A kept Transform, or a parent on its way up, is not in the hierarchy.
    MissingTransform(i64),
    /// Walking up from this kept Transform took more steps than the
    /// hierarchy has Transforms.
    ParentCycle(i64),
}

proof fn lemma_push_to_set(s: Seq<i64>, x: i64)
    ensures
        s.push(x).to_set() == s.to_set().insert(x),
{
    assert forall|y: i64| #[trigger] s.push(x).to_set().contains(y) <==> s.to_set().insert(x).contains(y) by {
        if s.contains(y) {
            let w = choose|w: int| 0 <= w < s.len() && s[w] == y;
            assert(s.push(x)[w] == y);
        }
        if y == x {
            assert(s.push(x)[s.len() as int] == y);
        }
        if s.push(x).contains(y) && y != x {
            let w = choose|w: int| 0 <= w < s.len() + 1 && s.push(x)[w] == y;
            assert(s[w] == y);
        }
    }
    assert(s.push(x).to_set() =~= s.to_set().insert(x));
}

fn push_new(set: &mut HashSet<i64>, out: &mut Vec<i64>, id: i64)
    requires
        forall|x: i64| old(set)@.contains(x) <==> old(out)@.contains(x),
    ensures
        forall|x: i64| final(set)@.contains(x) <==> final(out)@.contains(x),
        final(set)@ == old(set)@.insert(id),
        final(out)@.to_set() == old(out)@.to_set().insert(id),
{
    if set.insert(id) {
        out.push(id);
        proof {
            assert forall|x: i64| set@.contains(x) <==> out@.contains(x) by {
                if x == id {
                    assert(out@[out@.len() - 1] == id);
                } else if out@.contains(x) {
                    let w = choose|w: int| 0 <= w < out@.len() && out@[w] == x;
                    assert(old(out)@[w] == x);
                } else if old(out)@.contains(x) {
                    let w = choose|w: int| 0 <= w < old(out)@.len() && old(out)@[w] == x;
                    assert(out@[w] == x);
                }
            }
        }
    }
    assert(final(out)@.to_set() =~= old(out)@.to_set().insert(id));
}

/// Plans the pruning of a scene. `reachable` is what a reachability pass
/// found from the kept Transforms `kept`; `always_kept` are objects the
/// engine needs whatever points at them (render settings and the like).
/// Each kept Transform's parents are added, walking up until one is already
/// kept; every Transform so added keeps only the children that are kept, and
/// its GameObject is kept. With `disable_roots`, the GameObjects of the kept
/// Transforms are listed for deactivation.
pub fn prune_plan(scene: &SceneLookup, reachable: &Vec<i64>, kept: &Vec<i64>, always_kept: &Vec<i64>, disable_roots: bool) -> (r: Result<PrunePlan, PruneError>)
    requires
        scene.wf(),
    ensures
        r matches Ok(plan) ==> {
            let anc = plan.rewritten@.map_values(|e: (i64, Vec<i64>)| e.0);
            let keep = reachable@.to_set() + anc.to_set();
            &&& plan.reachable@.to_set() == keep + anc.map_values(|a: i64| scene.game_object_of(a)).to_set() + always_kept@.to_set()
            &&& forall|i: int| 0 <= i < anc.len() ==> !reachable@.contains(#[trigger] anc[i]) && scene.has(anc[i])
            &&& anc.no_duplicates()
            &&& forall|i: int| 0 <= i < plan.rewritten@.len() ==> (#[trigger] plan.rewritten@[i]).1@ == filter_kept(scene.children_of(plan.rewritten@[i].0), keep)
            &&& forall|i: int| 0 <= i < anc.len() ==> (scene.father_of(#[trigger] anc[i]) matches Some(f) ==> keep.contains(f))
            &&& forall|i: int| 0 <= i < kept@.len() ==> scene.has(#[trigger] kept@[i]) && (scene.father_of(kept@[i]) matches Some(f) ==> keep.contains(f))
            &&& plan.disabled@ == (if disable_roots { kept@.map_values(|k: i64| scene.game_object_of(k)) } else { Seq::empty() })
        },
        (forall|k: int| 0 <= k < kept@.len() ==> scene.chain_up(#[trigger] kept@[k], scene.node_count()) is Some) ==> r is Ok,
        r matches Err(PruneError::MissingTransform(id)) ==> !scene.has(id),
        r matches Err(PruneError::ParentCycle(id)) ==> kept@.contains(id) && scene.chain_up(id, scene.node_count()) is None,
{
    let mut set: HashSet<i64> = HashSet::new();
    let mut out: Vec<i64> = Vec::new();
    let mut i: usize = 0;
    while i < reachable.len()
        invariant
            i <= reachable@.len(),
            forall|x: i64| set@.contains(x) <==> out@.contains(x),
            out@.to_set() == reachable@.subrange(0, i as int).to_set(),
        decreases reachable@.len() - i,
    {
        push_new(&mut set, &mut out, reachable[i]);
        proof {
            assert(reachable@.subrange(0, i + 1) =~= reachable@.subrange(0, i as int).push(reachable@[i as int]));
            lemma_push_to_set(reachable@.subrange(0, i as int), reachable@[i as int]);
        }
        i = i + 1;
    }
    assert(reachable@.subrange(0, reachable@.len() as int) =~= reachable@);

    let mut anc: Vec<i64> = Vec::new();
    let mut k: usize = 0;
    while k < kept.len()
        invariant
            scene.wf(),
            k <= kept@.len(),
            forall|x: i64| set@.contains(x) <==> out@.contains(x),
            set@ == reachable@.to_set() + anc@.to_set(),
            anc@.no_duplicates(),
            forall|j: int| 0 <= j < anc@.len() ==> !reachable@.contains(#[trigger] anc@[j]) && scene.has(anc@[j]),
            forall|j: int| 0 <= j < anc@.len() ==> (scene.father_of(#[trigger] anc@[j]) matches Some(f) ==> set@.contains(f)),
            forall|j: int| 0 <= j < k ==> scene.has(#[trigger] kept@[j]) && (scene.father_of(kept@[j]) matches Some(f) ==> set@.contains(f)),
        decreases kept@.len() - k,
    {
        let id = kept[k];
        if !scene.contains(id) {
            return Err(PruneError::MissingTransform(id));
        }
        let mut cur = scene.node(id).father;
        let mut fuel: usize = scene.len();
        proof {
            if scene.chain_up(id, scene.node_count()) is Some {
                if let Some(f) = cur {
                    crate::scene::lemma_chain_up_fuel(scene, f, (scene.node_count() - 1) as nat);
                }
            }
        }
        loop
            invariant
                scene.wf(),
                forall|x: i64| set@.contains(x) <==> out@.contains(x),
                set@ == reachable@.to_set() + anc@.to_set(),
                anc@.no_duplicates(),
                forall|j: int| 0 <= j < anc@.len() ==> !reachable@.contains(#[trigger] anc@[j]) && scene.has(anc@[j]),
                forall|j: int| 0 <= j < anc@.len() ==> (scene.father_of(#[trigger] anc@[j]) == cur && cur is Some) || (scene.father_of(anc@[j]) matches Some(f) ==> set@.contains(f)),
                forall|j: int| 0 <= j < k ==> scene.has(#[trigger] kept@[j]) && (scene.father_of(kept@[j]) matches Some(f) ==> set@.contains(f)),
                scene.has(id),
                k < kept@.len(),
                id == kept@[k as int],
                fuel <= scene.node_count(),
                scene.chain_up(id, scene.node_count()) is Some ==> (cur matches Some(c) ==> scene.chain_up(c, fuel as nat) is Some),
                (scene.father_of(id) == cur && cur is Some) || (scene.father_of(id) matches Some(f) ==> set@.contains(f)),
            ensures
                scene.wf(),
                forall|x: i64| set@.contains(x) <==> out@.contains(x),
                set@ == reachable@.to_set() + anc@.to_set(),
                anc@.no_duplicates(),
                forall|j: int| 0 <= j < anc@.len() ==> !reachable@.contains(#[trigger] anc@[j]) && scene.has(anc@[j]),
                forall|j: int| 0 <= j < anc@.len() ==> (scene.father_of(#[trigger] anc@[j]) matches Some(f) ==> set@.contains(f)),
                forall|j: int| 0 <= j < k ==> scene.has(#[trigger] kept@[j]) && (scene.father_of(kept@[j]) matches Some(f) ==> set@.contains(f)),
                scene.has(id),
                scene.father_of(id) matches Some(f) ==> set@.contains(f),
            decreases fuel,
        {
            let a = match cur {
                None => break,
                Some(a) => a,
            };
            if set.contains(&a) {
                break;
            }
            if !scene.contains(a) {
                proof {
                    assert(kept@[k as int] == id);
                }
                return Err(PruneError::MissingTransform(a));
            }
            if fuel == 0 {
                proof {
                    assert(kept@[k as int] == id);
                }
                return Err(PruneError::ParentCycle(id));
            }
            let ghost old_anc = anc@;
            proof {
                assert(!anc@.contains(a));
                assert(!reachable@.contains(a)) by {
                    if reachable@.contains(a) {
                        assert(reachable@.to_set().contains(a));
                    }
                }
            }
            push_new(&mut set, &mut out, a);
            anc.push(a);
            proof {
                lemma_push_to_set(old_anc, a);
                assert(anc@ == old_anc.push(a));
                assert(set@ =~= reachable@.to_set() + anc@.to_set());
                assert forall|j: int| 0 <= j < anc@.len() && j != old_anc.len() implies anc@[j] == old_anc[j] by {}
                assert forall|p: int, q: int| 0 <= p < q < anc@.len() implies anc@[p] != anc@[q] by {
                    if q == old_anc.len() {
                        assert(old_anc.contains(anc@[p]));
                    }
                }
            }
            cur = scene.node(a).father;
            fuel = fuel - 1;
        }
        proof {
            assert(kept@[k as int] == id);
        }
        k = k + 1;
    }
    let ghost keep = set@;
    let mut rewritten: Vec<(i64, Vec<i64>)> = Vec::new();
    let mut i: usize = 0;
    while i < anc.len()
        invariant
            scene.wf(),
            set@ == keep,
            i <= anc@.len(),
            forall|j: int| 0 <= j < anc@.len() ==> scene.has(#[trigger] anc@[j]),
            rewritten@.len() == i,
            forall|j: int| 0 <= j < i ==> (#[trigger] rewritten@[j]).0 == anc@[j] && rewritten@[j].1@ == filter_kept(scene.children_of(anc@[j]), keep),
        decreases anc@.len() - i,
    {
        let a = anc[i];
        let node = scene.node(a);
        let mut kids: Vec<i64> = Vec::new();
        let mut c: usize = 0;
        while c < node.children.len()
            invariant
                set@ == keep,
                c <= node.children@.len(),
                kids@ == filter_kept(node.children@.subrange(0, c as int), keep),
            decreases node.children@.len() - c,
        {
            proof {
                assert(node.children@.subrange(0, c + 1).drop_last() =~= node.children@.subrange(0, c as int));
            }
            if set.contains(&node.children[c]) {
                kids.push(node.children[c]);
            }
            c = c + 1;
        }
        assert(node.children@.subrange(0, node.children@.len() as int) =~= node.children@);
        rewritten.push((a, kids));
        i = i + 1;
    }
    let ghost gos = anc@.map_values(|a: i64| scene.game_object_of(a));
    let mut g: usize = 0;
    while g < anc.len()
        invariant
            scene.wf(),
            g <= anc@.len(),
            forall|j: int| 0 <= j < anc@.len() ==> scene.has(#[trigger] anc@[j]),
            gos == anc@.map_values(|a: i64| scene.game_object_of(a)),
            forall|x: i64| set@.contains(x) <==> out@.contains(x),
            out@.to_set() == keep + gos.subrange(0, g as int).to_set(),
        decreases anc@.len() - g,
    {
        let go = scene.node(anc[g]).game_object;
        push_new(&mut set, &mut out, go);
        proof {
            assert(gos.subrange(0, g + 1) =~= gos.subrange(0, g as int).push(go));
            lemma_push_to_set(gos.subrange(0, g as int), go);
            assert(out@.to_set() =~= keep + gos.subrange(0, g + 1).to_set());
        }
        g = g + 1;
    }
    assert(gos.subrange(0, anc@.len() as int) =~= gos);
    let mut w: usize = 0;
    while w < always_kept.len()
        invariant
            w <= always_kept@.len(),
            forall|x: i64| set@.contains(x) <==> out@.contains(x),
            out@.to_set() == keep + gos.to_set() + always_kept@.subrange(0, w as int).to_set(),
        decreases always_kept@.len() - w,
    {
        push_new(&mut set, &mut out, always_kept[w]);
        proof {
            assert(always_kept@.subrange(0, w + 1) =~= always_kept@.subrange(0, w as int).push(always_kept@[w as int]));
            lemma_push_to_set(always_kept@.subrange(0, w as int), always_kept@[w as int]);
            assert(out@.to_set() =~= keep + gos.to_set() + always_kept@.subrange(0, w + 1).to_set());
        }
        w = w + 1;
    }
    assert(always_kept@.subrange(0, always_kept@.len() as int) =~= always_kept@);
    let mut disabled: Vec<i64> = Vec::new();
    if disable_roots {
        let mut q: usize = 0;
        while q < kept.len()
            invariant
                scene.wf(),
                q <= kept@.len(),
                forall|j: int| 0 <= j < kept@.len() ==> scene.has(#[trigger] kept@[j]),
                disabled@ == kept@.subrange(0, q as int).map_values(|k: i64| scene.game_object_of(k)),
            decreases kept@.len() - q,
        {
            disabled.push(scene.node(kept[q]).game_object);
            proof {
                assert(kept@.subrange(0, q + 1).map_values(|k: i64| scene.game_object_of(k)) =~= kept@.subrange(0, q as int).map_values(|k: i64| scene.game_object_of(k)).push(scene.game_object_of(kept@[q as int])));
            }
            q = q + 1;
        }
        assert(kept@.subrange(0, kept@.len() as int) =~= kept@);
    }
    let plan = PrunePlan { reachable: out, rewritten, disabled };
    proof {
        let an = plan.rewritten@.map_values(|e: (i64, Vec<i64>)| e.0);
        assert(an =~= anc@);
    }
    Ok(plan)
}

} // verus!
