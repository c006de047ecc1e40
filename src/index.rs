//! The addressables index: which bundle file holds each archive member, and
//! which members each bundle file holds.
use vstd::prelude::*;

verus! {

pub open spec fn str_pairs_view(v: Seq<(String, String)>) -> Seq<(Seq<char>, Seq<char>)> {
    v.map_values(|e: (String, String)| (e.0@, e.1@))
}

pub open spec fn members_view(v: Seq<(String, Vec<String>)>) -> Seq<(Seq<char>, Seq<Seq<char>>)> {
    v.map_values(|e: (String, Vec<String>)| (e.0@, e.1@.map_values(|s: String| s@)))
}

/// The keys of a list of pairs, in order.
pub open spec fn keys_of(cab: Seq<(Seq<char>, Seq<char>)>) -> Seq<Seq<char>> {
    cab.map_values(|e: (Seq<char>, Seq<char>)| e.0)
}

/// The bundle that holds `member` according to `cab`: the value of the first
/// pair whose key is `member`.
pub open spec fn owner_of(cab: Seq<(Seq<char>, Seq<char>)>, member: Seq<char>) -> Option<Seq<char>> {
    match keys_of(cab).index_of_first(member) {
        Some(i) => Some(cab[i].1),
        None => None,
    }
}

/// Why the index could not take a bundle.
pub enum IndexError {
    /// The member is already held by another bundle.
    Conflict { member: String, first: String, second: String },
}

/// Archive members by bundle file and bundle files by member.
pub struct AddressablesIndex {
    pub cab_to_bundle: Vec<(String, String)>,
    pub bundle_to_cab: Vec<(String, Vec<String>)>,
}

/// Finds the first pair whose key is `k`.
fn find_key(v: &Vec<(String, String)>, k: &String) -> (r: Option<usize>)
    ensures
        r matches Some(i) ==> i < v@.len() && keys_of(str_pairs_view(v@)).index_of_first(k@) == Some(i as int),
        r is None ==> keys_of(str_pairs_view(v@)).index_of_first(k@) is None,
{
    let ghost keys = keys_of(str_pairs_view(v@));
    let mut i: usize = 0;
    while i < v.len()
        invariant
            i <= v@.len(),
            keys == keys_of(str_pairs_view(v@)),
            keys.len() == v@.len(),
            forall|j: int| 0 <= j < i ==> keys[j] != k@,
        decreases v@.len() - i,
    {
        if v[i].0 == *k {
            proof {
                keys.index_of_first_ensures(k@);
                assert(keys[i as int] == k@);
                let x = keys.index_of_first(k@).unwrap();
                if x < i {
                    assert(keys[x] != k@);
                } else if x > i {
                    assert(keys[i as int] == k@);
                }
            }
            return Some(i);
        }
        proof {
            assert(keys[i as int] == v@[i as int].0@);
        }
        i = i + 1;
    }
    proof {
        keys.index_of_first_ensures(k@);
        if keys.contains(k@) {
            let w = choose|w: int| 0 <= w < keys.len() && keys[w] == k@;
            assert(keys[w] != k@);
        }
    }
    None
}

impl AddressablesIndex {
    pub open spec fn cab_view(&self) -> Seq<(Seq<char>, Seq<char>)> {
        str_pairs_view(self.cab_to_bundle@)
    }

    pub open spec fn bundles_view(&self) -> Seq<(Seq<char>, Seq<Seq<char>>)> {
        members_view(self.bundle_to_cab@)
    }

    pub fn new() -> (r: AddressablesIndex)
        ensures
            r.cab_view().len() == 0,
            r.bundles_view().len() == 0,
    {
        AddressablesIndex { cab_to_bundle: Vec::new(), bundle_to_cab: Vec::new() }
    }

    /// The bundle file that holds `member`.
    pub fn bundle_of(&self, member: &String) -> (r: Option<&String>)
        ensures
            r matches Some(b) ==> owner_of(self.cab_view(), member@) == Some(b@),
            r is None ==> owner_of(self.cab_view(), member@) is None,
    {
        match find_key(&self.cab_to_bundle, member) {
            Some(i) => Some(&self.cab_to_bundle[i].1),
            None => None,
        }
    }

    /// Records that the bundle file `bundle` holds `members`. A member that
    /// another bundle already holds is a conflict, reported with both owners,
    /// and the index is left as it was; a member the same bundle holds is
    /// recorded once.
    pub fn add_bundle(&mut self, bundle: String, members: Vec<String>) -> (r: Result<(), IndexError>)
        ensures
            r is Err <==> exists|i: int| 0 <= i < members@.len() && clashes(old(self).cab_view(), #[trigger] members@[i]@, bundle@),
            r is Err ==> final(self).cab_view() == old(self).cab_view() && final(self).bundles_view() == old(self).bundles_view(),
            r matches Err(IndexError::Conflict { member, first, second }) ==> second@ == bundle@ && first@ != bundle@
                && owner_of(old(self).cab_view(), member@) == Some(first@)
                && exists|i: int| 0 <= i < members@.len() && #[trigger] members@[i]@ == member@,
            r is Ok ==> {
                &&& final(self).bundles_view() == old(self).bundles_view().push((bundle@, members@.map_values(|s: String| s@)))
                &&& forall|i: int| 0 <= i < members@.len() ==> owner_of(final(self).cab_view(), #[trigger] members@[i]@) == Some(bundle@)
                &&& forall|m: Seq<char>| #[trigger] owner_of(old(self).cab_view(), m) is Some ==> owner_of(final(self).cab_view(), m) == owner_of(old(self).cab_view(), m)
                &&& forall|m: Seq<char>| #[trigger] owner_of(final(self).cab_view(), m) is Some ==> owner_of(old(self).cab_view(), m) is Some
                    || exists|i: int| 0 <= i < members@.len() && #[trigger] members@[i]@ == m
            },
    {
        let ghost start = self.cab_view();
        let mut c: usize = 0;
        while c < members.len()
            invariant
                c <= members@.len(),
                self.cab_view() == start,
                start == old(self).cab_view(),
                self.bundle_to_cab@ == old(self).bundle_to_cab@,
                forall|j: int| 0 <= j < c ==> !clashes(start, #[trigger] members@[j]@, bundle@),
            decreases members@.len() - c,
        {
            match find_key(&self.cab_to_bundle, &members[c]) {
                Some(k) => {
                    if self.cab_to_bundle[k].1 != bundle {
                        let first = self.cab_to_bundle[k].1.clone();
                        proof {
                            assert(clashes(start, members@[c as int]@, bundle@));
                        }
                        return Err(IndexError::Conflict { member: members[c].clone(), first, second: bundle });
                    }
                },
                None => {},
            }
            c = c + 1;
        }
        let mut i: usize = 0;
        while i < members.len()
            invariant
                i <= members@.len(),
                self.bundle_to_cab@ == old(self).bundle_to_cab@,
                start == old(self).cab_view(),
                forall|j: int| 0 <= j < members@.len() ==> !clashes(start, #[trigger] members@[j]@, bundle@),
                forall|j: int| 0 <= j < i ==> owner_of(self.cab_view(), #[trigger] members@[j]@) == Some(bundle@),
                forall|m: Seq<char>| #[trigger] owner_of(start, m) is Some ==> owner_of(self.cab_view(), m) == owner_of(start, m),
                forall|m: Seq<char>| #[trigger] owner_of(self.cab_view(), m) is Some ==> owner_of(start, m) is Some
                    || (owner_of(self.cab_view(), m) == Some(bundle@) && exists|j: int| 0 <= j < i && #[trigger] members@[j]@ == m),
            decreases members@.len() - i,
        {
            let ghost before = self.cab_view();
            let ghost mi = members@[i as int]@;
            match find_key(&self.cab_to_bundle, &members[i]) {
                Some(k) => {
                    proof {
                        assert(owner_of(before, mi) is Some);
                        if owner_of(start, mi) is Some {
                            assert(!clashes(start, members@[i as int]@, bundle@));
                        }
                    }
                },
                None => {
                    self.cab_to_bundle.push((members[i].clone(), bundle.clone()));
                    proof {
                        let after = self.cab_view();
                        let keys_b = keys_of(before);
                        let keys_a = keys_of(after);
                        assert(keys_a =~= keys_b.push(mi));
                        keys_b.index_of_first_ensures(mi);
                        keys_a.index_of_first_ensures(mi);
                        assert forall|m: Seq<char>| #[trigger] owner_of(before, m) is Some implies owner_of(after, m) == owner_of(before, m) by {
                            keys_b.index_of_first_ensures(m);
                            keys_a.index_of_first_ensures(m);
                            let x = keys_b.index_of_first(m).unwrap();
                            assert(keys_a[x] == m);
                            let y = keys_a.index_of_first(m).unwrap();
                            if y < x {
                                assert(keys_b[y] == keys_a[y]);
                            }
                            assert(y == x);
                        }
                        assert(keys_a[keys_b.len() as int] == mi);
                        let y = keys_a.index_of_first(mi).unwrap();
                        if y < keys_b.len() {
                            assert(keys_b[y] == keys_a[y]);
                            assert(keys_b.contains(mi));
                        }
                        assert(owner_of(after, mi) == Some(bundle@));
                        assert forall|m: Seq<char>| #[trigger] owner_of(after, m) is Some implies owner_of(before, m) is Some || m == mi by {
                            if m != mi {
                                keys_a.index_of_first_ensures(m);
                                keys_b.index_of_first_ensures(m);
                                let z = keys_a.index_of_first(m).unwrap();
                                assert(z < keys_b.len());
                                assert(keys_b[z] == m);
                            }
                        }
                        assert(owner_of(start, mi) is None) by {
                            if owner_of(start, mi) is Some {
                                assert(owner_of(before, mi) is Some);
                            }
                        }
                    }
                },
            }
            proof {
                assert forall|m: Seq<char>| #[trigger] owner_of(self.cab_view(), m) is Some implies owner_of(start, m) is Some
                    || (owner_of(self.cab_view(), m) == Some(bundle@) && exists|j: int| 0 <= j < i + 1 && #[trigger] members@[j]@ == m) by {
                    if owner_of(start, m) is None {
                        if m == mi {
                            assert(members@[i as int]@ == m);
                        } else {
                            assert(owner_of(before, m) is Some);
                            let j = choose|j: int| 0 <= j < i && #[trigger] members@[j]@ == m;
                            assert(members@[j]@ == m);
                        }
                    }
                }
                assert forall|j: int| 0 <= j < i + 1 implies owner_of(self.cab_view(), #[trigger] members@[j]@) == Some(bundle@) by {
                    if j < i {
                        assert(owner_of(before, members@[j]@) is Some);
                    }
                }
            }
            i = i + 1;
        }
        self.bundle_to_cab.push((bundle, members));
        proof {
            assert(self.bundles_view() =~= old(self).bundles_view().push((bundle@, members@.map_values(|s: String| s@))));
        }
        Ok(())
    }

    /// Builds the index of bundle files and the members each holds. It fails
    /// exactly when two bundle files list the same member.
    pub fn build(bundles: Vec<(String, Vec<String>)>) -> (r: Result<AddressablesIndex, IndexError>)
        ensures
            r is Ok <==> conflict_free_upto(members_view(bundles@), bundles@.len() as int),
            r matches Ok(x) ==> {
                let mv = members_view(bundles@);
                &&& x.bundles_view() == mv
                &&& forall|b: int, i: int| 0 <= b < mv.len() && 0 <= i < mv[b].1.len() ==> owner_of(x.cab_view(), #[trigger] mv[b].1[i]) == Some(mv[b].0)
                &&& forall|m: Seq<char>| #[trigger] owner_of(x.cab_view(), m) is Some ==> exists|b: int, i: int| 0 <= b < mv.len() && 0 <= i < mv[b].1.len() && #[trigger] mv[b].1[i] == m
            },
    {
        let ghost orig = bundles@;
        let mut x = AddressablesIndex::new();
        proof {
            assert forall|m: Seq<char>| #[trigger] owner_of(x.cab_view(), m) is None by {
                keys_of(x.cab_view()).index_of_first_ensures(m);
            }
        }
        let mut rest = bundles;
        let ghost all = rest@;
        assert(all == orig);
        let ghost mv = members_view(all);
        let n = rest.len();
        let mut done: usize = 0;
        while rest.len() > 0
            invariant
                done + rest@.len() == all.len(),
                all.len() == n,
                all == orig,
                orig == bundles@,
                mv == members_view(all),
                rest@ == all.subrange(done as int, all.len() as int),
                x.bundles_view() == members_view(all.subrange(0, done as int)),
                forall|b: int, i: int| 0 <= b < done && 0 <= i < mv[b].1.len() ==> owner_of(x.cab_view(), #[trigger] mv[b].1[i]) == Some(mv[b].0),
                forall|m: Seq<char>| #[trigger] owner_of(x.cab_view(), m) is Some ==> exists|b: int, i: int| 0 <= b < done && 0 <= i < mv[b].1.len() && #[trigger] mv[b].1[i] == m,
                conflict_free_upto(mv, done as int),
            decreases rest@.len(),
        {
            let (bundle, members) = rest.remove(0);
            let ghost old_x = x.cab_view();
            proof {
                assert(all[done as int] == (bundle, members));
                assert(mv[done as int].0 == bundle@);
                assert(mv[done as int].1.len() == members@.len());
                assert forall|i: int| 0 <= i < members@.len() implies #[trigger] mv[done as int].1[i] == members@[i]@ by {}
            }
            let r = x.add_bundle(bundle, members);
            match r {
                Ok(()) => {},
                Err(e) => {
                    proof {
                        let i = choose|i: int| 0 <= i < members@.len() && clashes(old_x, #[trigger] members@[i]@, bundle@);
                        let m = members@[i]@;
                        assert(mv[done as int].1[i] == m);
                        assert(owner_of(old_x, m) is Some);
                        let (b, j) = choose|b: int, j: int| 0 <= b < done && 0 <= j < mv[b].1.len() && #[trigger] mv[b].1[j] == m;
                        assert(owner_of(old_x, mv[b].1[j]) == Some(mv[b].0));
                        assert(mv[b].0 != mv[done as int].0);
                        assert(!conflict_free_upto(mv, all.len() as int)) by {
                            assert(mv[b].1[j] == mv[done as int].1[i]);
                        }
                        assert(members_view(orig) == mv);
                        assert(!conflict_free_upto(members_view(orig), orig.len() as int));
                    }
                    return Err(e);
                },
            }
            proof {
                assert(members_view(all.subrange(0, done + 1)) =~= members_view(all.subrange(0, done as int)).push((bundle@, members@.map_values(|s: String| s@))));
                assert forall|b: int, i: int| 0 <= b < done + 1 && 0 <= i < mv[b].1.len() implies owner_of(x.cab_view(), #[trigger] mv[b].1[i]) == Some(mv[b].0) by {
                    if b < done {
                        assert(owner_of(old_x, mv[b].1[i]) is Some);
                    } else {
                        assert(mv[b].1[i] == members@[i]@);
                    }
                }
                assert forall|m: Seq<char>| #[trigger] owner_of(x.cab_view(), m) is Some implies exists|b: int, i: int| 0 <= b < done + 1 && 0 <= i < mv[b].1.len() && #[trigger] mv[b].1[i] == m by {
                    if owner_of(old_x, m) is Some {
                        let (b, i) = choose|b: int, i: int| 0 <= b < done && 0 <= i < mv[b].1.len() && #[trigger] mv[b].1[i] == m;
                        assert(mv[b].1[i] == m);
                    } else {
                        let i = choose|i: int| 0 <= i < members@.len() && #[trigger] members@[i]@ == m;
                        assert(mv[done as int].1[i] == m);
                    }
                }
                assert forall|b1: int, i: int, b2: int, j: int| 0 <= b1 < done + 1 && 0 <= b2 < done + 1 && 0 <= i < mv[b1].1.len() && 0 <= j < mv[b2].1.len() && #[trigger] mv[b1].1[i] == #[trigger] mv[b2].1[j] implies mv[b1].0 == mv[b2].0 by {
                    if b1 < done && b2 == done {
                        assert(owner_of(old_x, mv[b1].1[i]) == Some(mv[b1].0));
                        assert(mv[b2].1[j] == members@[j]@);
                        assert(!clashes(old_x, members@[j]@, bundle@));
                    } else if b2 < done && b1 == done {
                        assert(owner_of(old_x, mv[b2].1[j]) == Some(mv[b2].0));
                        assert(mv[b1].1[i] == members@[i]@);
                        assert(!clashes(old_x, members@[i]@, bundle@));
                    }
                }
                assert(rest@ =~= all.subrange(done + 1, all.len() as int));
            }
            done = done + 1;
        }
        assert(all.subrange(0, done as int) =~= all);
        Ok(x)
    }
}

/// Whether `m` already belongs to a bundle other than `b`.
pub open spec fn clashes(cab: Seq<(Seq<char>, Seq<char>)>, m: Seq<char>, b: Seq<char>) -> bool {
    owner_of(cab, m) matches Some(o) && o != b
}

/// Whether, among the first `n` bundles of `v`, every member is listed by
/// bundles of one name only.
pub open spec fn conflict_free_upto(v: Seq<(Seq<char>, Seq<Seq<char>>)>, n: int) -> bool {
    forall|b1: int, i: int, b2: int, j: int| 0 <= b1 < n && 0 <= b2 < n && 0 <= i < v[b1].1.len() && 0 <= j < v[b2].1.len() && #[trigger] v[b1].1[i] == #[trigger] v[b2].1[j] ==> v[b1].0 == v[b2].0
}

} // verus!
