use vstd::prelude::*;
use crate::bytes::{contains, copy_bytes, distinct, has_name, set_of};

verus! {

/// Whether a device named `n` may be connected under the optional name filter.
pub open spec fn admitted(filter: Option<Seq<u8>>, n: Seq<u8>) -> bool {
    match filter {
        Some(f) => f == n,
        None => true,
    }
}

/// The name filter as bytes.
pub open spec fn filter_view(filter: Option<&Vec<u8>>) -> Option<Seq<u8>> {
    match filter {
        Some(f) => Some(f@),
        None => None,
    }
}

/// Names to connect in a poll: seen, not yet connected, and admitted.
pub open spec fn to_connect_spec(registry: Set<Seq<u8>>, seen: Set<Seq<u8>>, filter: Option<Seq<u8>>) -> Set<Seq<u8>> {
    Set::new(|n: Seq<u8>| seen.contains(n) && !registry.contains(n) && admitted(filter, n))
}

/// Names whose connections close in a poll: those no longer seen.
pub open spec fn dropped_spec(registry: Set<Seq<u8>>, seen: Set<Seq<u8>>) -> Set<Seq<u8>> {
    registry.difference(seen)
}

/// The registry after a poll: what was connected and is still seen, and
/// what was opened.
pub open spec fn after_spec(registry: Set<Seq<u8>>, seen: Set<Seq<u8>>, opened: Set<Seq<u8>>) -> Set<Seq<u8>> {
    registry.intersect(seen).union(opened)
}

/// The names of the devices with an open connection, one entry per name.
pub struct Registry {
    names: Vec<Vec<u8>>,
}

impl View for Registry {
    type V = Set<Seq<u8>>;

    closed spec fn view(&self) -> Set<Seq<u8>> {
        set_of(self.names@)
    }
}

impl Registry {
    pub closed spec fn wf(&self) -> bool {
        distinct(self.names@)
    }

    pub fn new() -> (r: Registry)
        ensures
            r.wf(),
            r@ == Set::<Seq<u8>>::empty(),
    {
        let r = Registry { names: Vec::new() };
        assert(r@ =~= Set::<Seq<u8>>::empty());
        r
    }

    /// Whether a connection to `name` is registered.
    pub fn is_connected(&self, name: &Vec<u8>) -> (r: bool)
        ensures
            r == self@.contains(name@),
    {
        contains(&self.names, name)
    }

    /// The names to attempt a connection to, given the names seen in this
    /// poll, each once.
    pub fn to_connect(&self, seen: &Vec<Vec<u8>>, filter: Option<&Vec<u8>>) -> (r: Vec<Vec<u8>>)
        ensures
            set_of(r@) == to_connect_spec(self@, set_of(seen@), filter_view(filter)),
            distinct(r@),
    {
        let ghost fv = filter_view(filter);
        let mut r: Vec<Vec<u8>> = Vec::new();
        let mut i: usize = 0;
        proof {
            lemma_set_of_empty(r@);
            lemma_set_of_empty(seen@.take(0));
            assert(set_of(r@) =~= to_connect_spec(self@, set_of(seen@.take(0)), fv));
        }
        while i < seen.len()
            invariant
                i <= seen@.len(),
                fv == filter_view(filter),
                distinct(r@),
                set_of(r@) == to_connect_spec(self@, set_of(seen@.take(i as int)), fv),
            decreases seen@.len() - i,
        {
            let name = &seen[i];
            let ok = match filter {
                Some(f) => crate::bytes::bytes_eq(f, name),
                None => true,
            };
            let ghost before = r@;
            let known = contains(&self.names, name);
            let listed = contains(&r, name);
            proof {
                lemma_set_of_take(seen@, i as int);
                lemma_has_name(self.names@, name@);
                lemma_has_name(r@, name@);
            }
            if ok && !known && !listed {
                let c = copy_bytes(name);
                r.push(c);
                proof { lemma_push_new(before, c); }
            }
            proof {
                let s0 = set_of(seen@.take(i as int));
                assert(set_of(r@) =~= to_connect_spec(self@, s0.insert(name@), fv));
            }
            i = i + 1;
        }
        assert(seen@.take(seen@.len() as int) =~= seen@);
        r
    }

    /// Ends a poll: registers the connections `opened` in it and closes
    /// those whose device was not seen, returning the closed names.
    pub fn finish_poll(&mut self, seen: &Vec<Vec<u8>>, opened: &Vec<Vec<u8>>) -> (dropped: Vec<Vec<u8>>)
        requires
            old(self).wf(),
        ensures
            final(self).wf(),
            final(self)@ == after_spec(old(self)@, set_of(seen@), set_of(opened@)),
            set_of(dropped@) == dropped_spec(old(self)@, set_of(seen@)),
            distinct(dropped@),
    {
        let ghost start = self@;
        let ghost sv = set_of(seen@);
        let mut kept: Vec<Vec<u8>> = Vec::new();
        let mut dropped: Vec<Vec<u8>> = Vec::new();
        let mut i: usize = 0;
        proof {
            lemma_set_of_empty(kept@);
            lemma_set_of_empty(self.names@.take(0));
        }
        while i < self.names.len()
            invariant
                i <= self.names@.len(),
                distinct(self.names@),
                start == set_of(self.names@),
                sv == set_of(seen@),
                distinct(kept@),
                distinct(dropped@),
                set_of(kept@) == set_of(self.names@.take(i as int)).intersect(sv),
                set_of(dropped@) == set_of(self.names@.take(i as int)).difference(sv),
            decreases self.names@.len() - i,
        {
            let ghost names = self.names@;
            let name = &self.names[i];
            let c = copy_bytes(name);
            let ghost kept0 = kept@;
            let ghost dropped0 = dropped@;
            proof {
                lemma_set_of_take(names, i as int);
                lemma_has_name(seen@, name@);
                assert(!set_of(names.take(i as int)).contains(name@)) by {
                    if has_name(names.take(i as int), name@) {
                        let k = choose|k: int| 0 <= k < i && (#[trigger] names.take(i as int)[k])@ == name@;
                        assert(names.take(i as int)[k] == names[k]);
                    }
                }
                lemma_has_name(kept0, name@);
                lemma_has_name(dropped0, name@);
            }
            if contains(seen, name) {
                kept.push(c);
                proof { lemma_push_new(kept0, c); }
            } else {
                dropped.push(c);
                proof { lemma_push_new(dropped0, c); }
            }
            proof {
                let t0 = set_of(names.take(i as int));
                assert(set_of(kept@) =~= t0.insert(name@).intersect(sv));
                assert(set_of(dropped@) =~= t0.insert(name@).difference(sv));
            }
            i = i + 1;
        }
        assert(self.names@.take(self.names@.len() as int) =~= self.names@);
        let mut j: usize = 0;
        proof {
            lemma_set_of_empty(opened@.take(0));
            assert(set_of(kept@) =~= start.intersect(sv).union(set_of(opened@.take(0))));
        }
        while j < opened.len()
            invariant
                j <= opened@.len(),
                distinct(kept@),
                set_of(kept@) == start.intersect(sv).union(set_of(opened@.take(j as int))),
            decreases opened@.len() - j,
        {
            let name = &opened[j];
            let ghost kept0 = kept@;
            proof {
                lemma_set_of_take(opened@, j as int);
                lemma_has_name(kept0, name@);
            }
            if !contains(&kept, name) {
                let c = copy_bytes(name);
                kept.push(c);
                proof { lemma_push_new(kept0, c); }
            }
            proof {
                let o0 = set_of(opened@.take(j as int));
                assert(set_of(kept@) =~= start.intersect(sv).union(o0.insert(name@)));
            }
            j = j + 1;
        }
        assert(opened@.take(opened@.len() as int) =~= opened@);
        self.names = kept;
        dropped
    }
}

proof fn lemma_has_name(v: Seq<Vec<u8>>, n: Seq<u8>)
    ensures
        set_of(v).contains(n) == has_name(v, n),
{
}

proof fn lemma_set_of_empty(v: Seq<Vec<u8>>)
    requires
        v.len() == 0,
    ensures
        set_of(v) == Set::<Seq<u8>>::empty(),
{
    assert(set_of(v) =~= Set::<Seq<u8>>::empty());
}

/// One more entry of a prefix adds its bytes to the set.
proof fn lemma_set_of_take(v: Seq<Vec<u8>>, i: int)
    requires
        0 <= i < v.len(),
    ensures
        set_of(v.take(i + 1)) == set_of(v.take(i)).insert(v[i]@),
{
    let p = v.take(i + 1);
    let p0 = v.take(i);
    assert forall|n: Seq<u8>| has_name(p, n) <==> has_name(p0, n) || n == v[i]@ by {
        if has_name(p, n) {
            let k = choose|k: int| 0 <= k < p.len() && (#[trigger] p[k])@ == n;
            if k < i {
                assert(p0[k] == p[k]);
            }
        }
        if has_name(p0, n) {
            let k = choose|k: int| 0 <= k < i && (#[trigger] p0[k])@ == n;
            assert(p[k] == p0[k]);
        }
        if n == v[i]@ {
            assert(p[i] == v[i]);
        }
    }
    assert(set_of(p) =~= set_of(p0).insert(v[i]@));
}

/// Pushing a string that is not yet present keeps the entries distinct and
/// adds exactly that string.
proof fn lemma_push_new(v: Seq<Vec<u8>>, x: Vec<u8>)
    requires
        distinct(v),
        !has_name(v, x@),
    ensures
        distinct(v.push(x)),
        set_of(v.push(x)) == set_of(v).insert(x@),
{
    let w = v.push(x);
    assert forall|a: int, b: int| 0 <= a < b < w.len() implies (#[trigger] w[a])@ != (#[trigger] w[b])@ by {
        assert(w[a] == v[a]);
        if b < v.len() {
            assert(w[b] == v[b]);
        }
    }
    assert forall|n: Seq<u8>| has_name(w, n) <==> has_name(v, n) || n == x@ by {
        if has_name(w, n) {
            let k = choose|k: int| 0 <= k < w.len() && (#[trigger] w[k])@ == n;
            if k < v.len() {
                assert(v[k] == w[k]);
            }
        }
        if has_name(v, n) {
            let k = choose|k: int| 0 <= k < v.len() && (#[trigger] v[k])@ == n;
            assert(w[k] == v[k]);
        }
        if n == x@ {
            assert(w[v.len() as int] == x);
        }
    }
    assert(set_of(w) =~= set_of(v).insert(x@));
}

/// Two consecutive polls with no name filter, where every attempted
/// connection opens: starting from an empty registry, the devices seen
/// only in the first poll are disconnected in the second, those seen in
/// both stay connected without a new attempt, those seen only in the second
/// are newly connected, and the registry ends as the second poll's names.
pub proof fn lemma_two_polls(s1: Set<Seq<u8>>, s2: Set<Seq<u8>>)
    ensures
        ({
            let r0 = Set::<Seq<u8>>::empty();
            let c1 = to_connect_spec(r0, s1, None);
            let r1 = after_spec(r0, s1, c1);
            let c2 = to_connect_spec(r1, s2, None);
            let r2 = after_spec(r1, s2, c2);
            &&& r1 == s1
            &&& c2 == s2.difference(s1)
            &&& dropped_spec(r1, s2) == s1.difference(s2)
            &&& r2 == s2
            &&& r2.intersect(r1) == s1.intersect(s2)
        }),
{
    let r0 = Set::<Seq<u8>>::empty();
    let c1 = to_connect_spec(r0, s1, None);
    let r1 = after_spec(r0, s1, c1);
    assert(r1 =~= s1);
    let c2 = to_connect_spec(r1, s2, None);
    assert(c2 =~= s2.difference(s1));
    let r2 = after_spec(r1, s2, c2);
    assert(dropped_spec(r1, s2) =~= s1.difference(s2));
    assert(r2 =~= s2);
    assert(r2.intersect(r1) =~= s1.intersect(s2));
}

} // verus!
