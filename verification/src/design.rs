//! Authored design objects with stable identities, and design errors.
use vstd::prelude::*;
use crate::text::{push_str, push_decimal, string_from_chars, decimal};

verus! {

/// The stable identity of a design object.
#[derive(Debug, Clone, Copy, PartialEq, Eq, Hash)]
pub struct DesignObjectId(pub(crate) u64);

impl View for DesignObjectId {
    type V = u64;

    closed spec fn view(&self) -> u64 {
        self.0
    }
}

impl DesignObjectId {
    /// The number behind this identity.
    pub fn get(self) -> (r: u64)
        ensures
            r == self@,
    {
        self.0
    }
}

/// Why a design edit was refused.
#[derive(Debug, Clone, Copy, PartialEq, Eq)]
pub enum DesignError {
    NonFiniteCenter,
    InvalidRadius,
    ObjectNotFound(u64),
}

impl DesignError {
    /// The message shown for this error.
    pub fn message(&self) -> (r: String)
        ensures
            r@ == (match *self {
                DesignError::NonFiniteCenter => "circle center must contain finite coordinates"@,
                DesignError::InvalidRadius => "circle radius must be finite and greater than zero"@,
                DesignError::ObjectNotFound(id) => "design object "@ + decimal(id as nat)
                    + " does not exist"@,
            }),
    {
        let mut out: Vec<char> = Vec::new();
        match self {
            DesignError::NonFiniteCenter => push_str(
                &mut out,
                "circle center must contain finite coordinates",
            ),
            DesignError::InvalidRadius => push_str(
                &mut out,
                "circle radius must be finite and greater than zero",
            ),
            DesignError::ObjectNotFound(id) => {
                push_str(&mut out, "design object ");
                push_decimal(&mut out, *id);
                push_str(&mut out, " does not exist");
            },
        }
        string_from_chars(&out)
    }
}

/// An authored object: its identity and its geometry.
#[derive(Debug, Clone, Copy, PartialEq)]
pub struct DesignObject<G> {
    pub id: DesignObjectId,
    pub geometry: G,
}

/// Whether some object of `s` has identity `id`.
pub open spec fn has_id<G>(s: Seq<DesignObject<G>>, id: u64) -> bool {
    exists|i: int| 0 <= i < s.len() && #[trigger] s[i].id@ == id
}

/// `i` is the first position of `s` whose object has identity `id`.
pub open spec fn is_first<G>(s: Seq<DesignObject<G>>, id: u64, i: int) -> bool {
    &&& 0 <= i < s.len()
    &&& s[i].id@ == id
    &&& forall|j: int| 0 <= j < i ==> #[trigger] s[j].id@ != id
}

/// The first object of `s` with identity `id`, if there is one.
pub open spec fn lookup<G>(s: Seq<DesignObject<G>>, id: u64) -> Option<DesignObject<G>> {
    if has_id(s, id) {
        Some(s[choose|i: int| is_first(s, id, i)])
    } else {
        None
    }
}

/// The objects of `s` other than those with identity `id`, in order.
pub open spec fn without<G>(s: Seq<DesignObject<G>>, id: u64) -> Seq<DesignObject<G>> {
    s.filter(other_than(id))
}

/// Whether an object's identity differs from `id`.
pub open spec fn other_than<G>(id: u64) -> spec_fn(DesignObject<G>) -> bool {
    |o: DesignObject<G>| o.id@ != id
}

/// The identity that follows `next` when it is handed out: one more,
/// saturating at the largest identity.
pub open spec fn after(next: u64) -> u64 {
    if next < u64::MAX {
        (next + 1) as u64
    } else {
        u64::MAX
    }
}

/// Every identity in `s` was handed out before `next`, unless the
/// identities have run out.
pub open spec fn ids_below<G>(s: Seq<DesignObject<G>>, next: u64) -> bool {
    next == u64::MAX || forall|i: int| 0 <= i < s.len() ==> #[trigger] s[i].id@ < next
}

/// A document of authored objects, each with an identity handed out once in
/// increasing order.
#[derive(Debug, Clone, PartialEq)]
pub struct VectorDocument<G> {
    objects: Vec<DesignObject<G>>,
    next_id: u64,
}

impl<G> View for VectorDocument<G> {
    type V = Seq<DesignObject<G>>;

    closed spec fn view(&self) -> Seq<DesignObject<G>> {
        self.objects@
    }
}

impl<G> VectorDocument<G> {
    /// The identity the next added object receives.
    pub closed spec fn next_id(&self) -> u64 {
        self.next_id
    }

    /// The document's invariant: identities are handed out in increasing order.
    pub open spec fn wf(&self) -> bool {
        self.next_id() >= 1 && ids_below(self@, self.next_id())
    }

    /// An empty document whose first object receives identity 1.
    pub fn new() -> (r: Self)
        ensures
            r@ == Seq::<DesignObject<G>>::empty(),
            r.next_id() == 1,
            r.wf(),
    {
        VectorDocument { objects: Vec::new(), next_id: 1 }
    }

    /// The objects, in the order they were added.
    pub fn objects(&self) -> (r: &[DesignObject<G>])
        ensures
            r@ == self@,
    {
        self.objects.as_slice()
    }

    /// The object with identity `id`, if there is one.
    pub fn object(&self, id: DesignObjectId) -> (r: Option<&DesignObject<G>>)
        ensures
            match r {
                Some(o) => lookup(self@, id@) == Some(*o),
                None => lookup(self@, id@) is None,
            },
    {
        let n = self.objects.len();
        let mut i: usize = 0;
        while i < n
            invariant
                n == self@.len(),
                self@ == self.objects@,
                0 <= i <= n,
                forall|j: int| 0 <= j < i ==> #[trigger] self@[j].id@ != id@,
            decreases n - i,
        {
            if self.objects[i].id.0 == id.0 {
                proof {
                    lemma_first_unique(self@, id@, i as int);
                }
                return Some(&self.objects[i]);
            }
            i = i + 1;
        }
        None
    }

    /// Whether the document holds no object.
    pub fn is_empty(&self) -> (r: bool)
        ensures
            r == (self@.len() == 0),
    {
        self.objects.len() == 0
    }

    /// Adds an object with `geometry` under the next identity, and returns it.
    pub fn add_object(&mut self, geometry: G) -> (r: DesignObjectId)
        ensures
            r@ == old(self).next_id(),
            final(self)@ == old(self)@.push((DesignObject { id: r, geometry })),
            final(self).next_id() == after(old(self).next_id()),
            old(self).wf() ==> final(self).wf(),
    {
        let id = DesignObjectId(self.next_id);
        self.next_id = if self.next_id < u64::MAX {
            self.next_id + 1
        } else {
            u64::MAX
        };
        self.objects.push(DesignObject { id, geometry });
        id
    }

    /// Removes every object with identity `id`; says whether one was there.
    /// Identities still to be handed out are not affected.
    pub fn remove_object(&mut self, id: DesignObjectId) -> (r: bool)
        ensures
            final(self)@ == without(old(self)@, id@),
            final(self).next_id() == old(self).next_id(),
            r == has_id(old(self)@, id@),
            old(self).wf() ==> final(self).wf(),
    {
        let ghost s = self.objects@;
        let ghost pred = other_than::<G>(id@);
        let n = self.objects.len();
        let mut k: usize = 0;
        let mut i: usize = 0;
        let mut found = false;
        while k < n
            invariant
                n == s.len(),
                0 <= i <= k <= n,
                pred == other_than::<G>(id@),
                s == old(self)@,
                self.next_id == old(self).next_id(),
                self.objects@ == s.subrange(0, k as int).filter(pred) + s.subrange(k as int, n as int),
                i == s.subrange(0, k as int).filter(pred).len(),
                found == has_id(s.subrange(0, k as int), id@),
            decreases n - k,
        {
            proof {
                let a = s.subrange(0, k as int);
                let b = s.subrange(k as int, n as int);
                assert(self.objects@[i as int] == s[k as int]);
                assert(s.subrange(0, k + 1) =~= a.push(s[k as int]));
                assert(a.push(s[k as int]) =~= a + seq![s[k as int]]);
                Seq::filter_distributes_over_add(a, seq![s[k as int]], pred);
                reveal_with_fuel(Seq::filter, 2);
                assert(seq![s[k as int]].drop_last() =~= Seq::<DesignObject<G>>::empty());
            }
            if self.objects[i].id.0 == id.0 {
                self.objects.remove(i);
                found = true;
                proof {
                    let a = s.subrange(0, k as int);
                    assert(seq![s[k as int]].filter(pred) =~= Seq::<DesignObject<G>>::empty());
                    assert(self.objects@ =~= s.subrange(0, k + 1).filter(pred) + s.subrange(k + 1, n as int));
                    assert(s.subrange(0, k + 1)[k as int].id@ == id@);
                }
            } else {
                proof {
                    let a = s.subrange(0, k as int);
                    assert(seq![s[k as int]].filter(pred) =~= seq![s[k as int]]);
                    assert(self.objects@ =~= s.subrange(0, k + 1).filter(pred) + s.subrange(k + 1, n as int));
                    assert(found == has_id(s.subrange(0, k + 1), id@)) by {
                        if has_id(s.subrange(0, k + 1), id@) {
                            let w = choose|w: int| 0 <= w < k + 1 && #[trigger] s.subrange(0, k + 1)[w].id@ == id@;
                            assert(s.subrange(0, k as int)[w] == s.subrange(0, k + 1)[w]);
                        }
                        if found {
                            let w = choose|w: int| 0 <= w < k && #[trigger] s.subrange(0, k as int)[w].id@ == id@;
                            assert(s.subrange(0, k as int)[w] == s.subrange(0, k + 1)[w]);
                        }
                    }
                }
                i = i + 1;
            }
            k = k + 1;
        }
        proof {
            assert(s.subrange(0, n as int) =~= s);
            assert(s.subrange(n as int, n as int) =~= Seq::<DesignObject<G>>::empty());
            assert(self.objects@ =~= without(s, id@));
            if old(self).wf() {
                lemma_without_below(s, id@, self.next_id);
            }
        }
        found
    }

    /// Replaces the geometry of the object with identity `id`, keeping its
    /// identity; fails when there is no such object, leaving the document as it was.
    pub fn update_object(&mut self, id: DesignObjectId, geometry: G) -> (r: Result<(), DesignError>)
        ensures
            final(self).next_id() == old(self).next_id(),
            match r {
                Ok(()) => has_id(old(self)@, id@) && final(self)@ == old(self)@.update(
                    choose|i: int| is_first(old(self)@, id@, i),
                    (DesignObject { id, geometry }),
                ),
                Err(e) => !has_id(old(self)@, id@) && e == DesignError::ObjectNotFound(id@)
                    && final(self)@ == old(self)@,
            },
            old(self).wf() ==> final(self).wf(),
    {
        let n = self.objects.len();
        let mut i: usize = 0;
        while i < n
            invariant
                n == self.objects@.len(),
                self.objects@ == old(self)@,
                self.next_id == old(self).next_id(),
                0 <= i <= n,
                forall|j: int| 0 <= j < i ==> #[trigger] self.objects@[j].id@ != id@,
            decreases n - i,
        {
            if self.objects[i].id.0 == id.0 {
                proof {
                    lemma_first_unique(self.objects@, id@, i as int);
                }
                self.objects.set(i, DesignObject { id, geometry });
                proof {
                    assert forall|j: int| 0 <= j < self.objects@.len() implies (#[trigger] self.objects@[j]).id@
                        == old(self)@[j].id@ by {}
                }
                return Ok(());
            }
            i = i + 1;
        }
        Err(DesignError::ObjectNotFound(id.0))
    }
}

impl<G> Default for VectorDocument<G> {
    fn default() -> (r: Self)
        ensures
            r@ == Seq::<DesignObject<G>>::empty(),
            r.next_id() == 1,
    {
        VectorDocument { objects: Vec::new(), next_id: 1 }
    }
}

/// When `i` is a first position of `id`, it is the one `lookup` picks.
proof fn lemma_first_unique<G>(s: Seq<DesignObject<G>>, id: u64, i: int)
    requires
        is_first(s, id, i),
    ensures
        has_id(s, id),
        (choose|k: int| is_first(s, id, k)) == i,
        lookup(s, id) == Some(s[i]),
{
    let k = choose|k: int| is_first(s, id, k);
    assert(is_first(s, id, k));
    if k < i {
        assert(s[k].id@ != id);
    } else if k > i {
        assert(s[i].id@ != id);
    }
}

/// Whenever `id` occurs in `s`, it has a first position.
proof fn lemma_first_exists<G>(s: Seq<DesignObject<G>>, id: u64)
    requires
        has_id(s, id),
    ensures
        exists|i: int| is_first(s, id, i),
    decreases s.len(),
{
    let d = s.drop_last();
    if has_id(d, id) {
        lemma_first_exists(d, id);
        let i = choose|i: int| is_first(d, id, i);
        assert forall|j: int| 0 <= j < i implies #[trigger] s[j].id@ != id by {
            assert(s[j] == d[j]);
        }
        assert(s[i] == d[i]);
        assert(is_first(s, id, i));
    } else {
        let w = choose|w: int| 0 <= w < s.len() && #[trigger] s[w].id@ == id;
        assert forall|j: int| 0 <= j < s.len() - 1 implies #[trigger] s[j].id@ != id by {
            assert(s[j] == d[j]);
        }
        assert(is_first(s, id, s.len() - 1));
    }
}

/// Looking up in `s` with `x` appended finds what `s` holds first, and `x` only
/// when `s` holds nothing under that identity.
proof fn lemma_lookup_push<G>(s: Seq<DesignObject<G>>, x: DesignObject<G>, id: u64)
    ensures
        lookup(s.push(x), id) == (if has_id(s, id) {
            lookup(s, id)
        } else if x.id@ == id {
            Some(x)
        } else {
            None
        }),
{
    let t = s.push(x);
    if has_id(s, id) {
        lemma_first_exists(s, id);
        let i = choose|i: int| is_first(s, id, i);
        lemma_first_unique(s, id, i);
        assert forall|j: int| 0 <= j < i implies #[trigger] t[j].id@ != id by {
            assert(t[j] == s[j]);
        }
        assert(t[i] == s[i]);
        lemma_first_unique(t, id, i);
    } else if x.id@ == id {
        assert forall|j: int| 0 <= j < s.len() implies #[trigger] t[j].id@ != id by {
            assert(t[j] == s[j]);
            if s[j].id@ == id {
                assert(has_id(s, id));
            }
        }
        lemma_first_unique(t, id, s.len() as int);
    } else {
        if has_id(t, id) {
            let w = choose|w: int| 0 <= w < t.len() && #[trigger] t[w].id@ == id;
            if w < s.len() {
                assert(t[w] == s[w]);
                assert(has_id(s, id));
            }
        }
    }
}

/// Removing objects keeps every remaining identity handed out before `next`.
proof fn lemma_without_below<G>(s: Seq<DesignObject<G>>, id: u64, next: u64)
    requires
        ids_below(s, next),
    ensures
        ids_below(without(s, id), next),
{
    let pred = other_than::<G>(id);
    let f = s.filter(pred);
    if next != u64::MAX {
        assert forall|i: int| 0 <= i < f.len() implies #[trigger] f[i].id@ < next by {
            assert(f.contains(f[i]));
            s.lemma_filter_contains_rev(pred, f[i]);
        }
    }
}

/// An object added under the next identity is found under it, and every other
/// identity finds what it found before.
pub proof fn law_added_object_is_found<G>(
    s: Seq<DesignObject<G>>,
    next: u64,
    x: DesignObject<G>,
    other: u64,
)
    requires
        ids_below(s, next),
        next < u64::MAX,
        x.id@ == next,
    ensures
        lookup(s.push(x), next) == Some(x),
        other != next ==> lookup(s.push(x), other) == lookup(s, other),
{
    lemma_lookup_push(s, x, next);
    lemma_lookup_push(s, x, other);
    if has_id(s, next) {
        let w = choose|w: int| 0 <= w < s.len() && #[trigger] s[w].id@ == next;
        assert(s[w].id@ < next);
    }
}

/// After removing an identity nothing is found under it, and every other
/// identity finds what it found before.
pub proof fn law_removed_object_is_gone<G>(s: Seq<DesignObject<G>>, id: u64, other: u64)
    ensures
        lookup(without(s, id), id) is None,
        other != id ==> lookup(without(s, id), other) == lookup(s, other),
    decreases s.len(),
{
    reveal(Seq::filter);
    if s.len() == 0 {
        assert(without(s, id) =~= s);
    } else {
        let d = s.drop_last();
        let x = s.last();
        law_removed_object_is_gone(d, id, other);
        assert(s =~= d.push(x));
        lemma_lookup_push(d, x, other);
        if other_than::<G>(id)(x) {
            assert(without(s, id) == without(d, id).push(x));
            lemma_lookup_push(without(d, id), x, other);
            lemma_lookup_push(without(d, id), x, id);
        } else {
            assert(without(s, id) == without(d, id));
        }
    }
}

/// Replacing the geometry under an identity keeps that identity: it then finds
/// the new object, and every other identity finds what it found before.
pub proof fn law_update_keeps_identity<G>(
    s: Seq<DesignObject<G>>,
    id: u64,
    x: DesignObject<G>,
    other: u64,
)
    requires
        has_id(s, id),
        x.id@ == id,
    ensures
        lookup(s.update(choose|i: int| is_first(s, id, i), x), id) == Some(x),
        other != id ==> lookup(s.update(choose|i: int| is_first(s, id, i), x), other) == lookup(
            s,
            other,
        ),
{
    lemma_first_exists(s, id);
    let f = choose|i: int| is_first(s, id, i);
    let t = s.update(f, x);
    assert forall|j: int| 0 <= j < t.len() implies (#[trigger] t[j]).id@ == s[j].id@ by {}
    assert(is_first(t, id, f)) by {
        assert forall|j: int| 0 <= j < f implies #[trigger] t[j].id@ != id by {
            assert(t[j].id@ == s[j].id@);
        }
    }
    lemma_first_unique(t, id, f);
    if other != id {
        if has_id(s, other) {
            lemma_first_exists(s, other);
            let k = choose|i: int| is_first(s, other, i);
            lemma_first_unique(s, other, k);
            assert(is_first(t, other, k)) by {
                assert(t[k].id@ == s[k].id@);
                assert forall|j: int| 0 <= j < k implies #[trigger] t[j].id@ != other by {
                    assert(t[j].id@ == s[j].id@);
                }
            }
            lemma_first_unique(t, other, k);
        } else if has_id(t, other) {
            let w = choose|w: int| 0 <= w < t.len() && #[trigger] t[w].id@ == other;
            assert(t[w].id@ == s[w].id@);
        }
    }
}

} // verus!
