use vstd::prelude::*;

verus! {

/// The model of an `IdAlloc`: a table from names to ids, in allocation
/// order, and the counter the last fresh id was drawn from.
#[verifier::ext_equal]
pub struct IaView {
    pub names: Seq<Seq<char>>,
    pub ids: Seq<u64>,
    pub counter: u64,
}

impl IaView {
    /// The table has an entry for name `n`.
    pub open spec fn has_name(self, n: Seq<char>) -> bool {
        exists|i: int| 0 <= i < self.names.len() && #[trigger] self.names[i] == n
    }

    /// The id recorded for name `n` (meaningful when `has_name`).
    pub open spec fn lookup(self, n: Seq<char>) -> u64 {
        let i = choose|i: int| 0 <= i < self.names.len() && #[trigger] self.names[i] == n;
        self.ids[i]
    }

    /// What allocating for name `n` yields: the allocator afterwards and the
    /// id handed out.  A known name returns its recorded id; an unknown name
    /// draws the next counter value; a saturated counter hands out
    /// `u64::MAX` without recording anything.
    pub open spec fn alloc_model(self, n: Seq<char>) -> (IaView, u64) {
        if self.has_name(n) {
            (self, self.lookup(n))
        } else if self.counter < u64::MAX {
            let c = (self.counter + 1) as u64;
            (IaView { names: self.names.push(n), ids: self.ids.push(c), counter: c }, c)
        } else {
            (self, u64::MAX)
        }
    }
}

/// Allocates variable identifiers during parsing, keyed by variable name.
///
/// Within one clause, repeated occurrences of the same name share one id and
/// distinct names get distinct ids.  `new_clause` forgets the name table but
/// keeps the counter, so ids never recur across clauses.  The counter
/// saturates at `u64::MAX` instead of wrapping; past that point fresh ids are
/// no longer distinct, which `wf` records by never entering that state in the
/// table.
pub struct IdAlloc {
    pub names: Vec<String>,
    pub ids: Vec<u64>,
    pub counter: u64,
}

impl View for IdAlloc {
    type V = IaView;

    open spec fn view(&self) -> IaView {
        IaView {
            names: Seq::new(self.names@.len(), |i: int| self.names@[i]@),
            ids: self.ids@,
            counter: self.counter,
        }
    }
}

impl IdAlloc {
    /// How many names the current clause has allocated.
    pub open spec fn table_len(self) -> nat {
        self.names@.len()
    }

    /// The current counter: the largest id handed out so far (or the seed).
    pub open spec fn counter_spec(self) -> u64 {
        self.counter
    }

    /// The name stored at slot `i` of the current clause's table.
    pub open spec fn name_at(self, i: int) -> Seq<char> {
        self.names@[i]@
    }

    /// The id stored at slot `i` of the current clause's table.
    pub open spec fn id_at(self, i: int) -> u64 {
        self.ids@[i]
    }

    /// Well-formedness: the table is a map from distinct names to the ids
    /// `counter - len + 1 ..= counter`, in allocation order.
    pub open spec fn wf(self) -> bool {
        &&& self.ids@.len() == self.names@.len()
        &&& forall|i: int, j: int|
            0 <= i < j < self.table_len() ==> self.name_at(i) != self.name_at(j)
        &&& forall|i: int|
            0 <= i < self.table_len() ==> #[trigger] self.id_at(i) == self.counter_spec()
                - self.table_len() + 1 + i
    }

    /// The current clause's table maps name `n` to id `id`.
    pub open spec fn maps(self, n: Seq<char>, id: u64) -> bool {
        exists|i: int|
            0 <= i < self.table_len() && self.name_at(i) == n && #[trigger] self.id_at(i) == id
    }

    /// The current clause's table has an entry for name `n`.
    pub open spec fn has_name(self, n: Seq<char>) -> bool {
        exists|i: int| 0 <= i < self.table_len() && #[trigger] self.name_at(i) == n
    }

    /// The id the next fresh allocation would get.
    pub open spec fn peek_spec(self) -> u64 {
        if self.counter == u64::MAX {
            u64::MAX
        } else {
            (self.counter + 1) as u64
        }
    }

    /// A fresh allocator whose counter starts at `i`.
    pub fn new(i: u64) -> (r: IdAlloc)
        ensures
            r.wf(),
            r.table_len() == 0,
            r.counter_spec() == i,
    {
        IdAlloc { names: Vec::new(), ids: Vec::new(), counter: i }
    }

    /// The id mapped to name `s`, allocating a fresh one on first sight.
    ///
    /// A fresh id is strictly greater than every id the allocator has handed
    /// out before (as long as the counter has not saturated).
    pub fn allocate(&mut self, s: &str) -> (r: u64)
        requires
            old(self).wf(),
        ensures
            final(self).wf(),
            final(self).counter_spec() >= old(self).counter_spec(),
            final(self).maps(s@, r) || (r == u64::MAX && old(self).counter_spec() == u64::MAX),
            old(self).has_name(s@) ==> *final(self) == *old(self) && old(self).maps(s@, r),
            !old(self).has_name(s@) && old(self).counter_spec() < u64::MAX ==> {
                &&& final(self).counter_spec() == old(self).counter_spec() + 1
                &&& r == final(self).counter_spec()
                &&& final(self).table_len() == old(self).table_len() + 1
                &&& final(self).name_at(old(self).table_len() as int) == s@
                &&& forall|i: int|
                    0 <= i < old(self).table_len() ==> final(self).name_at(i) == old(
                        self,
                    ).name_at(i) && final(self).id_at(i) == old(self).id_at(i)
            },
            !old(self).has_name(s@) && old(self).counter_spec() == u64::MAX ==> *final(self)
                == *old(self) && r == u64::MAX,
            r <= final(self).counter_spec(),
            forall|n: Seq<char>, i2: u64|
                old(self).maps(n, i2) ==> final(self).maps(n, i2),
            final(self).counter_spec() - final(self).table_len() == old(self).counter_spec()
                - old(self).table_len(),
            final(self)@ == old(self)@.alloc_model(s@).0,
            r == old(self)@.alloc_model(s@).1,
    {
        let owned = s.to_owned();
        let mut k: usize = 0;
        while k < self.names.len()
            invariant
                k <= self.names@.len(),
                self.ids@.len() == self.names@.len(),
                forall|i: int| 0 <= i < k ==> self.names@[i]@ != s@,
                *self == *old(self),
                owned@ == s@,
            decreases self.names@.len() - k,
        {
            if self.names[k] == owned {
                proof {
                    assert(self.name_at(k as int) == s@);
                    assert(self.id_at(k as int) == self.ids@[k as int]);
                    assert(self.maps(s@, self.ids@[k as int]));
                    let ia = self@;
                    assert(ia.names[k as int] == s@);
                    assert(ia.has_name(s@));
                    let j = choose|j: int| 0 <= j < ia.names.len() && #[trigger] ia.names[j] == s@;
                    if j != k as int {
                        assert(self.name_at(j) == self.name_at(k as int));
                    }
                    assert(ia.lookup(s@) == ia.ids[k as int]);
                }
                return self.ids[k];
            }
            k = k + 1;
        }
        if self.counter < u64::MAX {
            let c: u64 = self.counter + 1;
            self.counter = c;
            self.names.push(owned);
            self.ids.push(c);
            proof {
                let l = old(self).table_len() as int;
                assert(self.name_at(l) == s@);
                assert(self.id_at(l) == c);
                assert forall|i: int, j: int|
                    0 <= i < j < self.table_len() implies self.name_at(i) != self.name_at(j) by {
                    if j < l {
                        assert(self.name_at(i) == old(self).name_at(i));
                        assert(self.name_at(j) == old(self).name_at(j));
                    } else {
                        assert(self.name_at(i) == old(self).name_at(i));
                        assert(old(self).name_at(i) != s@);
                    }
                }
                assert forall|i: int|
                    0 <= i < self.table_len() implies #[trigger] self.id_at(i)
                        == self.counter_spec() - self.table_len() + 1 + i by {
                    if i < l {
                        assert(self.id_at(i) == old(self).id_at(i));
                    }
                }
                assert(self.maps(s@, c));
                assert(!old(self)@.has_name(s@)) by {
                    if old(self)@.has_name(s@) {
                        let j = choose|j: int|
                            0 <= j < old(self)@.names.len() && #[trigger] old(self)@.names[j]
                                == s@;
                        assert(old(self).name_at(j) == s@);
                    }
                }
                assert(self@ =~= old(self)@.alloc_model(s@).0);
                assert forall|n: Seq<char>, i2: u64| old(self).maps(n, i2) implies self.maps(
                    n,
                    i2,
                ) by {
                    let j = choose|j: int|
                        0 <= j < old(self).table_len() && old(self).name_at(j) == n && #[trigger] old(
                            self,
                        ).id_at(j) == i2;
                    assert(self.name_at(j) == n);
                    assert(self.id_at(j) == i2);
                }
            }
            c
        } else {
            u64::MAX
        }
    }

    /// Forget the name table, keeping the counter: the next clause's variable
    /// ids will not collide with any clause already read.
    pub fn new_clause(&mut self)
        ensures
            final(self).wf(),
            final(self).table_len() == 0,
            final(self).counter_spec() == old(self).counter_spec(),
    {
        self.names.clear();
        self.ids.clear();
    }

    /// An id the table maps a name to lies in the table's id range.
    pub proof fn lemma_maps_id_range(self, n: Seq<char>, id: u64)
        requires
            self.wf(),
            self.maps(n, id),
        ensures
            self.counter_spec() - self.table_len() < id <= self.counter_spec(),
    {
        let j = choose|i: int|
            0 <= i < self.table_len() && self.name_at(i) == n && #[trigger] self.id_at(i) == id;
        assert(self.id_at(j) == self.counter_spec() - self.table_len() + 1 + j);
    }

    /// The table maps each name to one id and each id to one name: two
    /// entries agree on the name exactly when they agree on the id.
    pub proof fn lemma_maps_functional(self, n1: Seq<char>, i1: u64, n2: Seq<char>, i2: u64)
        requires
            self.wf(),
            self.maps(n1, i1),
            self.maps(n2, i2),
        ensures
            (n1 == n2) <==> (i1 == i2),
    {
        let j1 = choose|i: int|
            0 <= i < self.table_len() && self.name_at(i) == n1 && #[trigger] self.id_at(i) == i1;
        let j2 = choose|i: int|
            0 <= i < self.table_len() && self.name_at(i) == n2 && #[trigger] self.id_at(i) == i2;
        assert(self.id_at(j1) == self.counter_spec() - self.table_len() + 1 + j1);
        assert(self.id_at(j2) == self.counter_spec() - self.table_len() + 1 + j2);
        if n1 == n2 {
            if j1 != j2 {
                assert(self.name_at(j1) != self.name_at(j2));
            }
        }
        if i1 == i2 {
            assert(j1 == j2);
        }
    }

    /// The id the next fresh allocation would get, without allocating.
    pub fn get_next(&self) -> (r: u64)
        ensures
            r == self.peek_spec(),
    {
        if self.counter == u64::MAX {
            u64::MAX
        } else {
            self.counter + 1
        }
    }
}

/// The model of a `FreshAlloc`: a table from old ids to fresh ids, in
/// allocation order, and the counter the last fresh id was drawn from.
#[verifier::ext_equal]
pub struct FaView {
    pub keys: Seq<u64>,
    pub ids: Seq<u64>,
    pub counter: u64,
}

impl FaView {
    /// Well-formedness: the table is a map from distinct old ids to the ids
    /// `counter - len + 1 ..= counter`, in allocation order.
    pub open spec fn wf(self) -> bool {
        &&& self.ids.len() == self.keys.len()
        &&& forall|i: int, j: int|
            0 <= i < j < self.keys.len() ==> self.keys[i] != self.keys[j]
        &&& forall|i: int|
            0 <= i < self.keys.len() ==> #[trigger] self.ids[i] == self.counter - self.keys.len()
                + 1 + i
    }

    /// The table has an entry for old id `k`.
    pub open spec fn has_key(self, k: u64) -> bool {
        exists|i: int| 0 <= i < self.keys.len() && #[trigger] self.keys[i] == k
    }

    /// The fresh id recorded for old id `k` (meaningful when `has_key`).
    pub open spec fn lookup(self, k: u64) -> u64 {
        let i = choose|i: int| 0 <= i < self.keys.len() && #[trigger] self.keys[i] == k;
        self.ids[i]
    }

    /// What allocating for old id `k` yields: the allocator afterwards and
    /// the id handed out.  A known key returns its recorded id; an unknown
    /// key draws the next counter value; a saturated counter hands out
    /// `u64::MAX` without recording anything.
    pub open spec fn alloc_model(self, k: u64) -> (FaView, u64) {
        if self.has_key(k) {
            (self, self.lookup(k))
        } else if self.counter < u64::MAX {
            let c = (self.counter + 1) as u64;
            (FaView { keys: self.keys.push(k), ids: self.ids.push(c), counter: c }, c)
        } else {
            (self, u64::MAX)
        }
    }
}

impl FaView {
    /// The seed the allocator was created with: every id it hands out lies
    /// strictly above it (until the counter saturates), and it never moves.
    pub open spec fn base(self) -> int {
        self.counter - self.keys.len()
    }

    /// Allocation preserves well-formedness and the seed, never lowers the
    /// counter, and hands out an id strictly above the seed and at most the
    /// counter — or `u64::MAX` once the counter is exhausted.
    pub proof fn lemma_alloc_model_range(self, k: u64)
        requires
            self.wf(),
        ensures
            ({
                let a = self.alloc_model(k);
                &&& a.0.wf()
                &&& a.0.base() == self.base()
                &&& a.0.counter >= self.counter
                &&& (self.base() < a.1 <= a.0.counter) || a.1 == u64::MAX
            }),
    {
        let a = self.alloc_model(k);
        if self.has_key(k) {
            let j = choose|j: int| 0 <= j < self.keys.len() && #[trigger] self.keys[j] == k;
            assert(self.ids[j] == self.counter - self.keys.len() + 1 + j);
            assert(a.1 == self.ids[j]);
        } else if self.counter < u64::MAX {
            let f1 = a.0;
            assert forall|i: int, j: int|
                0 <= i < j < f1.keys.len() implies f1.keys[i] != f1.keys[j] by {
                if j < self.keys.len() {
                    assert(f1.keys[i] == self.keys[i]);
                    assert(f1.keys[j] == self.keys[j]);
                } else {
                    assert(f1.keys[i] == self.keys[i]);
                    assert(self.keys[i] != k) by {
                        if self.keys[i] == k {
                            assert(self.has_key(k));
                        }
                    }
                }
            }
            assert forall|i: int|
                0 <= i < f1.keys.len() implies #[trigger] f1.ids[i] == f1.counter - f1.keys.len()
                    + 1 + i by {
                if i < self.keys.len() {
                    assert(f1.ids[i] == self.ids[i]);
                }
            }
        }
    }
}

/// Allocates fresh variable identifiers during clause activation, keyed by
/// the variable id being replaced.
///
/// One activation maps every occurrence of one old id to one fresh id, and
/// distinct old ids to distinct fresh ids, all strictly above the seed the
/// allocator was created with.
pub struct FreshAlloc {
    pub keys: Vec<u64>,
    pub ids: Vec<u64>,
    pub counter: u64,
}

impl View for FreshAlloc {
    type V = FaView;

    open spec fn view(&self) -> FaView {
        FaView { keys: self.keys@, ids: self.ids@, counter: self.counter }
    }
}

impl FreshAlloc {
    /// A fresh allocator whose counter starts at `i`.
    pub fn new(i: u64) -> (r: FreshAlloc)
        ensures
            r@.wf(),
            r@.keys.len() == 0,
            r@.counter == i,
    {
        FreshAlloc { keys: Vec::new(), ids: Vec::new(), counter: i }
    }

    /// The fresh id mapped to old id `k`, allocating one on first sight, as
    /// `FaView::alloc_model` states.
    pub fn allocate(&mut self, k: u64) -> (r: u64)
        requires
            old(self)@.wf(),
        ensures
            final(self)@.wf(),
            final(self)@ == old(self)@.alloc_model(k).0,
            r == old(self)@.alloc_model(k).1,
    {
        let mut i: usize = 0;
        while i < self.keys.len()
            invariant
                i <= self.keys@.len(),
                self.ids@.len() == self.keys@.len(),
                forall|j: int| 0 <= j < i ==> self.keys@[j] != k,
                *self == *old(self),
            decreases self.keys@.len() - i,
        {
            if self.keys[i] == k {
                proof {
                    let fa = self@;
                    assert(fa.keys[i as int] == k);
                    assert(fa.has_key(k));
                    let j = choose|j: int| 0 <= j < fa.keys.len() && #[trigger] fa.keys[j] == k;
                    assert(j == i as int);
                    assert(fa.lookup(k) == fa.ids[i as int]);
                }
                return self.ids[i];
            }
            i = i + 1;
        }
        proof {
            assert(!self@.has_key(k));
        }
        if self.counter < u64::MAX {
            let c: u64 = self.counter + 1;
            self.counter = c;
            self.keys.push(k);
            self.ids.push(c);
            proof {
                let fa0 = old(self)@;
                let fa1 = self@;
                assert(fa1 =~= fa0.alloc_model(k).0);
                assert forall|i: int, j: int|
                    0 <= i < j < fa1.keys.len() implies fa1.keys[i] != fa1.keys[j] by {
                    if j < fa0.keys.len() {
                        assert(fa1.keys[i] == fa0.keys[i]);
                        assert(fa1.keys[j] == fa0.keys[j]);
                    } else {
                        assert(fa1.keys[i] == fa0.keys[i]);
                        assert(fa0.keys[i] != k);
                    }
                }
                assert forall|i: int|
                    0 <= i < fa1.keys.len() implies #[trigger] fa1.ids[i] == fa1.counter
                        - fa1.keys.len() + 1 + i by {
                    if i < fa0.keys.len() {
                        assert(fa1.ids[i] == fa0.ids[i]);
                    }
                }
            }
            c
        } else {
            u64::MAX
        }
    }
}

} // verus!
