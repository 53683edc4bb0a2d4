//! The persistent admin registry: a mapping from identity to join-time, kept
//! as a vector of records sorted in ascending order of the identity's
//! comparison key.  Sortedness is strict, so a given identity appears at most
//! once: re-adding an identity overwrites its join-time and never creates a
//! second entry.

use vstd::prelude::*;
use crate::order::{
    id_key, lex_lt, id_lt, lemma_lex_lt_total, lemma_lex_lt_irreflexive, lemma_lex_lt_transitive,
    lemma_id_key_injective,
};

verus! {

/// One registry entry: a validated identity and the logical time it last
/// joined.
#[derive(Clone, Debug, PartialEq, Eq)]
pub struct AdminRecord {
    pub addr: String,
    pub joined: u64,
}

/// The entries are in strictly ascending key order.
pub open spec fn sorted(s: Seq<AdminRecord>) -> bool {
    forall|i: int, j: int|
        #![trigger s[i], s[j]]
        0 <= i < j < s.len() ==> lex_lt(id_key(s[i].addr@), id_key(s[j].addr@))
}

/// Some entry carries the identity `a`.
pub open spec fn has_addr(s: Seq<AdminRecord>, a: Seq<char>) -> bool {
    exists|i: int| 0 <= i < s.len() && s[i].addr@ == a
}

/// The position of the entry carrying `a` (meaningful when `has_addr` holds).
pub open spec fn index_of(s: Seq<AdminRecord>, a: Seq<char>) -> int {
    choose|i: int| 0 <= i < s.len() && s[i].addr@ == a
}

/// The join-time recorded for `a` (meaningful when `has_addr` holds).
pub open spec fn time_of(s: Seq<AdminRecord>, a: Seq<char>) -> u64 {
    s[index_of(s, a)].joined
}

/// In a sorted sequence no identity appears twice.  This is the invariant
/// that keeps one identity from drawing more than one donation share.
pub proof fn lemma_sorted_distinct(s: Seq<AdminRecord>, i: int, j: int)
    requires
        sorted(s),
        0 <= i < s.len(),
        0 <= j < s.len(),
        i != j,
    ensures
        s[i].addr@ != s[j].addr@,
{
    if s[i].addr@ == s[j].addr@ {
        lemma_lex_lt_irreflexive(id_key(s[i].addr@));
        assert(false);
    }
}

/// In a sorted sequence, `index_of` is the one position that carries `a`.
pub proof fn lemma_index_of(s: Seq<AdminRecord>, a: Seq<char>)
    requires
        sorted(s),
        has_addr(s, a),
    ensures
        0 <= index_of(s, a) < s.len(),
        s[index_of(s, a)].addr@ == a,
        forall|i: int| 0 <= i < s.len() && s[i].addr@ == a ==> i == index_of(s, a),
{
    let w = index_of(s, a);
    assert(0 <= w < s.len() && s[w].addr@ == a);
    assert forall|i: int| 0 <= i < s.len() && s[i].addr@ == a implies i == w by {
        if i != w {
            lemma_sorted_distinct(s, i, w);
        }
    }
}

/// Whether a record joined strictly after `t`.
pub open spec fn joined_after(t: u64) -> spec_fn(AdminRecord) -> bool {
    |rec: AdminRecord| rec.joined > t
}

/// The identities of the records whose join-time is strictly greater than
/// `t`, in registry order.
pub open spec fn keys_after(s: Seq<AdminRecord>, t: u64) -> Seq<Seq<char>> {
    s.filter(joined_after(t)).map_values(|rec: AdminRecord| rec.addr@)
}

/// Every element a filter keeps occurs in the sequence it was taken from.
pub proof fn lemma_filter_subset<A>(s: Seq<A>, pred: spec_fn(A) -> bool)
    ensures
        forall|i: int| 0 <= i < s.filter(pred).len() ==> s.contains(#[trigger] s.filter(pred)[i]),
    decreases s.len(),
{
    reveal(Seq::filter);
    if s.len() != 0 {
        let prefix = s.drop_last();
        lemma_filter_subset(prefix, pred);
        assert forall|i: int| 0 <= i < s.filter(pred).len() implies s.contains(
            #[trigger] s.filter(pred)[i],
        ) by {
            if i < prefix.filter(pred).len() {
                let x = prefix.filter(pred)[i];
                assert(prefix.contains(x));
                let j = choose|j: int| 0 <= j < prefix.len() && prefix[j] == x;
                assert(s[j] == x);
            } else {
                assert(s.filter(pred)[i] == s.last());
                assert(s[s.len() - 1] == s.last());
            }
        }
    }
}

/// A filtered sorted registry is still sorted.
pub proof fn lemma_filter_keeps_sorted(s: Seq<AdminRecord>, t: u64)
    requires
        sorted(s),
    ensures
        sorted(s.filter(joined_after(t))),
    decreases s.len(),
{
    reveal(Seq::filter);
    if s.len() != 0 {
        let prefix = s.drop_last();
        assert(sorted(prefix)) by {
            assert forall|i: int, j: int|
                #![trigger prefix[i], prefix[j]]
                0 <= i < j < prefix.len() implies lex_lt(
                id_key(prefix[i].addr@),
                id_key(prefix[j].addr@),
            ) by {
                assert(prefix[i] == s[i]);
                assert(prefix[j] == s[j]);
            }
        }
        lemma_filter_keeps_sorted(prefix, t);
        let fp = prefix.filter(joined_after(t));
        let f = s.filter(joined_after(t));
        if joined_after(t)(s.last()) {
            assert(f == fp.push(s.last()));
            lemma_filter_subset(prefix, joined_after(t));
            assert forall|p: int, q: int|
                #![trigger f[p], f[q]]
                0 <= p < q < f.len() implies lex_lt(id_key(f[p].addr@), id_key(f[q].addr@)) by {
                if q < fp.len() {
                    assert(f[p] == fp[p]);
                    assert(f[q] == fp[q]);
                } else {
                    assert(f[q] == s.last());
                    assert(f[p] == fp[p]);
                    assert(prefix.contains(fp[p]));
                    let j = choose|j: int| 0 <= j < prefix.len() && prefix[j] == fp[p];
                    assert(s[j] == fp[p]);
                    assert(s[s.len() - 1] == s.last());
                }
            }
        } else {
            assert(f == fp);
        }
    }
}

/// The durable identity-to-join-time mapping.
pub struct Registry {
    entries: Vec<AdminRecord>,
}

impl View for Registry {
    type V = Seq<AdminRecord>;

    closed spec fn view(&self) -> Seq<AdminRecord> {
        self.entries@
    }
}

impl Registry {
    /// The structural invariant every operation preserves.
    pub open spec fn well_formed(&self) -> bool {
        sorted(self@)
    }

    /// An empty registry.
    pub fn new() -> (r: Registry)
        ensures
            r@ == Seq::<AdminRecord>::empty(),
            r.well_formed(),
    {
        Registry { entries: Vec::new() }
    }

    /// How many admins are registered.
    pub fn count(&self) -> (n: usize)
        ensures
            n == self@.len(),
    {
        self.entries.len()
    }

    /// The position of the first entry whose key is not below `addr`'s.
    fn locate(&self, addr: &String) -> (i: usize)
        requires
            self.well_formed(),
        ensures
            i <= self@.len(),
            forall|j: int| 0 <= j < i ==> lex_lt(id_key(#[trigger] self@[j].addr@), id_key(addr@)),
            i < self@.len() ==> !lex_lt(id_key(self@[i as int].addr@), id_key(addr@)),
    {
        let n = self.entries.len();
        let mut i: usize = 0;
        while i < n
            invariant
                i <= n,
                n == self@.len(),
                forall|j: int| 0 <= j < i ==> lex_lt(id_key(#[trigger] self@[j].addr@), id_key(addr@)),
            decreases n - i,
        {
            if !id_lt(self.entries[i].addr.as_str(), addr.as_str()) {
                return i;
            }
            i += 1;
        }
        i
    }

    /// Whether `addr` is currently registered.
    pub fn contains(&self, addr: &String) -> (r: bool)
        requires
            self.well_formed(),
        ensures
            r == has_addr(self@, addr@),
    {
        let n = self.entries.len();
        let mut i: usize = 0;
        while i < n
            invariant
                i <= n,
                n == self@.len(),
                forall|j: int| 0 <= j < i ==> #[trigger] self@[j].addr@ != addr@,
            decreases n - i,
        {
            if self.entries[i].addr == *addr {
                return true;
            }
            i += 1;
        }
        false
    }

    /// The join-time recorded for `addr`, if it is registered.
    pub fn get(&self, addr: &String) -> (r: Option<u64>)
        requires
            self.well_formed(),
        ensures
            match r {
                Some(t) => has_addr(self@, addr@) && t == time_of(self@, addr@),
                None => !has_addr(self@, addr@),
            },
    {
        let n = self.entries.len();
        let mut i: usize = 0;
        while i < n
            invariant
                i <= n,
                n == self@.len(),
                self.well_formed(),
                forall|j: int| 0 <= j < i ==> #[trigger] self@[j].addr@ != addr@,
            decreases n - i,
        {
            if self.entries[i].addr == *addr {
                proof {
                    assert(self@[i as int].addr@ == addr@);
                    lemma_index_of(self@, addr@);
                }
                return Some(self.entries[i].joined);
            }
            i += 1;
        }
        None
    }

    /// Upsert: record that `addr` joined at `joined`.  An identity already
    /// present keeps its single entry and takes the new join-time; everything
    /// else is untouched.
    pub fn put(&mut self, addr: String, joined: u64)
        requires
            old(self).well_formed(),
        ensures
            final(self).well_formed(),
            has_addr(final(self)@, addr@),
            time_of(final(self)@, addr@) == joined,
            forall|b: Seq<char>|
                b != addr@ ==> has_addr(final(self)@, b) == has_addr(old(self)@, b),
            forall|b: Seq<char>|
                b != addr@ && has_addr(old(self)@, b) ==> time_of(final(self)@, b) == time_of(
                    old(self)@,
                    b,
                ),
            final(self)@.len() == old(self)@.len() + (if has_addr(old(self)@, addr@) {
                0int
            } else {
                1int
            }),
    {
        let ghost s0 = self@;
        let i = self.locate(&addr);
        let rec = AdminRecord { addr, joined };
        if i < self.entries.len() && self.entries[i].addr == rec.addr {
            proof {
                assert(s0[i as int].addr@ == rec.addr@);
            }
            self.entries.remove(i);
            self.entries.insert(i, rec);
            proof {
                let s1 = self@;
                assert(s1 =~= s0.update(i as int, rec));
                Self::lemma_put_replace(s0, s1, i as int, rec);
            }
        } else {
            proof {
                Self::lemma_locate_gap(s0, i as int, rec.addr@);
            }
            self.entries.insert(i, rec);
            proof {
                let s1 = self@;
                assert(s1 == s0.insert(i as int, rec));
                Self::lemma_put_insert(s0, s1, i as int, rec);
            }
        }
    }

    /// At the position `locate` found, when the entry there does not carry
    /// `a` itself, every entry's key is strictly on one side of `a`'s key,
    /// and `a` is absent.
    proof fn lemma_locate_gap(s: Seq<AdminRecord>, i: int, a: Seq<char>)
        requires
            sorted(s),
            0 <= i <= s.len(),
            forall|j: int| 0 <= j < i ==> lex_lt(id_key(#[trigger] s[j].addr@), id_key(a)),
            i < s.len() ==> !lex_lt(id_key(s[i].addr@), id_key(a)),
            i < s.len() ==> s[i].addr@ != a,
        ensures
            forall|j: int| i <= j < s.len() ==> lex_lt(id_key(a), id_key(#[trigger] s[j].addr@)),
            !has_addr(s, a),
    {
        if i < s.len() {
            lemma_lex_lt_total(id_key(s[i].addr@), id_key(a));
            if id_key(s[i].addr@) == id_key(a) {
                lemma_id_key_injective(s[i].addr@, a);
                assert(false);
            }
            assert(lex_lt(id_key(a), id_key(s[i].addr@)));
            assert forall|j: int| i <= j < s.len() implies lex_lt(
                id_key(a),
                id_key(#[trigger] s[j].addr@),
            ) by {
                if j > i {
                    lemma_lex_lt_transitive(
                        id_key(a),
                        id_key(s[i].addr@),
                        id_key(s[j].addr@),
                    );
                }
            }
        }
        assert forall|j: int| 0 <= j < s.len() implies #[trigger] s[j].addr@ != a by {
            lemma_lex_lt_irreflexive(id_key(a));
        }
    }

    /// Replacing the one entry that already carries the identity keeps the
    /// registry sorted and changes nothing but that entry's join-time.
    proof fn lemma_put_replace(s0: Seq<AdminRecord>, s1: Seq<AdminRecord>, i: int, rec: AdminRecord)
        requires
            sorted(s0),
            0 <= i < s0.len(),
            s0[i].addr@ == rec.addr@,
            s1 == s0.update(i, rec),
        ensures
            sorted(s1),
            has_addr(s1, rec.addr@),
            time_of(s1, rec.addr@) == rec.joined,
            forall|b: Seq<char>| b != rec.addr@ ==> has_addr(s1, b) == has_addr(s0, b),
            forall|b: Seq<char>|
                b != rec.addr@ && has_addr(s0, b) ==> time_of(s1, b) == time_of(s0, b),
            s1.len() == s0.len() + (if has_addr(s0, rec.addr@) {
                0int
            } else {
                1int
            }),
    {
        assert(sorted(s1)) by {
            assert forall|p: int, q: int|
                #![trigger s1[p], s1[q]]
                0 <= p < q < s1.len() implies lex_lt(
                id_key(s1[p].addr@),
                id_key(s1[q].addr@),
            ) by {
                assert(s1[p].addr@ == s0[p].addr@);
                assert(s1[q].addr@ == s0[q].addr@);
            }
        }
        assert(s1[i].addr@ == rec.addr@);
        assert(has_addr(s1, rec.addr@));
        assert(has_addr(s0, rec.addr@));
        lemma_index_of(s1, rec.addr@);
        assert(time_of(s1, rec.addr@) == rec.joined);
        assert forall|b: Seq<char>| b != rec.addr@ implies has_addr(s1, b) == has_addr(s0, b) by {
            if has_addr(s0, b) {
                let j = index_of(s0, b);
                lemma_index_of(s0, b);
                assert(j != i);
                assert(s1[j].addr@ == b);
            }
            if has_addr(s1, b) {
                let j = index_of(s1, b);
                lemma_index_of(s1, b);
                assert(j != i);
                assert(s0[j].addr@ == b);
            }
        }
        assert forall|b: Seq<char>|
            b != rec.addr@ && has_addr(s0, b) implies time_of(s1, b) == time_of(s0, b) by {
            let j = index_of(s0, b);
            lemma_index_of(s0, b);
            assert(j != i);
            assert(s1[j].addr@ == b);
            lemma_index_of(s1, b);
            assert(index_of(s1, b) == j);
        }
    }

    /// Inserting a fresh identity at the gap `locate` found keeps the
    /// registry sorted, adds exactly that entry, and moves no other.
    proof fn lemma_put_insert(s0: Seq<AdminRecord>, s1: Seq<AdminRecord>, i: int, rec: AdminRecord)
        requires
            sorted(s0),
            0 <= i <= s0.len(),
            forall|j: int| 0 <= j < i ==> lex_lt(id_key(#[trigger] s0[j].addr@), id_key(rec.addr@)),
            forall|j: int| i <= j < s0.len() ==> lex_lt(id_key(rec.addr@), id_key(#[trigger] s0[j].addr@)),
            !has_addr(s0, rec.addr@),
            s1 == s0.insert(i, rec),
        ensures
            sorted(s1),
            has_addr(s1, rec.addr@),
            time_of(s1, rec.addr@) == rec.joined,
            forall|b: Seq<char>| b != rec.addr@ ==> has_addr(s1, b) == has_addr(s0, b),
            forall|b: Seq<char>|
                b != rec.addr@ && has_addr(s0, b) ==> time_of(s1, b) == time_of(s0, b),
            s1.len() == s0.len() + (if has_addr(s0, rec.addr@) {
                0int
            } else {
                1int
            }),
    {
        assert(sorted(s1)) by {
            assert forall|p: int, q: int|
                #![trigger s1[p], s1[q]]
                0 <= p < q < s1.len() implies lex_lt(
                id_key(s1[p].addr@),
                id_key(s1[q].addr@),
            ) by {
                if p < i {
                    assert(s1[p] == s0[p]);
                }
                if p > i {
                    assert(s1[p] == s0[p - 1]);
                }
                if q < i {
                    assert(s1[q] == s0[q]);
                }
                if q > i {
                    assert(s1[q] == s0[q - 1]);
                }
                if p < i && q > i {
                    lemma_lex_lt_transitive(
                        id_key(s0[p].addr@),
                        id_key(rec.addr@),
                        id_key(s0[q - 1].addr@),
                    );
                }
            }
        }
        assert(s1[i].addr@ == rec.addr@);
        assert(has_addr(s1, rec.addr@));
        lemma_index_of(s1, rec.addr@);
        assert(time_of(s1, rec.addr@) == rec.joined);
        assert forall|b: Seq<char>| b != rec.addr@ implies has_addr(s1, b) == has_addr(s0, b) by {
            if has_addr(s0, b) {
                let j = index_of(s0, b);
                lemma_index_of(s0, b);
                let k: int = if j < i {
                    j
                } else {
                    j + 1
                };
                assert(s1[k].addr@ == b);
            }
            if has_addr(s1, b) {
                let k = index_of(s1, b);
                lemma_index_of(s1, b);
                assert(k != i);
                let j: int = if k < i {
                    k
                } else {
                    k - 1
                };
                assert(s0[j].addr@ == b);
            }
        }
        assert forall|b: Seq<char>|
            b != rec.addr@ && has_addr(s0, b) implies time_of(s1, b) == time_of(s0, b) by {
            let j = index_of(s0, b);
            lemma_index_of(s0, b);
            let k: int = if j < i {
                j
            } else {
                j + 1
            };
            assert(s1[k].addr@ == b);
            lemma_index_of(s1, b);
            assert(index_of(s1, b) == k);
            assert(s1[k].joined == s0[j].joined);
        }
    }

    /// Remove `addr` if present.  Removing an absent identity changes
    /// nothing at all.
    pub fn remove(&mut self, addr: &String)
        requires
            old(self).well_formed(),
        ensures
            final(self).well_formed(),
            !has_addr(final(self)@, addr@),
            forall|b: Seq<char>|
                b != addr@ ==> has_addr(final(self)@, b) == has_addr(old(self)@, b),
            forall|b: Seq<char>|
                b != addr@ && has_addr(old(self)@, b) ==> time_of(final(self)@, b) == time_of(
                    old(self)@,
                    b,
                ),
            !has_addr(old(self)@, addr@) ==> final(self)@ == old(self)@,
            final(self)@.len() == old(self)@.len() - (if has_addr(old(self)@, addr@) {
                1int
            } else {
                0int
            }),
    {
        let n = self.entries.len();
        let mut i: usize = 0;
        while i < n
            invariant
                i <= n,
                n == self@.len(),
                self@ == old(self)@,
                old(self).well_formed(),
                forall|j: int| 0 <= j < i ==> #[trigger] self@[j].addr@ != addr@,
            decreases n - i,
        {
            if self.entries[i].addr == *addr {
                let ghost s0 = self@;
                self.entries.remove(i);
                proof {
                    let s1 = self@;
                    assert(s1 == s0.remove(i as int));
                    Self::lemma_remove_at(s0, s1, i as int, addr@);
                }
                return;
            }
            i += 1;
        }
    }

    /// Removing the one entry that carries the identity keeps the registry
    /// sorted and touches no other entry.
    proof fn lemma_remove_at(s0: Seq<AdminRecord>, s1: Seq<AdminRecord>, i: int, a: Seq<char>)
        requires
            sorted(s0),
            0 <= i < s0.len(),
            s0[i].addr@ == a,
            s1 == s0.remove(i),
        ensures
            sorted(s1),
            !has_addr(s1, a),
            forall|b: Seq<char>| b != a ==> has_addr(s1, b) == has_addr(s0, b),
            forall|b: Seq<char>| b != a && has_addr(s0, b) ==> time_of(s1, b) == time_of(s0, b),
            s1.len() == s0.len() - 1,
            has_addr(s0, a),
    {
        assert(sorted(s1)) by {
            assert forall|p: int, q: int|
                #![trigger s1[p], s1[q]]
                0 <= p < q < s1.len() implies lex_lt(
                id_key(s1[p].addr@),
                id_key(s1[q].addr@),
            ) by {
                if p < i {
                    assert(s1[p] == s0[p]);
                } else {
                    assert(s1[p] == s0[p + 1]);
                }
                if q < i {
                    assert(s1[q] == s0[q]);
                } else {
                    assert(s1[q] == s0[q + 1]);
                }
            }
        }
        assert(!has_addr(s1, a)) by {
            if has_addr(s1, a) {
                let k = choose|k: int| 0 <= k < s1.len() && s1[k].addr@ == a;
                let j: int = if k < i {
                    k
                } else {
                    k + 1
                };
                assert(s0[j].addr@ == a);
                lemma_sorted_distinct(s0, i, j);
            }
        }
        assert forall|b: Seq<char>| b != a implies has_addr(s1, b) == has_addr(s0, b) by {
            if has_addr(s0, b) {
                let j = index_of(s0, b);
                lemma_index_of(s0, b);
                assert(j != i);
                let k: int = if j < i {
                    j
                } else {
                    j - 1
                };
                assert(s1[k].addr@ == b);
            }
            if has_addr(s1, b) {
                let k = choose|k: int| 0 <= k < s1.len() && s1[k].addr@ == b;
                let j: int = if k < i {
                    k
                } else {
                    k + 1
                };
                assert(s0[j].addr@ == b);
            }
        }
        assert forall|b: Seq<char>|
            b != a && has_addr(s0, b) implies time_of(s1, b) == time_of(s0, b) by {
            let j = index_of(s0, b);
            lemma_index_of(s0, b);
            assert(j != i);
            let k: int = if j < i {
                j
            } else {
                j - 1
            };
            assert(s1[k].addr@ == b);
            lemma_index_of(s1, b);
            assert(index_of(s1, b) == k);
            assert(s1[k].joined == s0[j].joined);
        }
    }

    /// All registered identities, in ascending key order.
    pub fn list(&self) -> (r: Vec<String>)
        ensures
            r@.len() == self@.len(),
            forall|i: int| 0 <= i < r@.len() ==> #[trigger] r@[i]@ == self@[i].addr@,
    {
        let n = self.entries.len();
        let mut out: Vec<String> = Vec::new();
        let mut i: usize = 0;
        while i < n
            invariant
                i <= n,
                n == self@.len(),
                out@.len() == i,
                forall|j: int| 0 <= j < i ==> #[trigger] out@[j]@ == self@[j].addr@,
            decreases n - i,
        {
            out.push(self.entries[i].addr.clone());
            i += 1;
        }
        out
    }

    /// All entries as plain pairs of identity and join-time, in registry
    /// order — what a host persists between calls.
    pub fn records(&self) -> (r: Vec<(String, u64)>)
        ensures
            r@.len() == self@.len(),
            forall|i: int|
                0 <= i < r@.len() ==> (#[trigger] r@[i]).0@ == self@[i].addr@ && r@[i].1
                    == self@[i].joined,
    {
        let n = self.entries.len();
        let mut out: Vec<(String, u64)> = Vec::new();
        let mut i: usize = 0;
        while i < n
            invariant
                i <= n,
                n == self@.len(),
                out@.len() == i,
                forall|j: int|
                    0 <= j < i ==> (#[trigger] out@[j]).0@ == self@[j].addr@ && out@[j].1
                        == self@[j].joined,
            decreases n - i,
        {
            out.push((self.entries[i].addr.clone(), self.entries[i].joined));
            i += 1;
        }
        out
    }

    /// One step of the filtered listing: extending the prefix by one record
    /// either appends its identity or leaves the listing as it was.
    proof fn lemma_keys_after_step(s: Seq<AdminRecord>, t: u64, i: int)
        requires
            0 <= i < s.len(),
        ensures
            s[i].joined > t ==> keys_after(s.take(i + 1), t) == keys_after(s.take(i), t).push(
                s[i].addr@,
            ),
            !(s[i].joined > t) ==> keys_after(s.take(i + 1), t) == keys_after(s.take(i), t),
    {
        reveal(Seq::filter);
        let a = s.take(i + 1);
        let b = s.take(i);
        assert(a.drop_last() =~= b);
        assert(a.last() == s[i]);
        let fa = a.filter(joined_after(t));
        let fb = b.filter(joined_after(t));
        if s[i].joined > t {
            assert(fa == fb.push(s[i]));
            assert(fa.map_values(|rec: AdminRecord| rec.addr@) =~= fb.map_values(
                |rec: AdminRecord| rec.addr@,
            ).push(s[i].addr@));
        } else {
            assert(fa == fb);
        }
    }

    /// The identities that joined strictly after `t`, in ascending key order.
    /// An identity whose join-time is exactly `t` is excluded.
    pub fn list_after(&self, t: u64) -> (r: Vec<String>)
        ensures
            r.deep_view() == keys_after(self@, t),
    {
        let n = self.entries.len();
        let mut out: Vec<String> = Vec::new();
        let mut i: usize = 0;
        proof {
            assert(self@.take(0) =~= Seq::<AdminRecord>::empty());
            reveal(Seq::filter);
            assert(out.deep_view() =~= keys_after(self@.take(0), t));
        }
        while i < n
            invariant
                i <= n,
                n == self@.len(),
                out.deep_view() == keys_after(self@.take(i as int), t),
            decreases n - i,
        {
            proof {
                Self::lemma_keys_after_step(self@, t, i as int);
            }
            if self.entries[i].joined > t {
                let ghost dv = out.deep_view();
                out.push(self.entries[i].addr.clone());
                proof {
                    assert(out.deep_view() =~= dv.push(self@[i as int].addr@));
                }
            }
            i += 1;
        }
        proof {
            assert(self@.take(n as int) =~= self@);
        }
        out
    }
}

/// What the filtered listing holds: exactly the identities with join-time
/// strictly greater than `t` — one joined at exactly `t` is excluded — in
/// ascending key order.
pub proof fn lemma_keys_after_correct(s: Seq<AdminRecord>, t: u64)
    requires
        sorted(s),
    ensures
        forall|k: int|
            0 <= k < keys_after(s, t).len() ==> has_addr(s, #[trigger] keys_after(s, t)[k])
                && time_of(s, keys_after(s, t)[k]) > t,
        forall|a: Seq<char>|
            has_addr(s, a) && time_of(s, a) > t ==> #[trigger] keys_after(s, t).contains(a),
        forall|a: Seq<char>|
            has_addr(s, a) && time_of(s, a) <= t ==> !(#[trigger] keys_after(s, t).contains(a)),
        forall|p: int, q: int|
            0 <= p < q < keys_after(s, t).len() ==> lex_lt(
                id_key(keys_after(s, t)[p]),
                id_key(keys_after(s, t)[q]),
            ),
{
    let f = s.filter(joined_after(t));
    let keys = keys_after(s, t);
    lemma_filter_subset(s, joined_after(t));
    lemma_filter_keeps_sorted(s, t);
    broadcast use vstd::seq_lib::group_filter_ensures;

    assert forall|k: int|
        0 <= k < keys.len() implies has_addr(s, #[trigger] keys[k]) && time_of(s, keys[k]) > t by {
        assert(keys[k] == f[k].addr@);
        assert(joined_after(t)(f[k]));
        assert(s.contains(f[k]));
        let j = choose|j: int| 0 <= j < s.len() && s[j] == f[k];
        assert(s[j].addr@ == keys[k]);
        lemma_index_of(s, keys[k]);
        assert(index_of(s, keys[k]) == j);
    }
    assert forall|a: Seq<char>|
        has_addr(s, a) && time_of(s, a) > t implies #[trigger] keys.contains(a) by {
        lemma_index_of(s, a);
        let j = index_of(s, a);
        assert(joined_after(t)(s[j]));
        assert(f.contains(s[j]));
        let k = choose|k: int| 0 <= k < f.len() && f[k] == s[j];
        assert(keys[k] == a);
    }
    assert forall|a: Seq<char>|
        has_addr(s, a) && time_of(s, a) <= t implies !(#[trigger] keys.contains(a)) by {
        if keys.contains(a) {
            let k = choose|k: int| 0 <= k < keys.len() && keys[k] == a;
            assert(has_addr(s, keys[k]) && time_of(s, keys[k]) > t);
        }
    }
    assert forall|p: int, q: int|
        0 <= p < q < keys.len() implies lex_lt(id_key(keys[p]), id_key(keys[q])) by {
        assert(keys[p] == f[p].addr@);
        assert(keys[q] == f[q].addr@);
        assert(lex_lt(id_key(f[p].addr@), id_key(f[q].addr@)));
    }
}

} // verus!
