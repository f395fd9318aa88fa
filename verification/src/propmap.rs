//! The map presentation of a query result: records keyed by region code,
//! built by inserting the result sequence in order, last write winning.

use vstd::prelude::*;
use crate::props::Properties;

verus! {

/// The last-write-wins aggregation of a result sequence into a map keyed
/// by region code: every record is inserted in order, so a later record
/// overwrites an earlier one that carries the same `code`.
pub open spec fn map_of(rs: Seq<Properties>) -> Map<Seq<char>, Properties>
    decreases rs.len(),
{
    if rs.len() == 0 {
        Map::empty()
    } else {
        map_of(rs.drop_last()).insert(rs.last().code@, rs.last())
    }
}

/// The set of distinct `code` values occurring in a result sequence.
pub open spec fn code_set(rs: Seq<Properties>) -> Set<Seq<char>>
    decreases rs.len(),
{
    if rs.len() == 0 {
        Set::empty()
    } else {
        code_set(rs.drop_last()).insert(rs.last().code@)
    }
}

/// Whether no two records of the sequence share a `code`.
pub open spec fn codes_distinct(rs: Seq<Properties>) -> bool {
    forall|i: int, j: int| 0 <= i < j < rs.len() ==> rs[i].code@ != rs[j].code@
}

/// A code occurs in `code_set(rs)` exactly when some record of `rs`
/// carries it.
pub proof fn lemma_code_set_contains(rs: Seq<Properties>, c: Seq<char>)
    ensures
        code_set(rs).contains(c) <==> exists|i: int| 0 <= i < rs.len() && rs[i].code@ == c,
    decreases rs.len(),
{
    if rs.len() > 0 {
        lemma_code_set_contains(rs.drop_last(), c);
        if rs.last().code@ == c {
            assert(rs[rs.len() - 1].code@ == c);
        } else if code_set(rs.drop_last()).contains(c) {
            let i = choose|i: int| 0 <= i < rs.drop_last().len() && rs.drop_last()[i].code@ == c;
            assert(rs[i].code@ == c);
        } else {
            assert forall|i: int| 0 <= i < rs.len() implies rs[i].code@ != c by {
                if i < rs.len() - 1 {
                    assert(rs.drop_last()[i].code@ == rs[i].code@);
                }
            }
        }
    }
}

/// The key set of the aggregated map is exactly the set of codes in the
/// sequence, and it is finite.
pub proof fn lemma_map_of_dom(rs: Seq<Properties>)
    ensures
        map_of(rs).dom() == code_set(rs),
        map_of(rs).dom().finite(),
    decreases rs.len(),
{
    if rs.len() == 0 {
        assert(map_of(rs).dom() =~= code_set(rs));
    } else {
        lemma_map_of_dom(rs.drop_last());
        assert(map_of(rs).dom() =~= code_set(rs));
    }
}

/// The number of distinct codes never exceeds the number of records, and
/// matches it exactly when no code repeats.
pub proof fn lemma_code_set_card(rs: Seq<Properties>)
    ensures
        code_set(rs).finite(),
        code_set(rs).len() <= rs.len(),
        code_set(rs).len() == rs.len() <==> codes_distinct(rs),
    decreases rs.len(),
{
    if rs.len() == 0 {
    } else {
        let dl = rs.drop_last();
        lemma_code_set_card(dl);
        lemma_code_set_contains(dl, rs.last().code@);
        assert(codes_distinct(rs) ==> codes_distinct(dl)) by {
            if codes_distinct(rs) {
                assert forall|i: int, j: int| 0 <= i < j < dl.len() implies dl[i].code@
                    != dl[j].code@ by {
                    assert(rs[i].code@ != rs[j].code@);
                }
            }
        }
        if code_set(dl).contains(rs.last().code@) {
            // a duplicate code: the set does not grow and rs is not distinct
            let i = choose|i: int| 0 <= i < dl.len() && dl[i].code@ == rs.last().code@;
            assert(rs[i].code@ == rs[rs.len() - 1].code@);
            assert(!codes_distinct(rs));
        } else {
            if code_set(rs).len() == rs.len() {
                assert(codes_distinct(dl));
                assert forall|i: int, j: int| 0 <= i < j < rs.len() implies rs[i].code@
                    != rs[j].code@ by {
                    if j < rs.len() - 1 {
                        assert(dl[i].code@ != dl[j].code@);
                    } else {
                        assert(dl[i].code@ == rs[i].code@);
                    }
                }
            }
        }
    }
}

/// Looking up the code of record `i` in the aggregated map of a sequence
/// with pairwise distinct codes yields exactly record `i`.
pub proof fn lemma_map_of_get(rs: Seq<Properties>, i: int)
    requires
        codes_distinct(rs),
        0 <= i < rs.len(),
    ensures
        map_of(rs).contains_key(rs[i].code@),
        map_of(rs)[rs[i].code@] == rs[i],
    decreases rs.len(),
{
    let dl = rs.drop_last();
    assert(codes_distinct(dl)) by {
        assert forall|a: int, b: int| 0 <= a < b < dl.len() implies dl[a].code@ != dl[b].code@ by {
            assert(rs[a].code@ != rs[b].code@);
        }
    }
    if i == rs.len() - 1 {
    } else {
        lemma_map_of_get(dl, i);
        assert(rs[i].code@ != rs.last().code@);
        assert(dl[i] == rs[i]);
    }
}

/// Replacing the one record that carries a given code is, on the
/// aggregated map, the same as inserting the replacement.
pub proof fn lemma_map_of_update(rs: Seq<Properties>, i: int, p: Properties)
    requires
        codes_distinct(rs),
        0 <= i < rs.len(),
        rs[i].code@ == p.code@,
    ensures
        map_of(rs.update(i, p)) == map_of(rs).insert(p.code@, p),
    decreases rs.len(),
{
    let up = rs.update(i, p);
    if i == rs.len() - 1 {
        assert(up.drop_last() =~= rs.drop_last());
        assert(up.last() == p);
        assert(map_of(up) == map_of(rs.drop_last()).insert(p.code@, p));
        assert(map_of(rs).insert(p.code@, p) == map_of(rs.drop_last()).insert(
            rs.last().code@,
            rs.last(),
        ).insert(p.code@, p));
        assert(map_of(rs.drop_last()).insert(rs.last().code@, rs.last()).insert(p.code@, p)
            =~= map_of(rs.drop_last()).insert(p.code@, p));
    } else {
        let dl = rs.drop_last();
        assert(codes_distinct(dl)) by {
            assert forall|a: int, b: int| 0 <= a < b < dl.len() implies dl[a].code@
                != dl[b].code@ by {
                assert(rs[a].code@ != rs[b].code@);
            }
        }
        assert(dl[i] == rs[i]);
        lemma_map_of_update(dl, i, p);
        assert(up.drop_last() =~= dl.update(i, p));
        assert(up.last() == rs.last());
        assert(map_of(up) == map_of(dl).insert(p.code@, p).insert(rs.last().code@, rs.last()));
        assert(rs.last().code@ != p.code@);
        assert(map_of(dl).insert(p.code@, p).insert(rs.last().code@, rs.last()) =~= map_of(
            dl,
        ).insert(rs.last().code@, rs.last()).insert(p.code@, p));
    }
}

/// A map from region code to record, the deduplicated presentation of a
/// query result. Its abstract value is the `Map` from each code to the
/// last record of the result sequence that carried it.
pub struct PropertiesMap {
    items: Vec<Properties>,
}

impl View for PropertiesMap {
    type V = Map<Seq<char>, Properties>;

    closed spec fn view(&self) -> Map<Seq<char>, Properties> {
        map_of(self.items@)
    }
}

impl PropertiesMap {
    /// Well-formedness: no two held records share a code. Constructors
    /// establish it and every method preserves it.
    pub closed spec fn wf(&self) -> bool {
        codes_distinct(self.items@)
    }

    /// Create an empty map.
    pub fn new() -> (r: PropertiesMap)
        ensures
            r.wf(),
            r@ == Map::<Seq<char>, Properties>::empty(),
    {
        PropertiesMap { items: Vec::new() }
    }

    /// Insert a record under its code, overwriting any record already
    /// held under the same code.
    pub fn insert(&mut self, p: Properties)
        requires
            old(self).wf(),
        ensures
            (*final(self)).wf(),
            (*final(self))@ == (*old(self))@.insert(p.code@, p),
    {
        let ghost s0 = old(self).items@;
        let n: usize = self.items.len();
        let mut i: usize = 0;
        while i < n
            invariant
                i <= n,
                n == self.items@.len(),
                self.items@ == s0,
                old(self).items@ == s0,
                codes_distinct(s0),
                forall|t: int| 0 <= t < i ==> s0[t].code@ != p.code@,
            decreases n - i,
        {
            if self.items[i].code.eq(&p.code) {
                proof {
                    lemma_map_of_update(s0, i as int, p);
                }
                self.items[i] = p;
                return ;
            }
            i = i + 1;
        }
        self.items.push(p);
        proof {
            assert(self.items@.drop_last() =~= s0);
            assert forall|a: int, b: int| 0 <= a < b < self.items@.len() implies self.items@[
                a
            ].code@ != self.items@[b].code@ by {
                if b < self.items@.len() - 1 {
                    assert(s0[a].code@ != s0[b].code@);
                } else {
                    assert(s0[a].code@ != p.code@);
                }
            }
        }
    }

    /// The number of distinct codes held.
    pub fn len(&self) -> (n: usize)
        requires
            self.wf(),
        ensures
            n == self@.dom().len(),
    {
        proof {
            lemma_map_of_dom(self.items@);
            lemma_code_set_card(self.items@);
        }
        self.items.len()
    }

    /// Whether no code is held at all.
    pub fn is_empty(&self) -> (r: bool)
        requires
            self.wf(),
        ensures
            r == (self@.dom() == Set::<Seq<char>>::empty()),
    {
        proof {
            lemma_map_of_dom(self.items@);
            lemma_code_set_card(self.items@);
            if self.items@.len() == 0 {
                assert(self@.dom() =~= Set::<Seq<char>>::empty());
            } else {
                lemma_code_set_contains(self.items@, self.items@[0].code@);
                assert(code_set(self.items@).contains(self.items@[0].code@));
            }
        }
        self.items.is_empty()
    }

    /// Look a record up by its code.
    pub fn get(&self, code: &String) -> (r: Option<&Properties>)
        requires
            self.wf(),
        ensures
            match r {
                Some(p) => self@.contains_key(code@) && *p == self@[code@],
                None => !self@.contains_key(code@),
            },
    {
        let n: usize = self.items.len();
        let mut i: usize = 0;
        while i < n
            invariant
                i <= n,
                n == self.items@.len(),
                codes_distinct(self.items@),
                forall|t: int| 0 <= t < i ==> self.items@[t].code@ != code@,
            decreases n - i,
        {
            if self.items[i].code.eq(code) {
                proof {
                    lemma_map_of_get(self.items@, i as int);
                }
                return Some(&self.items[i]);
            }
            i = i + 1;
        }
        proof {
            lemma_map_of_dom(self.items@);
            lemma_code_set_contains(self.items@, code@);
        }
        None
    }

    /// The records held, one per code, in their insertion order.
    pub fn records(&self) -> (r: &Vec<Properties>)
        requires
            self.wf(),
        ensures
            codes_distinct(r@),
            r@.len() == self@.dom().len(),
            forall|t: int|
                0 <= t < r@.len() ==> self@.contains_key(#[trigger] r@[t].code@) && self@[r@[
                    t
                ].code@] == r@[t],
    {
        proof {
            lemma_map_of_dom(self.items@);
            lemma_code_set_card(self.items@);
            assert forall|t: int| 0 <= t < self.items@.len() implies self@.contains_key(
                #[trigger] self.items@[t].code@,
            ) && self@[self.items@[t].code@] == self.items@[t] by {
                lemma_map_of_get(self.items@, t);
            }
        }
        &self.items
    }
}

} // verus!
