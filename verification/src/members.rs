//! The membership set: a process-wide set of strings filled once at
//! startup and read-only thereafter. Scripts reach its smallest member
//! through the `fs` host function.

use vstd::prelude::*;

use crate::order::lex_lt;
use crate::order::lemma_lex_asymmetric;
use crate::order::lemma_lex_irreflexive;
use crate::store::Store;
use crate::store::map_get;
use crate::store::lemma_get_after_set_same;
use crate::store::lemma_get_after_set_other;
use crate::store::lemma_get_some_index;

verus! {

/// A set of strings backed by the ordered store, with the members as
/// keys: membership lookup and the smallest member come from the
/// store's key order.
pub struct MembershipSet {
    keys: Store,
}

impl MembershipSet {
    /// Membership in the model: `k` is one of the set's members.
    pub closed spec fn has(self, k: Seq<char>) -> bool {
        map_get(self.keys@, k) is Some
    }

    /// The set starts empty.
    pub fn new() -> (s: MembershipSet)
        ensures
            forall|k: Seq<char>| !s.has(k),
    {
        MembershipSet { keys: Store::new() }
    }

    /// Add one member at startup: afterwards the set holds exactly the
    /// old members and `item`.
    pub fn add(&mut self, item: String)
        ensures
            forall|k: Seq<char>| final(self).has(k) == (old(self).has(k) || k == item@),
    {
        let ghost s0 = self.keys@;
        let ghost iv = item@;
        let marker = String::new();
        let ghost mv = marker@;
        let _ = self.keys.set(item, marker);
        proof {
            assert forall|k: Seq<char>|
                self.has(k) == (map_get(s0, k) is Some || k == iv) by {
                if k == iv {
                    lemma_get_after_set_same(s0, iv, mv);
                } else {
                    lemma_get_after_set_other(s0, iv, mv, k);
                }
            }
        }
    }

    /// Does the set contain `item`?
    pub fn contains(&self, item: &str) -> (r: bool)
        ensures
            r == self.has(item@),
    {
        self.keys.get(item).is_some()
    }

    /// The smallest member under lexicographic order, if the set is
    /// not empty: what the `fs` host function hands to scripts.
    pub fn smallest(&self) -> (r: Option<String>)
        ensures
            match r {
                Some(m) => self.has(m@) && forall|k: Seq<char>| self.has(k) ==> !lex_lt(k, m@),
                None => forall|k: Seq<char>| !self.has(k),
            },
    {
        let r = self.keys.first_key();
        proof {
            let s0 = self.keys@;
            if s0.len() > 0 {
                let m = s0[0].0;
                assert(map_get(s0, m) is Some);
                assert forall|k: Seq<char>| self.has(k) implies !lex_lt(k, m) by {
                    lemma_get_some_index(s0, k);
                    let i = choose|i: int| 0 <= i < s0.len() && s0[i].0 == k;
                    if i == 0 {
                        lemma_lex_irreflexive(m);
                    } else {
                        lemma_lex_asymmetric(m, k);
                    }
                }
            }
        }
        r
    }
}

} // verus!
