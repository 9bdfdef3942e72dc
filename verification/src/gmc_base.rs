//! `GMC_Base`: the depth-0 root of the chain tree.
//!
//! The root only records top-level categories (a set of non-blank names, kept in
//! text order) and refuses every monetary request: money can neither fund MeriToken
//! nor buy recognition.
use vstd::prelude::*;

use crate::error::{GmcError, GmcResult};
use crate::types::{
    is_blank, lemma_lex_irreflexive, lemma_lex_total, lemma_lex_transitive,
    lex_lt, str_eq, str_lex_lt, unicode_white_space, ChainId,
};

verus! {

/// What a monetary request asks for.
#[derive(Debug, Clone, PartialEq, Eq, Hash, Structural)]
#[non_exhaustive]
pub enum MonetaryRequestKind {
    /// Fund MeriToken with money.
    FundForMeriToken,
    /// Buy recognition with money.
    PurchaseRecognition,
}

/// A request to trade money for merit.
#[derive(Debug, Clone, PartialEq, Eq, Hash)]
pub struct MonetaryRequest {
    /// What is asked for.
    pub kind: MonetaryRequestKind,
    /// The chain concerned.
    pub target_chain: ChainId,
    /// What is offered.
    pub offered_funding: String,
}

impl MonetaryRequest {
    /// A request to fund MeriToken.
    pub fn fund_for_meritoken(target_chain: &str, offered_funding: &str) -> (r: MonetaryRequest)
        ensures
            r.kind == MonetaryRequestKind::FundForMeriToken,
            r.target_chain@ == target_chain@,
            r.offered_funding@ == offered_funding@,
    {
        MonetaryRequest {
            kind: MonetaryRequestKind::FundForMeriToken,
            target_chain: ChainId::new(target_chain),
            offered_funding: offered_funding.to_owned(),
        }
    }

    /// A request to buy recognition.
    pub fn purchase_recognition(target_chain: &str, offered_funding: &str) -> (r: MonetaryRequest)
        ensures
            r.kind == MonetaryRequestKind::PurchaseRecognition,
            r.target_chain@ == target_chain@,
            r.offered_funding@ == offered_funding@,
    {
        MonetaryRequest {
            kind: MonetaryRequestKind::PurchaseRecognition,
            target_chain: ChainId::new(target_chain),
            offered_funding: offered_funding.to_owned(),
        }
    }
}

/// Text of the root chain's id.
pub open spec fn root_chain_text() -> Seq<char> {
    "gmc-base"@
}

/// Text of the root chain's id.
pub const ROOT_CHAIN_ID: &'static str = "gmc-base";

/// Depth of the root chain.
pub const ROOT_DEPTH: u32 = 0;

/// Texts in strictly increasing order (hence distinct).
pub open spec fn strictly_sorted(s: Seq<Seq<char>>) -> bool {
    forall|i: int, j: int| 0 <= i < j < s.len() ==> lex_lt(s[i], s[j])
}

/// The root's state: its top-level categories.
#[derive(Debug, Clone, Default, PartialEq, Eq)]
pub struct GmcBase {
    categories: Vec<String>,
}

impl GmcBase {
    /// The categories, in text order.
    pub closed spec fn spec_categories(&self) -> Seq<Seq<char>> {
        self.categories@.map_values(|s: String| s@)
    }

    /// The categories are strictly sorted.
    pub closed spec fn wf(&self) -> bool {
        strictly_sorted(self.spec_categories())
    }

    /// A root with no categories.
    pub fn new() -> (b: GmcBase)
        ensures
            b.wf(),
            b.spec_categories().len() == 0,
    {
        GmcBase { categories: Vec::new() }
    }

    /// The root chain's id, `gmc-base`.
    pub fn root_chain_id() -> (c: ChainId)
        ensures
            c@ == root_chain_text(),
    {
        ChainId::new("gmc-base")
    }

    /// Records a category. A blank name is ignored; an already-recorded one is kept
    /// once. Returns whether the set grew.
    pub fn record_top_level_category(&mut self, category: &str) -> (added: bool)
        requires
            old(self).wf(),
        ensures
            final(self).wf(),
            ({
                let blank = forall|i: int|
                    0 <= i < category@.len() ==> unicode_white_space(#[trigger] category@[i]);
                let present = old(self).spec_categories().contains(category@);
                &&& added == (!blank && !present)
                &&& !added ==> final(self).spec_categories() == old(self).spec_categories()
                &&& added ==> final(self).spec_categories().to_set() == old(
                    self,
                ).spec_categories().to_set().insert(category@)
                &&& added ==> final(self).spec_categories().len() == old(
                    self,
                ).spec_categories().len() + 1
            }),
    {
        if is_blank(category) {
            return false;
        }
        let ghost old_c = self.spec_categories();
        let mut p: usize = 0;
        while p < self.categories.len() && str_lex_lt(self.categories[p].as_str(), category)
            invariant
                p <= self.categories@.len(),
                old_c == self.spec_categories(),
                strictly_sorted(old_c),
                forall|j: int| 0 <= j < p ==> lex_lt(#[trigger] old_c[j], category@),
            decreases self.categories@.len() - p,
        {
            p = p + 1;
        }
        if p < self.categories.len() && str_eq(self.categories[p].as_str(), category) {
            proof {
                assert(old_c[p as int] == category@);
            }
            return false;
        }
        proof {
            if p < old_c.len() {
                lemma_lex_total(old_c[p as int], category@);
                assert(lex_lt(category@, old_c[p as int]));
            }
            assert forall|j: int| 0 <= j < old_c.len() implies old_c[j] != category@ by {
                if j < p {
                    lemma_lex_irreflexive(category@);
                } else {
                    if j > p {
                        lemma_lex_transitive(category@, old_c[p as int], old_c[j]);
                    }
                    lemma_lex_irreflexive(category@);
                }
            }
        }
        self.categories.insert(p, category.to_owned());
        proof {
            let n = self.spec_categories();
            assert(n =~= old_c.insert(p as int, category@));
            assert forall|i: int, j: int| 0 <= i < j < n.len() implies lex_lt(n[i], n[j]) by {
                if j < p {
                } else if j == p {
                } else if i < p {
                    assert(lex_lt(category@, old_c[p as int]));
                    if j - 1 > p {
                        lemma_lex_transitive(category@, old_c[p as int], old_c[j - 1]);
                    }
                    assert(n[j] == old_c[j - 1]);
                    lemma_lex_transitive(old_c[i], category@, n[j]);
                } else if i == p {
                    if j - 1 > p {
                        lemma_lex_transitive(category@, old_c[p as int], old_c[j - 1]);
                    }
                } else {
                }
            }
            assert(n.to_set() =~= old_c.to_set().insert(category@)) by {
                assert forall|x: Seq<char>| n.to_set().contains(x) implies old_c.to_set().insert(
                    category@,
                ).contains(x) by {
                    let k = choose|k: int| 0 <= k < n.len() && n[k] == x;
                    if k < p {
                        assert(old_c[k] == x);
                    } else if k > p {
                        assert(old_c[k - 1] == x);
                    }
                }
                assert forall|x: Seq<char>| old_c.to_set().insert(category@).contains(x) implies n.to_set().contains(
                    x,
                ) by {
                    if x == category@ {
                        assert(n[p as int] == x);
                    } else {
                        let k = choose|k: int| 0 <= k < old_c.len() && old_c[k] == x;
                        if k < p {
                            assert(n[k] == x);
                        } else {
                            assert(n[k + 1] == x);
                        }
                    }
                }
            }
        }
        true
    }

    /// Whether `category` was recorded.
    pub fn has_top_level_category(&self, category: &str) -> (b: bool)
        ensures
            b == self.spec_categories().contains(category@),
    {
        let mut i: usize = 0;
        while i < self.categories.len()
            invariant
                i <= self.categories@.len(),
                forall|j: int| 0 <= j < i ==> self.spec_categories()[j] != category@,
            decreases self.categories@.len() - i,
        {
            if str_eq(self.categories[i].as_str(), category) {
                proof {
                    assert(self.spec_categories()[i as int] == category@);
                }
                return true;
            }
            i = i + 1;
        }
        false
    }

    /// Number of recorded categories.
    pub fn category_count(&self) -> (n: usize)
        ensures
            n == self.spec_categories().len(),
    {
        self.categories.len()
    }

    /// The recorded categories, in text order.
    pub fn top_level_categories(&self) -> (r: std::vec::IntoIter<&str>)
        ensures
            vstd::std_specs::vec::into_iter_elts(r).len() == self.spec_categories().len(),
            forall|i: int|
                0 <= i < self.spec_categories().len()
                    ==> (#[trigger] vstd::std_specs::vec::into_iter_elts(r)[i])@
                    == self.spec_categories()[i],
    {
        broadcast use vstd::std_specs::vec::axiom_spec_into_iter;

        let mut v: Vec<&str> = Vec::new();
        let mut i: usize = 0;
        while i < self.categories.len()
            invariant
                i <= self.categories@.len(),
                v@.len() == i,
                forall|k: int| 0 <= k < i ==> (#[trigger] v@[k])@ == self.spec_categories()[k],
            decreases self.categories@.len() - i,
        {
            v.push(self.categories[i].as_str());
            i = i + 1;
        }
        v.into_iter()
    }

    /// Refuses every monetary request with `OperationNotAllowed`; nothing changes.
    pub fn reject_monetary_request(&self, request: &MonetaryRequest) -> (r: GmcResult<()>)
        ensures
            r == Err::<(), GmcError>(GmcError::OperationNotAllowed),
    {
        Err(GmcError::OperationNotAllowed)
    }
}

} // verus!
