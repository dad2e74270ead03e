use vstd::prelude::*;

use crate::filter::{lemma_filter_contains_iff, lemma_filter_no_duplicates, not_in};

verus! {

/// An asset as the contracts see it: its registry and its item identifier.
pub type AssetV = (Seq<char>, Seq<char>);

/// Descriptive data of an item; the engine keeps none.
#[derive(Clone, Copy, Debug, Default, PartialEq, Eq)]
pub struct TokenMetadata {}

/// One transferable unit: a registry account and an item within it.
#[derive(Clone, Debug)]
pub struct TokenData {
    pub contract_id: String,
    pub token_id: String,
}

impl View for TokenData {
    type V = AssetV;

    open spec fn view(&self) -> AssetV {
        (self.contract_id@, self.token_id@)
    }
}

/// The views of a list of assets.
pub open spec fn assets_view(s: Seq<TokenData>) -> Seq<AssetV> {
    s.map_values(|t: TokenData| t@)
}

/// Viewing a list grown by one element.
pub proof fn lemma_assets_view_push(s: Seq<TokenData>, t: TokenData)
    ensures
        assets_view(s.push(t)) == assets_view(s).push(t@),
{
    assert(assets_view(s.push(t)) =~= assets_view(s).push(t@));
}

/// Viewing a prefix grown by one element.
pub proof fn lemma_assets_view_take(s: Seq<TokenData>, i: int)
    requires
        0 <= i < s.len(),
    ensures
        assets_view(s.take(i + 1)) == assets_view(s.take(i)).push(s[i]@),
        assets_view(s.take(i)).len() == i,
{
    assert(s.take(i + 1) =~= s.take(i).push(s[i]));
    lemma_assets_view_push(s.take(i), s[i]);
}

impl TokenData {
    pub fn new(contract_id: String, token_id: String) -> (r: TokenData)
        ensures
            r@ == (contract_id@, token_id@),
    {
        TokenData { contract_id, token_id }
    }

    /// A copy of this reference.
    pub fn duplicate(&self) -> (r: TokenData)
        ensures
            r@ == self@,
    {
        TokenData { contract_id: self.contract_id.clone(), token_id: self.token_id.clone() }
    }

    /// Equality by registry and item.
    pub fn same_as(&self, other: &TokenData) -> (r: bool)
        ensures
            r == (self@ == other@),
    {
        self.contract_id == other.contract_id && self.token_id == other.token_id
    }
}

/// Whether `list` holds an asset equal to `t`.
pub fn contains_asset(list: &Vec<TokenData>, t: &TokenData) -> (r: bool)
    ensures
        r == assets_view(list@).contains(t@),
{
    let mut i: usize = 0;
    while i < list.len()
        invariant
            i <= list@.len(),
            forall|k: int| 0 <= k < i ==> list@[k]@ != t@,
        decreases list@.len() - i,
    {
        if list[i].same_as(t) {
            assert(assets_view(list@)[i as int] == t@);
            return true;
        }
        i += 1;
    }
    assert(!assets_view(list@).contains(t@)) by {
        if assets_view(list@).contains(t@) {
            let k = choose|k: int| 0 <= k < assets_view(list@).len() && assets_view(list@)[k] == t@;
            assert(list@[k]@ == t@);
        }
    }
    false
}

/// A copy of `list`, element by element.
pub fn copy_assets(list: &Vec<TokenData>) -> (r: Vec<TokenData>)
    ensures
        assets_view(r@) == assets_view(list@),
{
    let mut out: Vec<TokenData> = Vec::new();
    let mut i: usize = 0;
    while i < list.len()
        invariant
            i <= list@.len(),
            assets_view(out@) == assets_view(list@.take(i as int)),
        decreases list@.len() - i,
    {
        let d = list[i].duplicate();
        proof {
            lemma_assets_view_take(list@, i as int);
            lemma_assets_view_push(out@, d);
        }
        out.push(d);
        i += 1;
    }
    assert(list@.take(i as int) =~= list@);
    out
}

/// `list` without every asset that `removed` holds; the order of the rest is kept.
pub fn without_assets(list: &Vec<TokenData>, removed: &Vec<TokenData>) -> (r: Vec<TokenData>)
    ensures
        assets_view(r@) == assets_view(list@).filter(not_in(assets_view(removed@))),
        forall|a: AssetV|
            assets_view(r@).contains(a) <==> (assets_view(list@).contains(a)
                && !assets_view(removed@).contains(a)),
        assets_view(list@).no_duplicates() ==> assets_view(r@).no_duplicates(),
{
    let ghost p = not_in(assets_view(removed@));
    let mut out: Vec<TokenData> = Vec::new();
    let mut i: usize = 0;
    assert(assets_view(list@.take(0)) =~= Seq::<AssetV>::empty());
    assert(assets_view(out@) =~= Seq::<AssetV>::empty());
    while i < list.len()
        invariant
            i <= list@.len(),
            p == not_in(assets_view(removed@)),
            assets_view(out@) == assets_view(list@.take(i as int)).filter(p),
        decreases list@.len() - i,
    {
        proof {
            lemma_assets_view_take(list@, i as int);
            assets_view(list@.take(i as int)).lemma_filter_push(list@[i as int]@, p);
        }
        if !contains_asset(removed, &list[i]) {
            let d = list[i].duplicate();
            proof {
                lemma_assets_view_push(out@, d);
            }
            out.push(d);
        }
        i += 1;
    }
    assert(list@.take(i as int) =~= list@);
    proof {
        assert forall|a: AssetV|
            assets_view(out@).contains(a) <==> (assets_view(list@).contains(a)
                && !assets_view(removed@).contains(a)) by {
            lemma_filter_contains_iff(assets_view(list@), p, a);
        }
        if assets_view(list@).no_duplicates() {
            lemma_filter_no_duplicates(assets_view(list@), p);
        }
    }
    out
}

} // verus!
