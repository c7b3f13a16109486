//! The balance ledger: heterogeneous asset quantities held by a lock.
//!
//! A balance keeps one sequence of native coins keyed by denomination and one
//! sequence of fungible-token amounts keyed by the issuing contract address.
//! Within each sequence the key is unique, and the only mutating operation is
//! the merge [`GenericBalance::add_tokens`], which adds an incoming deposit
//! amount to the entry with the same key, or appends a new entry.

use vstd::prelude::*;

use crate::error::ContractError;

verus! {

/// An amount of a native settlement asset, keyed by its denomination.
#[derive(Debug, Clone, PartialEq, Eq)]
pub struct Coin {
    pub denom: String,
    pub amount: u128,
}

/// An amount of a fungible token, keyed by the issuing contract address.
#[derive(Debug, Clone, PartialEq, Eq)]
pub struct Cw20Coin {
    pub address: String,
    pub amount: u128,
}

/// A single-asset-class deposit: either a list of native coins attached to a
/// command, or one fungible-token amount reported by the issuing contract.
#[derive(Debug, Clone, PartialEq, Eq)]
pub enum Balance {
    Native(Vec<Coin>),
    Cw20(Cw20Coin),
}

/// The accumulated holdings of a lock: native coins and fungible tokens.
#[derive(Debug, Clone, PartialEq, Eq)]
pub struct GenericBalance {
    pub native: Vec<Coin>,
    pub cw20: Vec<Cw20Coin>,
}

/// The mathematical value of one balance entry: a key (denomination or
/// issuer address) and the amount held under it.
pub ghost struct AssetView {
    pub key: Seq<char>,
    pub amount: u128,
}

/// The mathematical value of a [`GenericBalance`].
pub ghost struct GenericBalanceView {
    pub native: Seq<AssetView>,
    pub cw20: Seq<AssetView>,
}

/// The mathematical value of a [`Balance`].
pub ghost enum BalanceView {
    Native(Seq<AssetView>),
    Cw20(AssetView),
}

impl View for Coin {
    type V = AssetView;

    open spec fn view(&self) -> AssetView {
        AssetView { key: self.denom@, amount: self.amount }
    }
}

impl View for Cw20Coin {
    type V = AssetView;

    open spec fn view(&self) -> AssetView {
        AssetView { key: self.address@, amount: self.amount }
    }
}

/// The entry values of a sequence of native coins.
pub open spec fn coin_views(s: Seq<Coin>) -> Seq<AssetView> {
    Seq::new(s.len(), |i: int| s[i]@)
}

/// The entry values of a sequence of fungible-token amounts.
pub open spec fn cw20_views(s: Seq<Cw20Coin>) -> Seq<AssetView> {
    Seq::new(s.len(), |i: int| s[i]@)
}

impl View for GenericBalance {
    type V = GenericBalanceView;

    open spec fn view(&self) -> GenericBalanceView {
        GenericBalanceView { native: coin_views(self.native@), cw20: cw20_views(self.cw20@) }
    }
}

impl View for Balance {
    type V = BalanceView;

    open spec fn view(&self) -> BalanceView {
        match self {
            Balance::Native(coins) => BalanceView::Native(coin_views(coins@)),
            Balance::Cw20(token) => BalanceView::Cw20(token@),
        }
    }
}

/// A deposit is empty when it carries no amount at all: every native coin in
/// it has amount zero, or its single token amount is zero.
pub open spec fn balance_is_empty(b: BalanceView) -> bool {
    match b {
        BalanceView::Native(coins) => forall|i: int| 0 <= i < coins.len() ==> coins[i].amount == 0,
        BalanceView::Cw20(token) => token.amount == 0,
    }
}

/// The balance holding exactly one incoming deposit.
pub open spec fn balance_to_generic(b: BalanceView) -> GenericBalanceView {
    match b {
        BalanceView::Native(coins) => GenericBalanceView { native: coins, cw20: Seq::empty() },
        BalanceView::Cw20(token) => GenericBalanceView { native: Seq::empty(), cw20: seq![token] },
    }
}

/// No two entries of the sequence share a key.
pub open spec fn distinct_keys(s: Seq<AssetView>) -> bool {
    forall|i: int, j: int| 0 <= i < j < s.len() ==> s[i].key != s[j].key
}

/// Both halves of a balance have unique keys.
pub open spec fn balance_wf(g: GenericBalanceView) -> bool {
    distinct_keys(g.native) && distinct_keys(g.cw20)
}

/// The position of the first entry with key `k`, or `-1` when no entry has it.
pub open spec fn first_key_index(s: Seq<AssetView>, k: Seq<char>) -> int
    decreases s.len(),
{
    if s.len() == 0 {
        -1
    } else if s[0].key == k {
        0
    } else {
        let r = first_key_index(s.drop_first(), k);
        if r < 0 {
            -1
        } else {
            r + 1
        }
    }
}

/// Merge one incoming entry into a sequence: the first entry with the same
/// key grows by the incoming amount, or the entry is appended. `None` when
/// the grown amount would not fit in its integer type.
pub open spec fn add_asset(s: Seq<AssetView>, x: AssetView) -> Option<Seq<AssetView>> {
    let i = first_key_index(s, x.key);
    if i < 0 {
        Some(s.push(x))
    } else if s[i].amount + x.amount <= u128::MAX {
        Some(s.update(i, AssetView { key: x.key, amount: (s[i].amount + x.amount) as u128 }))
    } else {
        None
    }
}

/// Merge a list of incoming entries, left to right.
pub open spec fn add_assets(s: Seq<AssetView>, adds: Seq<AssetView>) -> Option<Seq<AssetView>>
    decreases adds.len(),
{
    if adds.len() == 0 {
        Some(s)
    } else {
        match add_asset(s, adds[0]) {
            Some(s1) => add_assets(s1, adds.drop_first()),
            None => None,
        }
    }
}

/// Merge one deposit into a balance; `None` on amount overflow.
pub open spec fn add_balance(g: GenericBalanceView, b: BalanceView) -> Option<GenericBalanceView> {
    match b {
        BalanceView::Native(coins) => match add_assets(g.native, coins) {
            Some(n) => Some(GenericBalanceView { native: n, cw20: g.cw20 }),
            None => None,
        },
        BalanceView::Cw20(token) => match add_asset(g.cw20, token) {
            Some(c) => Some(GenericBalanceView { native: g.native, cw20: c }),
            None => None,
        },
    }
}

/// `first_key_index` finds exactly the first entry whose key matches.
pub proof fn lemma_first_key_index(s: Seq<AssetView>, k: Seq<char>)
    ensures
        -1 <= first_key_index(s, k) < s.len(),
        first_key_index(s, k) >= 0 ==> s[first_key_index(s, k)].key == k,
        forall|j: int| 0 <= j < first_key_index(s, k) ==> s[j].key != k,
        first_key_index(s, k) == -1 ==> forall|j: int| 0 <= j < s.len() ==> s[j].key != k,
    decreases s.len(),
{
    if s.len() > 0 && s[0].key != k {
        lemma_first_key_index(s.drop_first(), k);
        assert forall|j: int| 0 <= j < first_key_index(s, k) implies s[j].key != k by {
            if j > 0 {
                assert(s.drop_first()[j - 1] == s[j]);
            }
        }
        if first_key_index(s, k) == -1 {
            assert forall|j: int| 0 <= j < s.len() implies s[j].key != k by {
                if j > 0 {
                    assert(s.drop_first()[j - 1] == s[j]);
                }
            }
        }
    }
}

/// The amount held under each key, for a sequence with distinct keys.
pub open spec fn assets_map(s: Seq<AssetView>) -> Map<Seq<char>, u128>
    decreases s.len(),
{
    if s.len() == 0 {
        Map::empty()
    } else {
        assets_map(s.drop_last()).insert(s.last().key, s.last().amount)
    }
}

/// A key is held exactly when some entry has it.
pub proof fn lemma_assets_map_dom(s: Seq<AssetView>)
    ensures
        forall|k: Seq<char>| #[trigger] assets_map(s).dom().contains(k) <==> (exists|i: int|
            0 <= i < s.len() && s[i].key == k),
    decreases s.len(),
{
    if s.len() > 0 {
        lemma_assets_map_dom(s.drop_last());
        assert forall|k: Seq<char>| #[trigger] assets_map(s).dom().contains(k) implies (exists|
            i: int,
        | 0 <= i < s.len() && s[i].key == k) by {
            if k == s.last().key {
                assert(s[s.len() - 1].key == k);
            } else {
                assert(assets_map(s.drop_last()).dom().contains(k));
                let i = choose|i: int| 0 <= i < s.drop_last().len() && s.drop_last()[i].key == k;
                assert(s.drop_last()[i] == s[i]);
                assert(s[i].key == k);
            }
        }
        assert forall|k: Seq<char>| (exists|i: int| 0 <= i < s.len() && s[i].key == k)
            implies #[trigger] assets_map(s).dom().contains(k) by {
            let i = choose|i: int| 0 <= i < s.len() && s[i].key == k;
            if i < s.len() - 1 {
                assert(s.drop_last()[i] == s[i]);
                assert(s.drop_last()[i].key == k);
                assert(assets_map(s.drop_last()).dom().contains(k));
            }
        }
    }
}

/// With distinct keys, each entry's key holds that entry's amount.
pub proof fn lemma_assets_map_index(s: Seq<AssetView>)
    requires
        distinct_keys(s),
    ensures
        forall|i: int| 0 <= i < s.len() ==> {
            &&& assets_map(s).dom().contains(#[trigger] s[i].key)
            &&& assets_map(s)[s[i].key] == s[i].amount
        },
    decreases s.len(),
{
    if s.len() > 0 {
        lemma_assets_map_index(s.drop_last());
        assert forall|i: int| 0 <= i < s.len() implies {
            &&& assets_map(s).dom().contains(#[trigger] s[i].key)
            &&& assets_map(s)[s[i].key] == s[i].amount
        } by {
            if i < s.len() - 1 {
                assert(s.drop_last()[i] == s[i]);
                assert(s[i].key != s[s.len() - 1].key);
            }
        }
    }
}

/// Replacing the entry at `i` by one with the same key updates that key's
/// amount.
proof fn lemma_assets_map_update(s: Seq<AssetView>, i: int, v: AssetView)
    requires
        distinct_keys(s),
        0 <= i < s.len(),
        v.key == s[i].key,
    ensures
        distinct_keys(s.update(i, v)),
        assets_map(s.update(i, v)) == assets_map(s).insert(v.key, v.amount),
    decreases s.len(),
{
    assert forall|p: int, q: int| 0 <= p < q < s.update(i, v).len() implies s.update(
        i,
        v,
    )[p].key != s.update(i, v)[q].key by {
        assert(s[p].key != s[q].key);
    }
    if i == s.len() - 1 {
        assert(s.update(i, v).drop_last() =~= s.drop_last());
        assert(s.update(i, v).last() == v);
        assert(assets_map(s.update(i, v)) =~= assets_map(s).insert(v.key, v.amount));
    } else {
        assert(s.update(i, v).drop_last() =~= s.drop_last().update(i, v));
        assert(s.update(i, v).last() == s.last());
        lemma_assets_map_update(s.drop_last(), i, v);
        assert(s[i].key != s[s.len() - 1].key);
        assert(assets_map(s.update(i, v)) =~= assets_map(s).insert(v.key, v.amount));
    }
}

/// The merge of one entry, stated on the held-amounts map alone: grow the
/// amount under the key, or bind a new key; `None` on overflow.
pub open spec fn map_add(m: Map<Seq<char>, u128>, x: AssetView) -> Option<Map<Seq<char>, u128>> {
    if m.dom().contains(x.key) {
        if m[x.key] + x.amount > u128::MAX {
            None
        } else {
            Some(m.insert(x.key, (m[x.key] + x.amount) as u128))
        }
    } else {
        Some(m.insert(x.key, x.amount))
    }
}

/// The merge of a list of entries, left to right, on the held-amounts map.
pub open spec fn map_add_list(m: Map<Seq<char>, u128>, adds: Seq<AssetView>) -> Option<
    Map<Seq<char>, u128>,
>
    decreases adds.len(),
{
    if adds.len() == 0 {
        Some(m)
    } else {
        match map_add(m, adds[0]) {
            Some(m1) => map_add_list(m1, adds.drop_first()),
            None => None,
        }
    }
}

/// Merging one entry into a distinct-keyed sequence acts on its
/// held-amounts map as [`map_add`], and keeps the keys distinct.
pub proof fn lemma_add_asset_as_map(s: Seq<AssetView>, x: AssetView)
    requires
        distinct_keys(s),
    ensures
        add_asset(s, x) is Some <==> map_add(assets_map(s), x) is Some,
        add_asset(s, x) is Some ==> {
            &&& distinct_keys(add_asset(s, x).unwrap())
            &&& assets_map(add_asset(s, x).unwrap()) == map_add(assets_map(s), x).unwrap()
        },
{
    lemma_first_key_index(s, x.key);
    lemma_assets_map_dom(s);
    lemma_assets_map_index(s);
    let i = first_key_index(s, x.key);
    if i < 0 {
        assert(!assets_map(s).dom().contains(x.key));
        assert(s.push(x).drop_last() =~= s);
        assert(s.push(x).last() == x);
        assert forall|p: int, q: int| 0 <= p < q < s.push(x).len() implies s.push(
            x,
        )[p].key != s.push(x)[q].key by {
            if q < s.len() {
                assert(s[p].key != s[q].key);
            } else {
                assert(s.push(x)[p] == s[p]);
            }
        }
    } else {
        assert(s[i].key == x.key);
        assert(assets_map(s)[x.key] == s[i].amount);
        if s[i].amount + x.amount <= u128::MAX {
            lemma_assets_map_update(s, i, AssetView { key: x.key, amount: (s[i].amount + x.amount) as u128 });
        }
    }
}

/// Merging a list into a distinct-keyed sequence acts on its held-amounts
/// map as [`map_add_list`], and keeps the keys distinct.
pub proof fn lemma_add_assets_as_map(s: Seq<AssetView>, adds: Seq<AssetView>)
    requires
        distinct_keys(s),
    ensures
        add_assets(s, adds) is Some <==> map_add_list(assets_map(s), adds) is Some,
        add_assets(s, adds) is Some ==> {
            &&& distinct_keys(add_assets(s, adds).unwrap())
            &&& assets_map(add_assets(s, adds).unwrap()) == map_add_list(
                assets_map(s),
                adds,
            ).unwrap()
        },
    decreases adds.len(),
{
    if adds.len() > 0 {
        lemma_add_asset_as_map(s, adds[0]);
        match add_asset(s, adds[0]) {
            Some(s1) => {
                lemma_add_assets_as_map(s1, adds.drop_first());
            },
            None => {},
        }
    }
}

/// Merging two entries on the held-amounts map gives the same outcome in
/// either order: both orders overflow together, and on success the maps are
/// equal.
pub proof fn lemma_map_add_comm(m: Map<Seq<char>, u128>, x: AssetView, y: AssetView)
    ensures
        ({
            let xy = match map_add(m, x) {
                Some(m1) => map_add(m1, y),
                None => None,
            };
            let yx = match map_add(m, y) {
                Some(m1) => map_add(m1, x),
                None => None,
            };
            xy == yx
        }),
{
    let xy = match map_add(m, x) {
        Some(m1) => map_add(m1, y),
        None => None,
    };
    let yx = match map_add(m, y) {
        Some(m1) => map_add(m1, x),
        None => None,
    };
    if x.key == y.key {
        if xy is Some && yx is Some {
            assert(xy.unwrap() =~= yx.unwrap());
        }
    } else {
        if xy is Some && yx is Some {
            assert(xy.unwrap() =~= yx.unwrap());
        }
    }
}

/// One entry commutes past a whole list on the held-amounts map.
proof fn lemma_map_add_swap_list(m: Map<Seq<char>, u128>, x: AssetView, adds: Seq<AssetView>)
    ensures
        ({
            let lhs = match map_add(m, x) {
                Some(m1) => map_add_list(m1, adds),
                None => None,
            };
            let rhs = match map_add_list(m, adds) {
                Some(m1) => map_add(m1, x),
                None => None,
            };
            lhs == rhs
        }),
    decreases adds.len(),
{
    if adds.len() > 0 {
        lemma_map_add_comm(m, x, adds[0]);
        match map_add(m, adds[0]) {
            Some(ma) => {
                lemma_map_add_swap_list(ma, x, adds.drop_first());
            },
            None => {},
        }
    }
}

/// Two lists merge to the same held-amounts map in either order.
proof fn lemma_map_add_list_comm(
    m: Map<Seq<char>, u128>,
    first: Seq<AssetView>,
    second: Seq<AssetView>,
)
    ensures
        ({
            let fs = match map_add_list(m, first) {
                Some(m1) => map_add_list(m1, second),
                None => None,
            };
            let sf = match map_add_list(m, second) {
                Some(m1) => map_add_list(m1, first),
                None => None,
            };
            fs == sf
        }),
    decreases first.len(),
{
    if first.len() > 0 {
        let a = first[0];
        match map_add(m, a) {
            Some(ma) => {
                lemma_map_add_list_comm(ma, first.drop_first(), second);
                lemma_map_add_swap_list(m, a, second);
                match map_add_list(ma, second) {
                    Some(mas) => {
                        assert(map_add_list(m, second) is Some);
                        let ms = map_add_list(m, second).unwrap();
                        assert(map_add(ms, a) == Some(mas));
                        assert(map_add_list(ms, first) == (match map_add(ms, a) {
                            Some(m1) => map_add_list(m1, first.drop_first()),
                            None => None,
                        }));
                    },
                    None => {
                        if map_add_list(m, second) is Some {
                            let ms = map_add_list(m, second).unwrap();
                            assert(map_add(ms, a) is None);
                        }
                    },
                }
            },
            None => {
                lemma_map_add_swap_list(m, a, second);
                if map_add_list(m, second) is Some {
                    let ms = map_add_list(m, second).unwrap();
                    assert(map_add(ms, a) is None);
                }
            },
        }
    }
}

/// Merging one deposit after another, stated on held-amounts maps.
pub open spec fn merge_two(
    g: GenericBalanceView,
    first: BalanceView,
    second: BalanceView,
) -> Option<GenericBalanceView> {
    match add_balance(g, first) {
        Some(g1) => add_balance(g1, second),
        None => None,
    }
}

/// A deposit is well-formed when it does not itself carry two entries of
/// one key; the surrounding chain hands funds in this shape.
pub open spec fn deposit_wf(b: BalanceView) -> bool {
    match b {
        BalanceView::Native(coins) => distinct_keys(coins),
        BalanceView::Cw20(_) => true,
    }
}

/// The balance created from a well-formed deposit has unique keys.
pub proof fn lemma_new_balance_wf(b: BalanceView)
    requires
        deposit_wf(b),
    ensures
        balance_wf(balance_to_generic(b)),
{
}

/// Merging preserves key uniqueness.
pub proof fn lemma_add_balance_wf(g: GenericBalanceView, b: BalanceView)
    requires
        balance_wf(g),
        add_balance(g, b) is Some,
    ensures
        balance_wf(add_balance(g, b).unwrap()),
{
    match b {
        BalanceView::Native(coins) => {
            lemma_add_assets_as_map(g.native, coins);
        },
        BalanceView::Cw20(token) => {
            lemma_add_asset_as_map(g.cw20, token);
        },
    }
}

/// Merging two deposits into a balance gives the same result in either
/// order: both orders overflow together, and on success the two results
/// hold the same amount under every native denomination and every token
/// issuer.
pub proof fn lemma_merge_order_irrelevant(
    g: GenericBalanceView,
    first: BalanceView,
    second: BalanceView,
)
    requires
        balance_wf(g),
    ensures
        merge_two(g, first, second) is Some <==> merge_two(g, second, first) is Some,
        merge_two(g, first, second) is Some ==> {
            &&& assets_map(merge_two(g, first, second).unwrap().native) == assets_map(
                merge_two(g, second, first).unwrap().native,
            )
            &&& assets_map(merge_two(g, first, second).unwrap().cw20) == assets_map(
                merge_two(g, second, first).unwrap().cw20,
            )
        },
{
    match (first, second) {
        (BalanceView::Native(a), BalanceView::Native(b)) => {
            lemma_add_assets_as_map(g.native, a);
            lemma_map_add_list_comm(assets_map(g.native), a, b);
            lemma_add_assets_as_map(g.native, b);
            match add_assets(g.native, a) {
                Some(na) => {
                    lemma_add_assets_as_map(na, b);
                },
                None => {},
            }
            match add_assets(g.native, b) {
                Some(nb) => {
                    lemma_add_assets_as_map(nb, a);
                },
                None => {},
            }
        },
        (BalanceView::Native(a), BalanceView::Cw20(t)) => {
        },
        (BalanceView::Cw20(t), BalanceView::Native(b)) => {
        },
        (BalanceView::Cw20(t), BalanceView::Cw20(u)) => {
            lemma_add_asset_as_map(g.cw20, t);
            lemma_map_add_comm(assets_map(g.cw20), t, u);
            lemma_add_asset_as_map(g.cw20, u);
            match add_asset(g.cw20, t) {
                Some(ct) => {
                    lemma_add_asset_as_map(ct, u);
                },
                None => {},
            }
            match add_asset(g.cw20, u) {
                Some(cu) => {
                    lemma_add_asset_as_map(cu, t);
                },
                None => {},
            }
        },
    }
}

impl Balance {
    /// Whether the deposit carries no amount at all.
    #[verifier::loop_isolation(false)]
    pub fn is_empty(&self) -> (r: bool)
        ensures
            r == balance_is_empty(self@),
    {
        match self {
            Balance::Native(coins) => {
                let mut i: usize = 0;
                while i < coins.len()
                    invariant
                        i <= coins.len(),
                        forall|j: int| 0 <= j < i ==> coin_views(coins@)[j].amount == 0,
                    decreases coins.len() - i,
                {
                    if coins[i].amount != 0 {
                        proof {
                            assert(self@ == BalanceView::Native(coin_views(coins@)));
                            match self@ {
                                BalanceView::Native(cs) => {
                                    assert(cs[i as int].amount != 0);
                                },
                                BalanceView::Cw20(_) => {
                                    assert(false);
                                },
                            }
                            assert(!balance_is_empty(self@));
                        }
                        return false;
                    }
                    i += 1;
                }
                true
            },
            Balance::Cw20(token) => token.amount == 0,
        }
    }
}

impl Coin {
    /// An identical copy of the coin.
    pub fn duplicate(&self) -> (r: Coin)
        ensures
            r == *self,
    {
        Coin { denom: self.denom.clone(), amount: self.amount }
    }
}

impl Cw20Coin {
    /// An identical copy of the token entry.
    pub fn duplicate(&self) -> (r: Cw20Coin)
        ensures
            r == *self,
    {
        Cw20Coin { address: self.address.clone(), amount: self.amount }
    }
}

/// An identical copy of a coin list.
#[verifier::loop_isolation(false)]
pub fn duplicate_coins(v: &Vec<Coin>) -> (r: Vec<Coin>)
    ensures
        r@ == v@,
{
    let mut r: Vec<Coin> = Vec::new();
    let mut i: usize = 0;
    while i < v.len()
        invariant
            i <= v.len(),
            r@ == v@.subrange(0, i as int),
        decreases v.len() - i,
    {
        r.push(v[i].duplicate());
        assert(r@ =~= v@.subrange(0, i as int + 1));
        i += 1;
    }
    assert(r@ =~= v@);
    r
}

/// An identical copy of a token list.
#[verifier::loop_isolation(false)]
pub fn duplicate_cw20s(v: &Vec<Cw20Coin>) -> (r: Vec<Cw20Coin>)
    ensures
        r@ == v@,
{
    let mut r: Vec<Cw20Coin> = Vec::new();
    let mut i: usize = 0;
    while i < v.len()
        invariant
            i <= v.len(),
            r@ == v@.subrange(0, i as int),
        decreases v.len() - i,
    {
        r.push(v[i].duplicate());
        assert(r@ =~= v@.subrange(0, i as int + 1));
        i += 1;
    }
    assert(r@ =~= v@);
    r
}

impl GenericBalance {
    /// A copy of the balance with the same entries.
    pub fn duplicate(&self) -> (r: GenericBalance)
        ensures
            r.native@ == self.native@,
            r.cw20@ == self.cw20@,
            r@ == self@,
    {
        GenericBalance { native: duplicate_coins(&self.native), cw20: duplicate_cw20s(&self.cw20) }
    }
}

/// Merge one native coin into a coin list, growing the first entry with the
/// same denomination or appending a new one.
#[verifier::loop_isolation(false)]
fn merge_coin(native: &mut Vec<Coin>, c: Coin) -> (r: Result<(), ContractError>)
    ensures
        match r {
            Ok(()) => add_asset(coin_views(old(native)@), c@) == Some(coin_views(final(native)@)),
            Err(e) => {
                &&& e == ContractError::Overflow
                &&& add_asset(coin_views(old(native)@), c@) is None
                &&& final(native)@ == old(native)@
            },
        },
{
    proof {
        lemma_first_key_index(coin_views(native@), c@.key);
    }
    let ghost s0 = coin_views(native@);
    let mut i: usize = 0;
    while i < native.len()
        invariant
            i <= native.len(),
            forall|j: int| 0 <= j < i ==> coin_views(native@)[j].key != c@.key,
            native@ == old(native)@,
        decreases native.len() - i,
    {
        if native[i].denom == c.denom {
            assert(coin_views(native@)[i as int].key == c@.key);
            assert(first_key_index(s0, c@.key) == i) by {
                lemma_first_key_index(s0, c@.key);
            }
            match native[i].amount.checked_add(c.amount) {
                Some(sum) => {
                    let updated = Coin { denom: c.denom, amount: sum };
                    let _ = native.remove(i);
                    native.insert(i, updated);
                    proof {
                        assert(coin_views(native@) =~= s0.update(
                            i as int,
                            AssetView { key: c@.key, amount: sum },
                        ));
                    }
                    return Ok(());
                },
                None => {
                    return Err(ContractError::Overflow);
                },
            }
        }
        i += 1;
    }
    assert(first_key_index(s0, c@.key) == -1) by {
        lemma_first_key_index(s0, c@.key);
    }
    native.push(c);
    proof {
        assert(coin_views(native@) =~= s0.push(c@));
    }
    Ok(())
}

impl GenericBalance {
    /// Merge an incoming deposit into the balance. On overflow the balance is
    /// left unchanged and the merge reports [`ContractError::Overflow`].
    #[verifier::loop_isolation(false)]
    pub fn add_tokens(&mut self, add: Balance) -> (r: Result<(), ContractError>)
        ensures
            match r {
                Ok(()) => add_balance(old(self)@, add@) == Some(final(self)@),
                Err(e) => {
                    &&& e == ContractError::Overflow
                    &&& add_balance(old(self)@, add@) is None
                    &&& final(self)@ == old(self)@
                },
            },
    {
        match add {
            Balance::Native(coins) => {
                let ghost all = coin_views(coins@);
                let mut merged = duplicate_coins(&self.native);
                proof {
                    assert(all.skip(0) =~= all);
                }
                let mut k: usize = 0;
                while k < coins.len()
                    invariant
                        k <= coins.len(),
                        add_assets(coin_views(self.native@), all) == add_assets(
                            coin_views(merged@),
                            all.skip(k as int),
                        ),
                    decreases coins.len() - k,
                {
                    let c = coins[k].duplicate();
                    assert(all.skip(k as int)[0] == c@);
                    let ghost before = coin_views(merged@);
                    match merge_coin(&mut merged, c) {
                        Ok(()) => {},
                        Err(e) => {
                            assert(add_asset(before, c@) is None);
                            assert(add_assets(before, all.skip(k as int)) is None);
                            return Err(e);
                        },
                    }
                    proof {
                        assert(all.skip(k as int).drop_first() =~= all.skip(k as int + 1));
                        assert(add_assets(before, all.skip(k as int)) == add_assets(
                            coin_views(merged@),
                            all.skip(k as int + 1),
                        ));
                    }
                    k += 1;
                }
                proof {
                    assert(all.skip(coins.len() as int) =~= Seq::<AssetView>::empty());
                    assert(add_assets(coin_views(merged@), all.skip(coins.len() as int))
                        == Some(coin_views(merged@)));
                }
                self.native = merged;
                Ok(())
            },
            Balance::Cw20(token) => {
                proof {
                    lemma_first_key_index(cw20_views(self.cw20@), token@.key);
                }
                let ghost s0 = cw20_views(self.cw20@);
                let mut i: usize = 0;
                while i < self.cw20.len()
                    invariant
                        i <= self.cw20.len(),
                        forall|j: int| 0 <= j < i ==> cw20_views(self.cw20@)[j].key != token@.key,
                        cw20_views(self.cw20@) == s0,
                        self.native == old(self).native,
                        self.cw20@ == old(self).cw20@,
                    decreases self.cw20.len() - i,
                {
                    if self.cw20[i].address == token.address {
                        assert(cw20_views(self.cw20@)[i as int].key == token@.key);
                        assert(first_key_index(s0, token@.key) == i) by {
                            lemma_first_key_index(s0, token@.key);
                        }
                        match self.cw20[i].amount.checked_add(token.amount) {
                            Some(sum) => {
                                let updated = Cw20Coin { address: token.address, amount: sum };
                                let _ = self.cw20.remove(i);
                                self.cw20.insert(i, updated);
                                proof {
                                    assert(cw20_views(self.cw20@) =~= s0.update(
                                        i as int,
                                        AssetView { key: token@.key, amount: sum },
                                    ));
                                }
                                return Ok(());
                            },
                            None => {
                                return Err(ContractError::Overflow);
                            },
                        }
                    }
                    i += 1;
                }
                assert(first_key_index(s0, token@.key) == -1) by {
                    lemma_first_key_index(s0, token@.key);
                }
                self.cw20.push(token);
                proof {
                    assert(cw20_views(self.cw20@) =~= s0.push(token@));
                }
                Ok(())
            },
        }
    }
}

impl GenericBalance {
    /// The balance holding exactly the incoming deposit.
    pub fn from_balance(balance: Balance) -> (r: GenericBalance)
        ensures
            r@ == balance_to_generic(balance@),
    {
        match balance {
            Balance::Native(coins) => {
                let r = GenericBalance { native: coins, cw20: Vec::new() };
                proof {
                    assert(r@.cw20 =~= Seq::<AssetView>::empty());
                }
                r
            },
            Balance::Cw20(token) => {
                let mut cw20: Vec<Cw20Coin> = Vec::new();
                cw20.push(token);
                let r = GenericBalance { native: Vec::new(), cw20 };
                proof {
                    assert(r@.native =~= Seq::<AssetView>::empty());
                    assert(r@.cw20 =~= seq![token@]);
                }
                r
            },
        }
    }
}

} // verus!
