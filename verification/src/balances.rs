//! Token balances of one chain, by asset name.
//!
//! Only assets held by the native token vault have a balance; assets handled
//! by the registry root or by an unknown party are left out.

use crate::l1_asset_router::{asset_name, RegisteredAsset};
use crate::primitives::{B256, U256};
use crate::remote::first_occurrences;
use crate::text::same_text;
use vstd::prelude::*;

verus! {

/// The balance of one token.
#[derive(Clone, Debug, PartialEq, Eq)]
pub struct TokenBalance {
    pub token: String,
    pub amount: U256,
}

/// The mapping that a list of balances stands for: each name with the
/// amount of the last entry that carries it.
pub open spec fn balances_of(entries: Seq<TokenBalance>) -> Map<Seq<char>, U256>
    decreases entries.len(),
{
    if entries.len() == 0 {
        Map::empty()
    } else {
        balances_of(entries.drop_last()).insert(entries.last().token@, entries.last().amount)
    }
}

/// The token names of `entries`, in order.
pub open spec fn token_names(entries: Seq<TokenBalance>) -> Seq<Seq<char>> {
    Seq::new(entries.len(), |i: int| entries[i].token@)
}

/// The names of the vault-backed assets among `assets`, in order.
pub open spec fn vault_names(assets: Seq<RegisteredAsset>) -> Seq<Seq<char>>
    decreases assets.len(),
{
    if assets.len() == 0 {
        Seq::empty()
    } else if assets.last().handler is NativeTokenVault {
        vault_names(assets.drop_last()).push(asset_name(assets.last()))
    } else {
        vault_names(assets.drop_last())
    }
}

/// No token name occurs twice in `entries`.
pub open spec fn distinct_names(entries: Seq<TokenBalance>) -> bool {
    forall|i: int, j: int|
        0 <= i < entries.len() && 0 <= j < entries.len() && entries[i].token@
            == entries[j].token@ ==> i == j
}

/// The number of vault-backed assets among `assets`.
pub open spec fn vault_count(assets: Seq<RegisteredAsset>) -> nat
    decreases assets.len(),
{
    if assets.len() == 0 {
        0
    } else if assets.last().handler is NativeTokenVault {
        vault_count(assets.drop_last()) + 1
    } else {
        vault_count(assets.drop_last())
    }
}

/// The ids of the vault-backed assets among `assets`, in order.
pub open spec fn vault_ids(assets: Seq<RegisteredAsset>) -> Seq<B256>
    decreases assets.len(),
{
    if assets.len() == 0 {
        Seq::empty()
    } else if assets.last().handler is NativeTokenVault {
        vault_ids(assets.drop_last()).push(assets.last().asset_id)
    } else {
        vault_ids(assets.drop_last())
    }
}

/// The balance table of a chain: the name of every vault-backed asset among
/// `assets` with its amount, where `amounts` holds one amount for each
/// vault-backed asset, in order. Assets of the other kinds add nothing.
/// Where two assets share a name, the later one's amount is kept.
pub open spec fn table_of(assets: Seq<RegisteredAsset>, amounts: Seq<U256>) -> Map<
    Seq<char>,
    U256,
>
    decreases assets.len(),
{
    if assets.len() == 0 || amounts.len() == 0 {
        Map::empty()
    } else if assets.last().handler is NativeTokenVault {
        table_of(assets.drop_last(), amounts.drop_last()).insert(
            asset_name(assets.last()),
            amounts.last(),
        )
    } else {
        table_of(assets.drop_last(), amounts)
    }
}

/// Every name in a balance table is the name of a vault-backed asset: an
/// asset handled by the registry root or by an unknown party never puts a
/// name into the table.
pub proof fn lemma_table_holds_vault_assets_only(
    assets: Seq<RegisteredAsset>,
    amounts: Seq<U256>,
    name: Seq<char>,
)
    requires
        table_of(assets, amounts).dom().contains(name),
    ensures
        exists|j: int|
            0 <= j < assets.len() && (#[trigger] assets[j]).handler is NativeTokenVault
                && asset_name(assets[j]) == name,
    decreases assets.len(),
{
    if assets.len() == 0 || amounts.len() == 0 {
        assert(false);
    } else if assets.last().handler is NativeTokenVault {
        if asset_name(assets.last()) == name {
            assert(assets[assets.len() - 1].handler is NativeTokenVault);
        } else {
            lemma_table_holds_vault_assets_only(assets.drop_last(), amounts.drop_last(), name);
            let j = choose|j: int|
                0 <= j < assets.drop_last().len() && (
                #[trigger] assets.drop_last()[j]).handler is NativeTokenVault && asset_name(
                    assets.drop_last()[j],
                ) == name;
            assert(assets[j] == assets.drop_last()[j]);
        }
    } else {
        lemma_table_holds_vault_assets_only(assets.drop_last(), amounts, name);
        let j = choose|j: int|
            0 <= j < assets.drop_last().len() && (
            #[trigger] assets.drop_last()[j]).handler is NativeTokenVault && asset_name(
                assets.drop_last()[j],
            ) == name;
        assert(assets[j] == assets.drop_last()[j]);
    }
}

/// Leaving out every asset that is not vault-backed does not change the
/// balance table.
pub proof fn lemma_table_ignores_other_assets(
    assets: Seq<RegisteredAsset>,
    amounts: Seq<U256>,
    at: int,
)
    requires
        0 <= at < assets.len(),
        !(assets[at].handler is NativeTokenVault),
    ensures
        table_of(assets.remove(at), amounts) == table_of(assets, amounts),
    decreases assets.len(),
{
    if amounts.len() == 0 {
    } else if at == assets.len() - 1 {
        assert(assets.remove(at) =~= assets.drop_last());
    } else {
        let shorter = assets.remove(at);
        assert(shorter.last() == assets.last());
        assert(shorter.drop_last() =~= assets.drop_last().remove(at));
        assert(assets.drop_last()[at] == assets[at]);
        if assets.last().handler is NativeTokenVault {
            lemma_table_ignores_other_assets(assets.drop_last(), amounts.drop_last(), at);
        } else {
            lemma_table_ignores_other_assets(assets.drop_last(), amounts, at);
        }
    }
}

/// Replacing an entry by one of the same name is one insertion into the
/// mapping.
proof fn lemma_replace_is_insert(entries: Seq<TokenBalance>, at: int, entry: TokenBalance)
    requires
        distinct_names(entries),
        0 <= at < entries.len(),
        entries[at].token@ == entry.token@,
    ensures
        balances_of(entries.update(at, entry)) == balances_of(entries).insert(
            entry.token@,
            entry.amount,
        ),
        distinct_names(entries.update(at, entry)),
    decreases entries.len(),
{
    let changed = entries.update(at, entry);
    assert forall|i: int, j: int|
        0 <= i < changed.len() && 0 <= j < changed.len() && changed[i].token@
            == changed[j].token@ implies i == j by {
        assert(changed[i].token@ == entries[i].token@);
        assert(changed[j].token@ == entries[j].token@);
    }
    if at == entries.len() - 1 {
        assert(changed.drop_last() =~= entries.drop_last());
        assert(balances_of(changed) =~= balances_of(entries).insert(entry.token@, entry.amount));
    } else {
        let rest = entries.drop_last();
        assert forall|i: int, j: int|
            0 <= i < rest.len() && 0 <= j < rest.len() && rest[i].token@
                == rest[j].token@ implies i == j by {
            assert(rest[i] == entries[i] && rest[j] == entries[j]);
        }
        assert(rest[at] == entries[at]);
        lemma_replace_is_insert(rest, at, entry);
        assert(changed.drop_last() =~= rest.update(at, entry));
        assert(changed.last() == entries.last());
        assert(entries[entries.len() - 1].token@ != entries[at].token@);
        assert(balances_of(changed) =~= balances_of(entries).insert(entry.token@, entry.amount));
    }
}

/// The balances of one chain, each token name once.
#[derive(Clone, Debug, PartialEq, Eq)]
pub struct BalanceTable {
    pub entries: Vec<TokenBalance>,
}

impl View for BalanceTable {
    type V = Map<Seq<char>, U256>;

    open spec fn view(&self) -> Map<Seq<char>, U256> {
        balances_of(self.entries@)
    }
}

impl BalanceTable {
    /// No token name is held twice.
    pub open spec fn wf(&self) -> bool {
        distinct_names(self.entries@)
    }

    /// A table without balances.
    pub fn new() -> (table: BalanceTable)
        ensures
            table.wf(),
            table@ == Map::<Seq<char>, U256>::empty(),
            table.entries@.len() == 0,
    {
        BalanceTable { entries: Vec::new() }
    }

    /// Records `amount` as the balance of `token`, replacing an earlier
    /// balance of that name.
    pub fn insert(&mut self, token: String, amount: U256)
        requires
            old(self).wf(),
        ensures
            final(self).wf(),
            final(self)@ == old(self)@.insert(token@, amount),
            token_names(final(self).entries@) == if token_names(old(self).entries@).contains(
                token@,
            ) {
                token_names(old(self).entries@)
            } else {
                token_names(old(self).entries@).push(token@)
            },
    {
        let ghost before = self.entries@;
        let mut i: usize = 0;
        while i < self.entries.len()
            invariant
                i <= self.entries.len(),
                self.entries@ == before,
                before == old(self).entries@,
                distinct_names(before),
                forall|k: int| 0 <= k < i ==> (#[trigger] before[k]).token@ != token@,
            decreases self.entries.len() - i,
        {
            if same_text(self.entries[i].token.as_str(), token.as_str()) {
                let entry = TokenBalance { token, amount };
                proof {
                    lemma_replace_is_insert(before, i as int, entry);
                    assert(token_names(before)[i as int] == token@);
                    assert(token_names(before.update(i as int, entry)) =~= token_names(before));
                }
                self.entries.set(i, entry);
                return ;
            }
            i += 1;
        }
        self.entries.push(TokenBalance { token, amount });
        proof {
            assert(self.entries@.drop_last() =~= before);
            assert(token_names(self.entries@) =~= token_names(before).push(token@));
            assert forall|k: int| 0 <= k < token_names(before).len() implies token_names(
                before,
            )[k] != token@ by {
                assert(before[k].token@ != token@);
            }
        }
    }
}

/// The balance table of a chain, from its registered assets and the
/// amounts read for the vault-backed ones, in order.
pub fn balance_table(assets: &Vec<RegisteredAsset>, amounts: &Vec<U256>) -> (table: BalanceTable)
    requires
        amounts@.len() == vault_count(assets@),
    ensures
        table.wf(),
        table@ == table_of(assets@, amounts@),
        token_names(table.entries@) == first_occurrences(vault_names(assets@)),
{
    let mut table = BalanceTable::new();
    let mut used: usize = 0;
    let mut i: usize = 0;
    proof {
        assert(assets@.take(0).len() == 0);
        assert(vault_names(assets@.take(0)).len() == 0);
        assert(token_names(table.entries@) =~= first_occurrences(vault_names(assets@.take(0))));
    }
    while i < assets.len()
        invariant
            i <= assets.len(),
            used == vault_count(assets@.take(i as int)),
            used <= amounts@.len(),
            amounts@.len() == vault_count(assets@),
            table.wf(),
            table@ == table_of(assets@.take(i as int), amounts@.take(used as int)),
            token_names(table.entries@) == first_occurrences(vault_names(assets@.take(i as int))),
        decreases assets.len() - i,
    {
        proof {
            assert(assets@.take(i + 1).drop_last() =~= assets@.take(i as int));
            lemma_vault_count_grows(assets@, i + 1, assets.len() as int);
            assert(assets@.take(assets.len() as int) =~= assets@);
        }
        if assets[i].handler.is_vault_backed() {
            proof {
                assert(assets@.take(i + 1).last() == assets@[i as int]);
                assert(vault_count(assets@.take(i + 1)) == used + 1);
                assert(vault_count(assets@.take(assets.len() as int)) == vault_count(assets@));
                assert(used + 1 <= amounts.len());
                assert(amounts@.take(used + 1).drop_last() =~= amounts@.take(used as int));
            }
            proof {
                let names = vault_names(assets@.take(i as int));
                let name = asset_name(assets@[i as int]);
                assert(vault_names(assets@.take(i + 1)) == names.push(name));
                assert(names.push(name).drop_last() =~= names);
            }
            table.insert(assets[i].name(), amounts[used]);
            used += 1;
        } else {
            proof {
                lemma_table_without_amounts(assets@.take(i as int));
                lemma_table_without_amounts(assets@.take(i + 1));
            }
        }
        i += 1;
    }
    assert(assets@.take(assets.len() as int) =~= assets@);
    assert(amounts@.take(used as int) =~= amounts@);
    table
}

/// Without amounts the table is empty.
proof fn lemma_table_without_amounts(assets: Seq<RegisteredAsset>)
    ensures
        table_of(assets, Seq::<U256>::empty()) == Map::<Seq<char>, U256>::empty(),
{
}

/// Taking more assets into account never lowers the count of vault-backed
/// ones.
proof fn lemma_vault_count_grows(assets: Seq<RegisteredAsset>, i: int, j: int)
    requires
        0 <= i <= j <= assets.len(),
    ensures
        vault_count(assets.take(i)) <= vault_count(assets.take(j)),
    decreases j - i,
{
    if i < j {
        lemma_vault_count_grows(assets, i, j - 1);
        assert(assets.take(j).drop_last() =~= assets.take(j - 1));
    }
}

/// The ids of the vault-backed assets among `assets`, in order: the assets
/// whose balances are to be read.
pub fn vault_backed_ids(assets: &Vec<RegisteredAsset>) -> (ids: Vec<B256>)
    ensures
        ids@ == vault_ids(assets@),
        ids@.len() == vault_count(assets@),
{
    let mut ids: Vec<B256> = Vec::new();
    let mut i: usize = 0;
    while i < assets.len()
        invariant
            i <= assets.len(),
            ids@ == vault_ids(assets@.take(i as int)),
            ids@.len() == vault_count(assets@.take(i as int)),
        decreases assets.len() - i,
    {
        proof {
            assert(assets@.take(i + 1).drop_last() =~= assets@.take(i as int));
        }
        if assets[i].handler.is_vault_backed() {
            ids.push(assets[i].asset_id);
        }
        i += 1;
    }
    assert(assets@.take(assets.len() as int) =~= assets@);
    ids
}

} // verus!
