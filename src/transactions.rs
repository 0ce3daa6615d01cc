//! Swap records and their grouping into blocks.
use vstd::prelude::*;

verus! {

/// One swap on a decentralized exchange.
///
/// Token amounts are in the token's base units; USD values and the gas cost
/// are in micro-dollars (millionths of a US dollar).
#[derive(Debug, Clone, PartialEq)]
pub struct SwapTransaction {
    pub tx_hash: String,
    pub block_number: u64,
    pub timestamp: u64,
    /// Execution order within the block.
    pub tx_position_in_block: u32,
    pub from_address: String,
    pub token_in: String,
    pub token_out: String,
    pub amount_in: u64,
    pub amount_out: u64,
    pub gas_price: u64,
    pub pool_address: String,
    pub token_launch_block: u64,
    pub is_contract_caller: bool,
    pub usd_value_in: u64,
    pub usd_value_out: u64,
    pub gas_cost_usd: u64,
}

impl SwapTransaction {
    /// A copy of this record, equal to it field by field.
    pub fn duplicate(&self) -> (r: SwapTransaction)
        ensures
            r == *self,
    {
        SwapTransaction {
            tx_hash: self.tx_hash.clone(),
            block_number: self.block_number,
            timestamp: self.timestamp,
            tx_position_in_block: self.tx_position_in_block,
            from_address: self.from_address.clone(),
            token_in: self.token_in.clone(),
            token_out: self.token_out.clone(),
            amount_in: self.amount_in,
            amount_out: self.amount_out,
            gas_price: self.gas_price,
            pool_address: self.pool_address.clone(),
            token_launch_block: self.token_launch_block,
            is_contract_caller: self.is_contract_caller,
            usd_value_in: self.usd_value_in,
            usd_value_out: self.usd_value_out,
            gas_cost_usd: self.gas_cost_usd,
        }
    }
}

/// The transactions of one block, in execution order.
#[derive(Debug, Clone)]
pub struct BlockTransactions {
    pub block_number: u64,
    pub transactions: Vec<SwapTransaction>,
    /// A position that two transactions of the block share, if any; such a
    /// block has no well-defined execution order.
    pub duplicate_position: Option<u32>,
}

/// The records of `txs` that belong to block `b`, in their order in `txs`.
pub open spec fn in_block(txs: Seq<SwapTransaction>, b: u64) -> Seq<SwapTransaction> {
    txs.filter(|t: SwapTransaction| t.block_number == b)
}

/// Positions never decrease along `s`.
pub open spec fn sorted_by_position(s: Seq<SwapTransaction>) -> bool {
    forall|i: int, j: int|
        0 <= i < j < s.len() ==> s[i].tx_position_in_block <= s[j].tx_position_in_block
}

/// Positions strictly increase along `s`.
pub open spec fn strictly_ordered(s: Seq<SwapTransaction>) -> bool {
    forall|i: int, j: int|
        0 <= i < j < s.len() ==> s[i].tx_position_in_block < s[j].tx_position_in_block
}

/// `groups` partitions `txs` by block: one group per block number that
/// occurs, each holding exactly that block's records, ordered by position.
pub open spec fn is_block_partition(txs: Seq<SwapTransaction>, groups: Seq<BlockTransactions>) -> bool {
    &&& forall|g: int, h: int|
        0 <= g < h < groups.len() ==> groups[g].block_number != groups[h].block_number
    &&& forall|g: int|
        0 <= g < groups.len() ==> {
            &&& sorted_by_position(#[trigger] groups[g].transactions@)
            &&& groups[g].transactions@.len() > 0
            &&& groups[g].transactions@.to_multiset() == in_block(
                txs,
                groups[g].block_number,
            ).to_multiset()
        }
    &&& forall|i: int| 0 <= i < txs.len() ==> has_group(groups, #[trigger] txs[i].block_number)
}

/// The group's `duplicate_position` is `None` exactly when its positions
/// strictly increase, and otherwise a position held by two neighbours.
pub open spec fn flags_duplicates(group: BlockTransactions) -> bool {
    let s = group.transactions@;
    &&& group.duplicate_position is None <==> strictly_ordered(s)
    &&& group.duplicate_position matches Some(p) ==> exists|i: int|
        0 <= i < s.len() - 1 && #[trigger] s[i].tx_position_in_block == p
            && s[i + 1].tx_position_in_block == p
}

/// `groups` partitions `txs` by block, ordered by position within each
/// block, with every block whose positions repeat flagged.
pub open spec fn is_block_grouping(txs: Seq<SwapTransaction>, groups: Seq<BlockTransactions>) -> bool {
    &&& is_block_partition(txs, groups)
    &&& forall|g: int| 0 <= g < groups.len() ==> flags_duplicates(#[trigger] groups[g])
}

/// Some group of `groups` is for block `b`.
pub open spec fn has_group(groups: Seq<BlockTransactions>, b: u64) -> bool {
    exists|g: int| 0 <= g < groups.len() && groups[g].block_number == b
}

proof fn lemma_in_block_push(s: Seq<SwapTransaction>, t: SwapTransaction, b: u64)
    ensures
        in_block(s.push(t), b) == if t.block_number == b {
            in_block(s, b).push(t)
        } else {
            in_block(s, b)
        },
{
    s.lemma_filter_push(t, |x: SwapTransaction| x.block_number == b);
}

/// A block number that no group has holds no record of the grouped sequence.
proof fn lemma_no_group_no_records(s: Seq<SwapTransaction>, groups: Seq<BlockTransactions>, b: u64)
    requires
        is_block_partition(s, groups),
        forall|h: int| 0 <= h < groups.len() ==> groups[h].block_number != b,
    ensures
        in_block(s, b) == Seq::<SwapTransaction>::empty(),
{
    let f = in_block(s, b);
    if f.len() > 0 {
        let t = f[0];
        assert(f.contains(t));
        s.lemma_filter_contains_rev(|x: SwapTransaction| x.block_number == b, t);
        let k = choose|k: int| 0 <= k < s.len() && s[k] == t;
        assert(t.block_number == b) by {
            s.lemma_filter_pred(|x: SwapTransaction| x.block_number == b, 0);
        }
        assert(has_group(groups, s[k].block_number));
    }
    assert(f =~= Seq::<SwapTransaction>::empty());
}

/// Inserts `tx` into `list` after every record whose position is not
/// greater, keeping `list` ordered by position.
fn insert_by_position(list: &mut Vec<SwapTransaction>, tx: SwapTransaction)
    requires
        sorted_by_position(old(list)@),
    ensures
        sorted_by_position(final(list)@),
        final(list)@.to_multiset() == old(list)@.to_multiset().insert(tx),
        final(list)@.len() == old(list)@.len() + 1,
{
    let mut pos: usize = list.len();
    while pos > 0 && list[pos - 1].tx_position_in_block > tx.tx_position_in_block
        invariant
            pos <= list@.len(),
            forall|j: int| pos <= j < list@.len() ==> list@[j].tx_position_in_block > tx.tx_position_in_block,
        decreases pos,
    {
        pos = pos - 1;
    }
    let ghost s = list@;
    list.insert(pos, tx);
    proof {
        let a = s.subrange(0, pos as int);
        let b = s.subrange(pos as int, s.len() as int);
        assert(s =~= a + b);
        assert(list@ =~= a.push(tx) + b);
        vstd::seq_lib::lemma_multiset_commutative(a, b);
        vstd::seq_lib::lemma_multiset_commutative(a.push(tx), b);
        vstd::seq_lib::to_multiset_build(a, tx);
        assert(list@.to_multiset() =~= s.to_multiset().insert(tx));
        assert forall|i: int, j: int| 0 <= i < j < list@.len() implies
            list@[i].tx_position_in_block <= list@[j].tx_position_in_block by {
            if pos > 0 {
                assert(s[pos - 1].tx_position_in_block <= tx.tx_position_in_block);
            }
        }
    }
}

/// Partitions transactions by block number, each block's records ordered
/// by position.
fn partition_by_block(transactions: &[SwapTransaction]) -> (r: Vec<BlockTransactions>)
    ensures
        is_block_partition(transactions@, r@),
{
    let mut groups: Vec<BlockTransactions> = Vec::new();
    let mut i: usize = 0;
    while i < transactions.len()
        invariant
            i <= transactions@.len(),
            is_block_partition(transactions@.take(i as int), groups@),
        decreases transactions@.len() - i,
    {
        let tx = &transactions[i];
        let ghost prefix = transactions@.take(i as int);
        assert(transactions@.take(i + 1) =~= prefix.push(*tx));
        let mut g: usize = 0;
        while g < groups.len() && groups[g].block_number != tx.block_number
            invariant
                g <= groups@.len(),
                forall|h: int| 0 <= h < g ==> groups@[h].block_number != tx.block_number,
            decreases groups@.len() - g,
        {
            g = g + 1;
        }
        let ghost old_groups = groups@;
        if g < groups.len() {
            let mut slot = BlockTransactions { block_number: 0, transactions: Vec::new(), duplicate_position: None };
            groups.set_and_swap(g, &mut slot);
            insert_by_position(&mut slot.transactions, tx.duplicate());
            groups.set_and_swap(g, &mut slot);
        } else {
            let mut list: Vec<SwapTransaction> = Vec::new();
            list.push(tx.duplicate());
            proof {
                lemma_no_group_no_records(prefix, old_groups, tx.block_number);
                assert(list@ =~= in_block(prefix, tx.block_number).push(*tx));
            }
            groups.push(BlockTransactions { block_number: tx.block_number, transactions: list, duplicate_position: None });
        }
        proof {
            let next = transactions@.take(i + 1);
            assert(groups@.len() >= old_groups.len());
            assert forall|x: int, y: int| 0 <= x < y < groups@.len() implies
                groups@[x].block_number != groups@[y].block_number by {
                if y >= old_groups.len() {
                    assert(groups@[x] == old_groups[x]);
                } else if x != g && y != g {
                    assert(groups@[x] == old_groups[x]);
                    assert(groups@[y] == old_groups[y]);
                } else {
                    assert(groups@[x].block_number == old_groups[x].block_number);
                    assert(groups@[y].block_number == old_groups[y].block_number);
                }
            }
            assert forall|h: int| 0 <= h < groups@.len() implies {
                &&& sorted_by_position(#[trigger] groups@[h].transactions@)
                &&& groups@[h].transactions@.len() > 0
                &&& groups@[h].transactions@.to_multiset() == in_block(
                    next,
                    groups@[h].block_number,
                ).to_multiset()
            } by {
                let b = groups@[h].block_number;
                lemma_in_block_push(prefix, *tx, b);
                vstd::seq_lib::to_multiset_build(in_block(prefix, b), *tx);
                if h != g {
                    assert(groups@[h] == old_groups[h]);
                }
            }
            assert forall|k: int| 0 <= k < next.len() implies has_group(groups@, #[trigger] next[k].block_number) by {
                if k < i {
                    assert(next[k] == prefix[k]);
                    assert(has_group(old_groups, prefix[k].block_number));
                    let h0 = choose|h0: int| 0 <= h0 < old_groups.len() && old_groups[h0].block_number == prefix[k].block_number;
                    assert(groups@[h0].block_number == old_groups[h0].block_number);
                } else {
                    assert(groups@[g as int].block_number == tx.block_number);
                }
            }
        }
        i = i + 1;
    }
    assert(transactions@.take(transactions@.len() as int) =~= transactions@);
    groups
}

/// Groups transactions by block number, each block's records ordered by
/// position. A block in which two records share a position keeps both, in
/// an unspecified order, and is flagged by its `duplicate_position`.
pub fn group_transactions_by_block(transactions: &[SwapTransaction]) -> (r: Vec<BlockTransactions>)
    ensures
        is_block_grouping(transactions@, r@),
{
    let mut groups = partition_by_block(transactions);
    let mut g: usize = 0;
    while g < groups.len()
        invariant
            g <= groups@.len(),
            is_block_partition(transactions@, groups@),
            forall|h: int| 0 <= h < g ==> flags_duplicates(#[trigger] groups@[h]),
        decreases groups@.len() - g,
    {
        assert(sorted_by_position(groups@[g as int].transactions@));
        let duplicate = find_duplicate_position(groups[g].transactions.as_slice());
        let ghost old_groups = groups@;
        let mut slot = BlockTransactions { block_number: 0, transactions: Vec::new(), duplicate_position: None };
        groups.set_and_swap(g, &mut slot);
        slot.duplicate_position = duplicate;
        groups.set_and_swap(g, &mut slot);
        proof {
            assert forall|h: int| 0 <= h < groups@.len() implies groups@[h].block_number == old_groups[h].block_number
                && groups@[h].transactions@ == old_groups[h].transactions@ by {}
            assert forall|h: int| 0 <= h < g + 1 implies flags_duplicates(#[trigger] groups@[h]) by {
                if h < g {
                    assert(groups@[h] == old_groups[h]);
                }
            }
            assert forall|x: int, y: int| 0 <= x < y < groups@.len() implies
                groups@[x].block_number != groups@[y].block_number by {
                assert(old_groups[x].block_number != old_groups[y].block_number);
            }
            assert forall|h: int| 0 <= h < groups@.len() implies {
                &&& sorted_by_position(#[trigger] groups@[h].transactions@)
                &&& groups@[h].transactions@.len() > 0
                &&& groups@[h].transactions@.to_multiset() == in_block(
                    transactions@,
                    groups@[h].block_number,
                ).to_multiset()
            } by {
                assert(sorted_by_position(old_groups[h].transactions@));
            }
            assert forall|i: int| 0 <= i < transactions@.len() implies has_group(groups@, #[trigger] transactions@[i].block_number) by {
                assert(has_group(old_groups, transactions@[i].block_number));
                let k = choose|k: int| 0 <= k < old_groups.len() && old_groups[k].block_number == transactions@[i].block_number;
                assert(groups@[k].block_number == old_groups[k].block_number);
            }
        }
        g = g + 1;
    }
    groups
}

/// The position held by two neighbouring records of an ordered block, if
/// any: `None` exactly when positions strictly increase.
pub fn find_duplicate_position(block: &[SwapTransaction]) -> (r: Option<u32>)
    requires
        sorted_by_position(block@),
    ensures
        r is None <==> strictly_ordered(block@),
        r matches Some(p) ==> exists|i: int|
            0 <= i < block@.len() - 1 && #[trigger] block@[i].tx_position_in_block == p
                && block@[i + 1].tx_position_in_block == p,
{
    let mut i: usize = 1;
    while i < block.len()
        invariant
            sorted_by_position(block@),
            1 <= i,
            i <= block@.len() || block@.len() == 0,
            forall|a: int, b: int|
                0 <= a < b < i && b < block@.len() ==> block@[a].tx_position_in_block
                    < block@[b].tx_position_in_block,
        decreases block@.len() - i,
    {
        if block[i - 1].tx_position_in_block == block[i].tx_position_in_block {
            assert(!strictly_ordered(block@));
            return Some(block[i].tx_position_in_block);
        }
        proof {
            assert forall|a: int, b: int| 0 <= a < b < i + 1 && b < block@.len() implies
                block@[a].tx_position_in_block < block@[b].tx_position_in_block by {
                if b == i && a < i - 1 {
                    assert(block@[a].tx_position_in_block < block@[i - 1].tx_position_in_block);
                }
            }
        }
        i = i + 1;
    }
    None
}

} // verus!

verus! {

/// In a block whose positions strictly increase, index order and position
/// order agree.
pub proof fn lemma_index_order_is_position_order(s: Seq<SwapTransaction>, i: int, j: int)
    requires
        strictly_ordered(s),
        0 <= i < s.len(),
        0 <= j < s.len(),
    ensures
        i < j <==> s[i].tx_position_in_block < s[j].tx_position_in_block,
{
    if j < i {
        assert(s[j].tx_position_in_block < s[i].tx_position_in_block);
    }
}

} // verus!
