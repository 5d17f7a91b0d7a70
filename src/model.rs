//! Records served by the query side of the indexer, and their small conversions.
use vstd::prelude::*;
use crate::text::{split_on, trim};

verus! {

/// Where a page sits among all pages of a query.
#[derive(Debug, Clone, Copy, PartialEq, Eq, Structural)]
pub struct PageInfo {
    pub page: i64,
    pub count: i64,
    pub total_page: i64,
    pub total_count: i64,
}

impl PageInfo {
    pub fn new(page: i64, count: i64, total_page: i64, total_count: i64) -> (r: PageInfo)
        ensures
            r == (PageInfo { page, count, total_page, total_count }),
    {
        PageInfo { page, count, total_page, total_count }
    }
}

/// One page of records as a query returns it.
#[derive(Debug)]
pub struct PaginatedRecord<T> {
    pub page: i64,
    pub count: i64,
    pub total_page: i64,
    pub total_count: i64,
    pub records: Vec<T>,
}

/// A stored block.
#[derive(Debug)]
pub struct EthereumBlock {
    pub ethereum_blocks_id: i64,
    pub author: Option<String>,
    pub base_fee_per_gas: Option<String>,
    pub block_number: Option<String>,
    pub block_size: Option<String>,
    pub block_timestamp: Option<String>,
    pub difficulty: Option<String>,
    pub extra_data: Option<String>,
    pub gas_limit: Option<String>,
    pub gas_used: Option<String>,
    pub hash: Option<String>,
    pub logs_bloom: Option<String>,
    pub miner: Option<String>,
    pub nonce: Option<String>,
    pub parent_hash: Option<String>,
    pub receipt_root: Option<String>,
    pub sha3_uncles: Option<String>,
    pub state_root: Option<String>,
    pub total_difficulty: Option<String>,
    pub transaction_root: Option<String>,
    pub uncles: Option<String>,
    pub txn: i64,
}

/// One page of stored blocks.
#[derive(Debug)]
pub struct PaginatedEthereumBlock {
    pub page_info: PageInfo,
    pub records: Vec<EthereumBlock>,
}

/// A stored transaction with its receipt fields.
#[derive(Debug)]
pub struct EthereumTransaction {
    pub block_hash: Option<String>,
    pub block_number: Option<String>,
    pub chain_id: Option<String>,
    pub gas: Option<String>,
    pub gas_price: Option<String>,
    pub hash: Option<String>,
    pub max_fee_per_gas: Option<String>,
    pub nonce: Option<String>,
    pub public_key: Option<String>,
    pub tx_from: Option<String>,
    pub tx_input: Option<String>,
    pub tx_to: Option<String>,
    pub tx_type: Option<String>,
    pub tx_value: Option<String>,
    pub block_timestamp: Option<String>,
    pub contract_address: Option<String>,
    pub cumulative_gas_used: Option<String>,
    pub effective_gas_price: Option<String>,
    pub gas_used: Option<String>,
    pub status: Option<String>,
}

/// One page of stored transactions.
#[derive(Debug)]
pub struct PaginatedEthereumTransaction {
    pub page_info: PageInfo,
    pub records: Vec<EthereumTransaction>,
}

/// A stored transaction receipt.
#[derive(Debug)]
pub struct EthereumTxReceipt {
    pub ethereum_transactions_id: i64,
    pub access_list: Option<String>,
    pub block_hash: Option<String>,
    pub block_number: Option<String>,
    pub chain_id: Option<String>,
    pub creates: Option<String>,
    pub gas: Option<String>,
    pub gas_price: Option<String>,
    pub hash: Option<String>,
    pub max_fee_per_gas: Option<String>,
    pub nonce: Option<String>,
    pub public_key: Option<String>,
    pub r: Option<String>,
    pub s: Option<String>,
    pub standard_v: Option<String>,
    pub transaction_index: Option<String>,
    pub tx_from: Option<String>,
    pub tx_input: Option<String>,
    pub tx_to: Option<String>,
    pub tx_type: Option<String>,
    pub tx_value: Option<String>,
    pub v: Option<String>,
}

/// A stored receipt log; `topics` holds the list as text.
#[derive(Debug)]
pub struct EthereumLog {
    pub ethereum_logs_id: i64,
    pub address: Option<String>,
    pub block_hash: Option<String>,
    pub block_number: Option<String>,
    pub log_data: Option<String>,
    pub log_index: Option<String>,
    pub removed: Option<bool>,
    pub topics: Option<String>,
    pub transaction_hash: Option<String>,
    pub transaction_index: Option<String>,
}

/// A receipt log as served, with its topics as a list.
#[derive(Debug)]
pub struct EthereumReceiptLog {
    pub address: Option<String>,
    pub block_hash: Option<String>,
    pub block_number: Option<String>,
    pub log_data: Option<String>,
    pub log_index: Option<String>,
    pub removed: Option<bool>,
    pub topics: Option<Vec<String>>,
    pub transaction_hash: Option<String>,
    pub transaction_index: Option<String>,
}

/// Query parameters for a page of transactions.
#[derive(Debug)]
pub struct RequestTxsQuery {
    pub number: Option<u64>,
    pub address: Option<String>,
    pub page: i64,
    pub count: i64,
}

/// Headline figures of the chain.
#[derive(Debug)]
pub struct BoardSummary {
    pub latest_block_number: Option<String>,
    pub latest_block_gas_used: Option<String>,
    pub latest_block_gas_limit: Option<String>,
    pub total_transaction_count: i64,
}

/// Query parameters for one block.
#[derive(Debug)]
pub struct RequestBlockQuery {
    pub number: Option<u64>,
    pub hash: Option<String>,
}

/// A summary of a layer-2 transaction batch.
#[derive(Debug)]
pub struct OptimismTxBatchSummary {
    pub batch_index: Option<String>,
    pub l1_tx_hash: Option<String>,
    pub batch_size: Option<String>,
    pub batch_timestamp: Option<String>,
}

/// A layer-2 transaction batch.
#[derive(Debug)]
pub struct OptimismTxBatch {
    pub optimism_tx_batches_id: i64,
    pub batch_index: Option<String>,
    pub batch_timestamp: Option<String>,
    pub batch_size: Option<String>,
    pub l1_tx_hash: Option<String>,
    pub l1_block_number: Option<String>,
    pub batch_root: Option<String>,
    pub previous_total_elements: Option<String>,
    pub extra_data: Option<String>,
    pub submitter: Option<String>,
}

/// One page of transaction batches.
#[derive(Debug)]
pub struct PaginatedOptimismTxBatch {
    pub page_info: PageInfo,
    pub records: Vec<OptimismTxBatch>,
}

/// A summary of a layer-2 transaction.
#[derive(Debug)]
pub struct OptimismTxSummary {
    pub tx_hash: Option<String>,
    pub from_address: Option<String>,
    pub to_address: Option<String>,
    pub value: Option<String>,
    pub tx_timestamp: Option<String>,
}

/// A layer-2 transaction.
#[derive(Debug)]
pub struct OptimismTx {
    pub optimism_txs_id: i64,
    pub index: Option<String>,
    pub batch_index: Option<String>,
    pub block_number: Option<String>,
    pub tx_timestamp: Option<String>,
    pub gas_limit: Option<String>,
    pub target: Option<String>,
    pub origin: Option<String>,
    pub data: Option<String>,
    pub queue_origin: Option<String>,
    pub value: Option<String>,
    pub queue_index: Option<String>,
    pub decoded: Option<String>,
    pub confirmed: Option<bool>,
}

/// A layer-2 block transaction.
#[derive(Debug)]
pub struct OptimismBlockTx {
    pub optimism_block_txs_id: i64,
    pub block_hash: Option<String>,
    pub block_number: Option<String>,
    pub from_address: Option<String>,
    pub gas: Option<String>,
    pub gas_price: Option<String>,
    pub hash: Option<String>,
    pub index: Option<String>,
    pub tx_input: Option<String>,
    pub l1_block_number: Option<String>,
    pub l1_timestamp: Option<String>,
    pub l1_tx_origin: Option<String>,
    pub nonce: Option<String>,
    pub queue_index: Option<String>,
    pub queue_origin: Option<String>,
    pub raw_tx: Option<String>,
    pub to_address: Option<String>,
    pub tx_index: Option<String>,
    pub tx_type: Option<String>,
    pub value: Option<String>,
}

/// One page of layer-2 block transactions.
#[derive(Debug)]
pub struct PaginatedOptimismBlockTx {
    pub page_info: PageInfo,
    pub records: Vec<OptimismBlockTx>,
}

/// A layer-2 state batch.
#[derive(Debug)]
pub struct OptimismStateBatch {
    pub optimism_state_batches_id: i64,
    pub batch_index: Option<String>,
    pub batch_timestamp: Option<String>,
    pub batch_size: Option<String>,
    pub l1_tx_hash: Option<String>,
    pub l1_block_number: Option<String>,
    pub batch_root: Option<String>,
    pub previous_total_elements: Option<String>,
    pub extra_data: Option<String>,
    pub submitter: Option<String>,
}

/// One page of state batches.
#[derive(Debug)]
pub struct PaginatedOptimismStateBatch {
    pub page_info: PageInfo,
    pub records: Vec<OptimismStateBatch>,
}

/// A layer-2 state root.
#[derive(Debug)]
pub struct OptimismStateRoot {
    pub optimism_state_roots_id: i64,
    pub index: Option<String>,
    pub batch_index: Option<String>,
    pub value: Option<String>,
    pub confirmed: Option<bool>,
}

/// A deposit from layer 1 to layer 2.
#[derive(Debug)]
pub struct OptimismL1ToL2Tx {
    pub l1_block_number: Option<String>,
    pub l1_tx_hash: Option<String>,
    pub l2_tx_hash: Option<String>,
}

pub open spec fn is_list_char(c: char) -> bool {
    c == '[' || c == ']' || c == '"' || c == ' '
}

/// `s` without brackets, double quotes and spaces.
pub open spec fn strip_list_chars(s: Seq<char>) -> Seq<char>
    decreases s.len(),
{
    if s.len() == 0 {
        Seq::empty()
    } else if is_list_char(s.last()) {
        strip_list_chars(s.drop_last())
    } else {
        strip_list_chars(s.drop_last()).push(s.last())
    }
}

/// The items of a list written as text (`["a", "b"]` gives `a` and `b`): brackets,
/// double quotes and spaces are dropped, the rest is split at commas and trimmed.
pub fn convert_str_to_vec(vec_str: String) -> (r: Vec<String>)
    ensures
        r@.len() == split_on(strip_list_chars(vec_str@), ',').len(),
        forall|k: int|
            0 <= k < r@.len() ==> (#[trigger] r@[k])@ == trim(split_on(strip_list_chars(vec_str@), ',')[k]),
{
    let cs = crate::text::chars_of(vec_str.as_str());
    let mut kept: Vec<char> = Vec::new();
    let mut i: usize = 0;
    assert(cs@.subrange(0, 0) =~= Seq::<char>::empty());
    while i < cs.len()
        invariant
            cs@ == vec_str@,
            i <= cs@.len(),
            kept@ == strip_list_chars(cs@.subrange(0, i as int)),
        decreases cs@.len() - i,
    {
        let c = cs[i];
        assert(cs@.subrange(0, i + 1).drop_last() =~= cs@.subrange(0, i as int));
        if !(c == '[' || c == ']' || c == '"' || c == ' ') {
            kept.push(c);
        }
        i = i + 1;
    }
    assert(cs@.subrange(0, i as int) =~= vec_str@);
    let parts = crate::text::split_chars(&kept, ',');
    let mut r: Vec<String> = Vec::new();
    let mut k: usize = 0;
    while k < parts.len()
        invariant
            k <= parts@.len(),
            parts@.len() == split_on(strip_list_chars(vec_str@), ',').len(),
            forall|j: int| 0 <= j < parts@.len() ==> #[trigger] parts@[j]@ == split_on(strip_list_chars(vec_str@), ',')[j],
            r@.len() == k,
            forall|j: int| 0 <= j < k ==> (#[trigger] r@[j])@ == trim(split_on(strip_list_chars(vec_str@), ',')[j]),
        decreases parts@.len() - k,
    {
        let (a, b) = crate::text::trim_bounds(&parts[k], 0, parts[k].len());
        assert(parts@[k as int]@.subrange(0, parts@[k as int]@.len() as int) =~= parts@[k as int]@);
        r.push(crate::text::string_of(&parts[k], a, b));
        k = k + 1;
    }
    r
}

impl EthereumReceiptLog {
    /// The served form of a stored log: the same fields, with the topics text turned
    /// into a list (see `convert_str_to_vec`).
    pub fn from(log: EthereumLog) -> (r: Self)
        ensures
            r.address == log.address,
            r.block_hash == log.block_hash,
            r.block_number == log.block_number,
            r.log_data == log.log_data,
            r.log_index == log.log_index,
            r.removed == log.removed,
            r.transaction_hash == log.transaction_hash,
            r.transaction_index == log.transaction_index,
            log.topics is None ==> r.topics is None,
            log.topics matches Some(t) ==> r.topics matches Some(ts) && ts@.len() == split_on(
                strip_list_chars(t@),
                ',',
            ).len() && forall|k: int|
                0 <= k < ts@.len() ==> (#[trigger] ts@[k])@ == trim(split_on(strip_list_chars(t@), ',')[k]),
    {
        let topics = match log.topics {
            Some(t) => Some(convert_str_to_vec(t)),
            None => None,
        };
        Self {
            address: log.address,
            block_hash: log.block_hash,
            block_number: log.block_number,
            log_data: log.log_data,
            log_index: log.log_index,
            removed: log.removed,
            topics,
            transaction_hash: log.transaction_hash,
            transaction_index: log.transaction_index,
        }
    }
}

impl BoardSummary {
    /// The headline figures taken from the latest block.
    pub fn new(latest_block: EthereumBlock, total_transaction_count: i64) -> (r: Self)
        ensures
            r.latest_block_number == latest_block.block_number,
            r.latest_block_gas_used == latest_block.gas_used,
            r.latest_block_gas_limit == latest_block.gas_limit,
            r.total_transaction_count == total_transaction_count,
    {
        Self {
            latest_block_number: latest_block.block_number,
            latest_block_gas_used: latest_block.gas_used,
            latest_block_gas_limit: latest_block.gas_limit,
            total_transaction_count,
        }
    }
}

impl PaginatedEthereumBlock {
    /// The served form of a page of records.
    pub fn new(paginated: PaginatedRecord<EthereumBlock>) -> (r: Self)
        ensures
            r.page_info == (PageInfo {
                page: paginated.page,
                count: paginated.count,
                total_page: paginated.total_page,
                total_count: paginated.total_count,
            }),
            r.records == paginated.records,
    {
        Self {
            page_info: PageInfo::new(
                paginated.page,
                paginated.count,
                paginated.total_page,
                paginated.total_count,
            ),
            records: paginated.records,
        }
    }
}

impl PaginatedEthereumTransaction {
    /// The served form of a page of records.
    pub fn new(paginated: PaginatedRecord<EthereumTransaction>) -> (r: Self)
        ensures
            r.page_info == (PageInfo {
                page: paginated.page,
                count: paginated.count,
                total_page: paginated.total_page,
                total_count: paginated.total_count,
            }),
            r.records == paginated.records,
    {
        Self {
            page_info: PageInfo::new(
                paginated.page,
                paginated.count,
                paginated.total_page,
                paginated.total_count,
            ),
            records: paginated.records,
        }
    }
}

impl PaginatedOptimismTxBatch {
    /// The served form of a page of records.
    pub fn new(paginated: PaginatedRecord<OptimismTxBatch>) -> (r: Self)
        ensures
            r.page_info == (PageInfo {
                page: paginated.page,
                count: paginated.count,
                total_page: paginated.total_page,
                total_count: paginated.total_count,
            }),
            r.records == paginated.records,
    {
        Self {
            page_info: PageInfo::new(
                paginated.page,
                paginated.count,
                paginated.total_page,
                paginated.total_count,
            ),
            records: paginated.records,
        }
    }
}

impl PaginatedOptimismBlockTx {
    /// The served form of a page of records.
    pub fn new(paginated: PaginatedRecord<OptimismBlockTx>) -> (r: Self)
        ensures
            r.page_info == (PageInfo {
                page: paginated.page,
                count: paginated.count,
                total_page: paginated.total_page,
                total_count: paginated.total_count,
            }),
            r.records == paginated.records,
    {
        Self {
            page_info: PageInfo::new(
                paginated.page,
                paginated.count,
                paginated.total_page,
                paginated.total_count,
            ),
            records: paginated.records,
        }
    }
}

impl PaginatedOptimismStateBatch {
    /// The served form of a page of records.
    pub fn new(paginated: PaginatedRecord<OptimismStateBatch>) -> (r: Self)
        ensures
            r.page_info == (PageInfo {
                page: paginated.page,
                count: paginated.count,
                total_page: paginated.total_page,
                total_count: paginated.total_count,
            }),
            r.records == paginated.records,
    {
        Self {
            page_info: PageInfo::new(
                paginated.page,
                paginated.count,
                paginated.total_page,
                paginated.total_count,
            ),
            records: paginated.records,
        }
    }
}

} // verus!
