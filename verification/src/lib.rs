//! A fee-market simulator for a sharded blockchain: shard chains with an
//! EIP-1559-style base fee, cross-shard account migration, and users who
//! pick the shard on which they expect to pay the least.

pub mod account;
pub mod confirmation;
pub mod custom_types;
pub mod decimal;
pub mod emission;
pub mod environment;
pub mod function;
pub mod generation;
pub mod history;
pub mod json;
pub mod laws;
pub mod mempool;
pub mod ordering;
pub mod parameters;
pub mod pipeline;
pub mod probability;
pub mod receipt;
pub mod report;
pub mod rng;
pub mod shard;
pub mod shard_block;
pub mod shard_laws;
pub mod shard_state;
pub mod sharded_blockchain;
pub mod simulator;
pub mod strategy;
pub mod transaction;
pub mod transaction_record;
pub mod user;
pub mod user_graph;

pub use account::Account;
pub use custom_types::{Address, Data, Epoch, Gas, GasPrice, Nonce, Slot, TransactionHash, Wei};
pub use function::{Function, FunctionType, FunctionView};
pub use receipt::{Receipt, ReceiptView};
pub use transaction::{Transaction, TransactionAndReceipt, TransactionView};
pub use shard_block::{ShardBlock, ShardBlockView};
pub use shard_state::{ShardState, ShardStateView};
pub use shard::{Shard, ShardView, TransactionExecutionResult};
pub use sharded_blockchain::{ShardedBlockchain, ShardedBlockchainView};
pub use user_graph::{UserGraph, UserGraphEdge, UserGraphNode, UserGraphView};
pub use user::{StrategyType, User, UserView};
pub use environment::{Environment, EnvironmentView, StrategyPlan};
pub use simulator::Simulator;
pub use transaction_record::TransactionRecord;
pub use history::{HistoricGraph, HistoricTransfer};
pub use report::UserRecord;
