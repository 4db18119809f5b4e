//! Postage batches on chain: the contracts of each network, and what the
//! commands that create, top up, dilute and show a batch do, step by step.
//!
//! A command is a [`BatchFlow`]. It says what to read or send next, and takes
//! the reply; the caller talks to the chain.

use vstd::arithmetic::power2::pow2;
use vstd::prelude::*;
use vstd::string::StringSliceAdditionalSpecFns;

use crate::amount::{
    at_least, bzz_text, can_cut, decimal_amount, format_bzz, parse_bzz, total_amount, units_of,
    Amount, AmountError,
};
use crate::bytes::{same_bytes, zeros, Bytes20, Bytes32};
use crate::hashing::{keccak, keccak256};
use crate::hexes::{
    all_hex, hex_0x, parse_account, parse_b256, reads32, reads_account, show_0x, spells, strip_0x,
    strip_either, HexFault, ParseError,
};
use crate::text::{dec, decimal, lines_of, truth, truth_text};

verus! {

/// The networks that batches live on.
#[derive(Clone, Copy, Debug, PartialEq, Eq, Structural)]
pub enum Network {
    /// Gnosis Chain, the mainnet of Swarm.
    Gnosis,
    /// The Sepolia testnet.
    Sepolia,
}

/// The contracts of a network and its chain id.
#[derive(Clone, Copy, Debug, PartialEq, Eq)]
pub struct ChainAddrs {
    /// The PostageStamp contract.
    pub postage: Bytes20,
    /// The BZZ token.
    pub bzz: Bytes20,
    /// The chain id.
    pub chain_id: u64,
    /// The block that the PostageStamp contract was deployed in.
    pub postage_deploy_block: u64,
}

/// The PostageStamp contract on Gnosis Chain.
pub open spec fn gnosis_postage() -> Seq<u8> {
    seq![
        0x45u8, 0xa1, 0x50, 0x23, 0x82, 0x54, 0x1c, 0xd6, 0x10, 0xcc,
        0x90, 0x68, 0xe8, 0x87, 0x27, 0x42, 0x6b, 0x69, 0x62, 0x93,
    ]
}

/// The BZZ token on Gnosis Chain.
pub open spec fn gnosis_bzz() -> Seq<u8> {
    seq![
        0xdbu8, 0xf3, 0xea, 0x6f, 0x5b, 0xee, 0x45, 0xc0, 0x22, 0x55,
        0xb2, 0xc2, 0x6a, 0x16, 0xf3, 0x00, 0x50, 0x2f, 0x68, 0xda,
    ]
}

/// The PostageStamp contract on Sepolia.
pub open spec fn sepolia_postage() -> Seq<u8> {
    seq![
        0xcdu8, 0xfd, 0xc3, 0x75, 0x2c, 0xaa, 0xa8, 0x26, 0xfe, 0x62,
        0x53, 0x1e, 0x00, 0x00, 0xc4, 0x05, 0x46, 0xec, 0x56, 0xa6,
    ]
}

/// The BZZ token on Sepolia.
pub open spec fn sepolia_bzz() -> Seq<u8> {
    seq![
        0x54u8, 0x3d, 0xdb, 0x01, 0xba, 0x47, 0xac, 0xb1, 0x1d, 0xe3,
        0x48, 0x91, 0xcd, 0x86, 0xb6, 0x75, 0xf0, 0x48, 0x40, 0xdb,
    ]
}

/// `nectar_contracts::mainnet::POSTAGE_STAMP`: its address and its block.
#[verifier::external_body]
fn mainnet_postage() -> (r: (Bytes20, u64))
    ensures
        r.0@ == gnosis_postage(),
        r.1 == 31305656,
{
    let deployed = nectar_contracts::mainnet::POSTAGE_STAMP;
    (Bytes20 { bytes: deployed.address.into_array() }, deployed.block)
}

/// `nectar_contracts::mainnet::BZZ_TOKEN`: its address.
#[verifier::external_body]
fn mainnet_bzz() -> (r: Bytes20)
    ensures
        r@ == gnosis_bzz(),
{
    Bytes20 { bytes: nectar_contracts::mainnet::BZZ_TOKEN.address.into_array() }
}

/// `nectar_contracts::testnet::POSTAGE_STAMP`: its address and its block.
#[verifier::external_body]
fn testnet_postage() -> (r: (Bytes20, u64))
    ensures
        r.0@ == sepolia_postage(),
        r.1 == 6596277,
{
    let deployed = nectar_contracts::testnet::POSTAGE_STAMP;
    (Bytes20 { bytes: deployed.address.into_array() }, deployed.block)
}

/// `nectar_contracts::testnet::BZZ_TOKEN`: its address.
#[verifier::external_body]
fn testnet_bzz() -> (r: Bytes20)
    ensures
        r@ == sepolia_bzz(),
{
    Bytes20 { bytes: nectar_contracts::testnet::BZZ_TOKEN.address.into_array() }
}

/// The entry of the address book for a network.
pub open spec fn address_book(network: Network, a: ChainAddrs) -> bool {
    match network {
        Network::Gnosis => a.postage@ == gnosis_postage() && a.bzz@ == gnosis_bzz() && a.chain_id
            == 100 && a.postage_deploy_block == 31305656,
        Network::Sepolia => a.postage@ == sepolia_postage() && a.bzz@ == sepolia_bzz()
            && a.chain_id == 11155111 && a.postage_deploy_block == 6596277,
    }
}

/// The address book.
pub fn addrs_for(network: Network) -> (a: ChainAddrs)
    ensures
        address_book(network, a),
{
    match network {
        Network::Gnosis => {
            let (postage, block) = mainnet_postage();
            ChainAddrs { postage, bzz: mainnet_bzz(), chain_id: 100, postage_deploy_block: block }
        },
        Network::Sepolia => {
            let (postage, block) = testnet_postage();
            ChainAddrs {
                postage,
                bzz: testnet_bzz(),
                chain_id: 11155111,
                postage_deploy_block: block,
            }
        },
    }
}

/// A log of a contract: its topics and its data.
#[derive(Clone, Debug)]
pub struct Log {
    pub topics: Vec<Bytes32>,
    pub data: Vec<u8>,
}

/// A log, as contracts see it.
pub struct LogView {
    pub topics: Seq<Seq<u8>>,
    pub data: Seq<u8>,
}

impl View for Log {
    type V = LogView;

    open spec fn view(&self) -> LogView {
        LogView { topics: self.topics@.map_values(|t: Bytes32| t@), data: self.data@ }
    }
}

/// The views of a list of logs.
pub open spec fn logs_of(v: Seq<Log>) -> Seq<LogView> {
    v.map_values(|l: Log| l@)
}

/// The signature of the event that a new batch leaves behind.
pub open spec fn created_event() -> Seq<u8> {
    vstd::utf8::encode_utf8(
        "BatchCreated(bytes32,uint256,uint256,address,uint8,uint8,bool)"@,
    )
}

/// The batch and its owner that a log tells of, where it is the event of a new
/// batch: two topics, the first of which is the hash of the event's signature
/// and the second the batch; and six words of data, the third of which ends in
/// the owner.
pub open spec fn created(log: LogView) -> Option<(Seq<u8>, Seq<u8>)> {
    if log.topics.len() == 2 && log.topics[0] == keccak(created_event()) && log.data.len() >= 192 {
        Some((log.topics[1], log.data.subrange(76, 96)))
    } else {
        None
    }
}

/// The owner in the data of the event of a new batch, by
/// `alloy_sol_types::SolType::abi_decode_sequence` on the event's data types.
///
/// Trusted: six static words are decoded without validation, so that any data
/// of at least 192 bytes is accepted, and the owner is the last 20 bytes of the
/// third word.
#[verifier::external_body]
fn decode_owner(data: &[u8]) -> (r: Option<Bytes20>)
    ensures
        match r {
            Some(owner) => data@.len() >= 192 && owner@ == data@.subrange(76, 96),
            None => data@.len() < 192,
        },
{
    let decoded = <(
        alloy_sol_types::sol_data::Uint<256>,
        alloy_sol_types::sol_data::Uint<256>,
        alloy_sol_types::sol_data::Address,
        alloy_sol_types::sol_data::Uint<8>,
        alloy_sol_types::sol_data::Uint<8>,
        alloy_sol_types::sol_data::Bool,
    ) as alloy_sol_types::SolType>::abi_decode_sequence(data);
    decoded.ok().map(|fields| Bytes20 { bytes: fields.2.into_array() })
}

/// The hash by which logs of new batches are found.
pub fn created_topic() -> (t: Bytes32)
    ensures
        t@ == keccak(created_event()),
{
    keccak256("BatchCreated(bytes32,uint256,uint256,address,uint8,uint8,bool)".as_bytes())
}

/// Reads a log as the event of a new batch: the batch and its owner.
pub fn decode_created(log: &Log) -> (r: Option<(Bytes32, Bytes20)>)
    ensures
        match r {
            Some((id, owner)) => created(log@) == Some((id@, owner@)),
            None => created(log@) is None,
        },
{
    proof {
        assert(log@.topics.len() == log.topics@.len());
    }
    if log.topics.len() != 2 {
        return None;
    }
    let topic = created_topic();
    assert(log@.topics[0] == log.topics@[0]@ && log@.topics[1] == log.topics@[1]@);
    if !same_bytes(log.topics[0].bytes.as_slice(), topic.bytes.as_slice()) {
        return None;
    }
    match decode_owner(log.data.as_slice()) {
        Some(owner) => Some((log.topics[1], owner)),
        None => None,
    }
}

/// The batch that the first event of a new batch among `logs` tells of.
pub open spec fn created_batch(logs: Seq<LogView>) -> Option<Seq<u8>>
    decreases logs.len(),
{
    if logs.len() == 0 {
        None
    } else {
        match created(logs[0]) {
            Some((id, _)) => Some(id),
            None => created_batch(logs.skip(1)),
        }
    }
}

/// Finds the new batch among the logs of a transaction.
pub fn find_created(logs: &Vec<Log>) -> (r: Option<Bytes32>)
    ensures
        match r {
            Some(id) => created_batch(logs_of(logs@)) == Some(id@),
            None => created_batch(logs_of(logs@)) is None,
        },
{
    let mut i: usize = 0;
    let ghost all = logs_of(logs@);
    assert(all.skip(0) =~= all);
    while i < logs.len()
        invariant
            i <= logs.len(),
            all == logs_of(logs@),
            created_batch(all) == created_batch(all.skip(i as int)),
        decreases logs.len() - i,
    {
        proof {
            assert(all.skip(i as int)[0] == logs@[i as int]@);
            assert(all.skip(i as int).skip(1) =~= all.skip(i + 1));
        }
        match decode_created(&logs[i]) {
            Some((id, _)) => {
                return Some(id);
            },
            None => {},
        }
        i = i + 1;
    }
    None
}

/// The bytes of `abi.encode(sender, nonce)`.
pub open spec fn encoded_pair(sender: Seq<u8>, nonce: Seq<u8>) -> Seq<u8> {
    zeros(12) + sender + nonce
}

/// `alloy_sol_types::SolValue::abi_encode` on an address and 32 bytes.
///
/// Trusted: the address is filled up on the left with twelve zero bytes, and
/// the 32 bytes follow.
#[verifier::external_body]
fn encode_pair(sender: &Bytes20, nonce: &Bytes32) -> (v: Vec<u8>)
    ensures
        v@ == encoded_pair(sender@, nonce@),
{
    let sender = alloy_primitives::Address::from(sender.bytes);
    let nonce = alloy_primitives::B256::from(nonce.bytes);
    alloy_sol_types::SolValue::abi_encode(&(sender, nonce))
}

/// The id that a new batch is expected to get: the hash of its sender and its
/// nonce.
pub open spec fn expected_id(sender: Seq<u8>, nonce: Seq<u8>) -> Seq<u8> {
    keccak(encoded_pair(sender, nonce))
}

/// Computes the id that a new batch is expected to get.
pub fn local_batch_id(sender: &Bytes20, nonce: &Bytes32) -> (id: Bytes32)
    ensures
        id@ == expected_id(sender@, nonce@),
{
    keccak256(encode_pair(sender, nonce).as_slice())
}

/// `alloy_primitives::B256::random`: 32 bytes of chance, of which nothing is
/// said.
#[verifier::external_body]
fn random_nonce() -> (nonce: Bytes32) {
    Bytes32 { bytes: alloy_primitives::B256::random().0 }
}

/// A batch as the contract has it.
#[derive(Clone, Copy, Debug, PartialEq, Eq)]
pub struct BatchState {
    /// The owner; zeros where there is no such batch.
    pub owner: Bytes20,
    pub depth: u8,
    pub bucket_depth: u8,
    pub immutable: bool,
    /// The block in which it last changed.
    pub last_updated_block: Amount,
}

/// Whether an address is that of nobody.
pub open spec fn is_nobody(owner: Seq<u8>) -> bool {
    owner == zeros(20)
}

pub(crate) fn nobody(owner: &Bytes20) -> (r: bool)
    ensures
        r == is_nobody(owner@),
{
    let zero: [u8; 20] = [0u8; 20];
    assert(zero@ =~= zeros(20));
    same_bytes(owner.bytes.as_slice(), zero.as_slice())
}

/// What a command does with a batch.
#[derive(Clone, Copy, Debug, PartialEq, Eq)]
pub enum Purpose {
    /// Creates one.
    Create {
        owner: Bytes20,
        per_chunk: Amount,
        depth: u8,
        bucket_depth: u8,
        nonce: Bytes32,
        immutable: bool,
    },
    /// Adds to the balance of one.
    TopUp { batch_id: Bytes32, per_chunk: Amount },
    /// Gives one a greater depth.
    Dilute { batch_id: Bytes32, depth: u8 },
    /// Shows one.
    Info { batch_id: Bytes32 },
}

/// Where a command stands.
#[derive(Clone, Copy, Debug, PartialEq, Eq, Structural)]
pub enum FlowStage {
    /// It waits for the chain id.
    ChainId,
    /// It waits for the batch's state.
    Batch,
    /// It waits for the allowance.
    Allowance,
    /// It waits for the receipt of the approval.
    Approval,
    /// It waits for the receipt of its transaction.
    Receipt,
    /// It waits for the batch's remaining balance.
    Remaining,
    /// It is over.
    Over,
}

/// The transactions that a command sends.
#[derive(Clone, Copy, Debug, PartialEq, Eq, Structural)]
pub enum Transaction {
    Approve,
    CreateBatch,
    TopUp,
    IncreaseDepth,
}

/// The words for a transaction.
pub open spec fn transaction_name(t: Transaction) -> Seq<char> {
    match t {
        Transaction::Approve => "approve"@,
        Transaction::CreateBatch => "createBatch"@,
        Transaction::TopUp => "topUp"@,
        Transaction::IncreaseDepth => "increaseDepth"@,
    }
}

fn transaction_text(t: Transaction) -> (s: &'static str)
    ensures
        s@ == transaction_name(t),
{
    match t {
        Transaction::Approve => "approve",
        Transaction::CreateBatch => "createBatch",
        Transaction::TopUp => "topUp",
        Transaction::IncreaseDepth => "increaseDepth",
    }
}

/// Why a command failed.
#[derive(Clone, Copy, Debug, PartialEq, Eq)]
pub enum ChainError {
    /// The node is on another chain than the network's.
    WrongChain { connected: u64, expected: u64 },
    /// There is no such batch.
    NoSuchBatch { batch_id: Bytes32 },
    /// A transaction was reverted.
    Reverted { what: Transaction, tx: Bytes32 },
    /// The receipt tells of no new batch.
    NoBatchCreated,
    /// A reply came that was not asked for.
    OutOfStep,
}

/// The words for a failed command.
pub open spec fn chain_message(e: ChainError) -> Seq<char> {
    match e {
        ChainError::WrongChain { connected, expected } => "RPC chain id "@ + dec(connected as nat)
            + " does not match the selected network (expected "@ + dec(expected as nat) + ")"@,
        ChainError::NoSuchBatch { batch_id } => "batch "@ + hex_0x(batch_id@) + " does not exist"@,
        ChainError::Reverted { what, tx } => transaction_name(what) + " transaction reverted (tx "@
            + hex_0x(tx@) + ")"@,
        ChainError::NoBatchCreated => "BatchCreated event not found in transaction receipt"@,
        ChainError::OutOfStep => "unexpected reply from the chain"@,
    }
}

impl ChainError {
    /// The words for the error.
    pub fn message(&self) -> (s: String)
        ensures
            s@ == chain_message(*self),
    {
        let mut s = String::new();
        match *self {
            ChainError::WrongChain { connected, expected } => {
                s.append("RPC chain id ");
                s.append(decimal(connected).as_str());
                s.append(" does not match the selected network (expected ");
                s.append(decimal(expected).as_str());
                s.append(")");
            },
            ChainError::NoSuchBatch { batch_id } => {
                s.append("batch ");
                s.append(show_0x(batch_id.bytes.as_slice()).as_str());
                s.append(" does not exist");
            },
            ChainError::Reverted { what, tx } => {
                s.append(transaction_text(what));
                s.append(" transaction reverted (tx ");
                s.append(show_0x(tx.bytes.as_slice()).as_str());
                s.append(")");
            },
            ChainError::NoBatchCreated => {
                s.append("BatchCreated event not found in transaction receipt");
            },
            ChainError::OutOfStep => {
                s.append("unexpected reply from the chain");
            },
        }
        assert(s@ =~= chain_message(*self));
        s
    }
}

/// Refuses a chain other than the network's.
pub fn verify_chain_id(addrs: &ChainAddrs, connected: u64) -> (r: Result<(), ChainError>)
    ensures
        match r {
            Ok(()) => connected == addrs.chain_id,
            Err(e) => connected != addrs.chain_id && e == (ChainError::WrongChain {
                connected,
                expected: addrs.chain_id,
            }),
        },
{
    if connected == addrs.chain_id {
        Ok(())
    } else {
        Err(ChainError::WrongChain { connected, expected: addrs.chain_id })
    }
}

/// What a command does next.
#[derive(Clone, Copy, Debug, PartialEq, Eq)]
pub enum ChainAction {
    /// Read the chain id.
    ReadChainId,
    /// Read a batch's state.
    ReadBatch { contract: Bytes20, batch_id: Bytes32 },
    /// Read how much of `token` `spender` may take from `owner`.
    ReadAllowance { token: Bytes20, owner: Bytes20, spender: Bytes20 },
    /// Allow `spender` to take `amount` of `token`, and wait for the receipt.
    SendApprove { token: Bytes20, spender: Bytes20, amount: Amount },
    /// Create a batch, and wait for the receipt.
    SendCreate {
        contract: Bytes20,
        owner: Bytes20,
        per_chunk: Amount,
        depth: u8,
        bucket_depth: u8,
        nonce: Bytes32,
        immutable: bool,
    },
    /// Top a batch up, and wait for the receipt.
    SendTopUp { contract: Bytes20, batch_id: Bytes32, per_chunk: Amount },
    /// Increase a batch's depth, and wait for the receipt.
    SendIncreaseDepth { contract: Bytes20, batch_id: Bytes32, depth: u8 },
    /// Read a batch's remaining balance per chunk.
    ReadRemaining { contract: Bytes20, batch_id: Bytes32 },
    /// End.
    Done,
    /// End with an error.
    Fail(ChainError),
}

/// What the chain replies.
pub enum ChainReply {
    ChainId(u64),
    Batch(BatchState),
    Allowance(Amount),
    Remaining(Amount),
    Receipt { ok: bool, tx: Bytes32, logs: Vec<Log> },
}

/// The lines to print, and what to do then.
pub struct ChainStep {
    pub lines: Vec<String>,
    pub action: ChainAction,
}

/// A command on a batch.
#[derive(Clone, Copy)]
pub struct BatchFlow {
    /// The contracts.
    pub addrs: ChainAddrs,
    /// The account that pays and signs.
    pub sender: Bytes20,
    /// What is to be done.
    pub purpose: Purpose,
    /// The cost in BZZ, once it is known.
    pub total: Amount,
    /// The batch's state, once it is known.
    pub batch: BatchState,
    /// Where the command stands.
    pub stage: FlowStage,
}

/// Why a command's arguments were refused.
#[derive(Clone, Debug)]
pub enum PlanError {
    /// The owner is no account address.
    Owner(HexFault),
    /// The nonce or the batch id is not 32 bytes of hexadecimal.
    Value(ParseError),
    /// The amount could not be read.
    Amount(AmountError),
}

impl PlanError {
    /// The words for the error.
    pub fn message(&self) -> (s: String)
        ensures
            s@ == (match self {
                PlanError::Owner(_) => "invalid owner address"@,
                PlanError::Value(e) => crate::hexes::parse_message(e.what@, e.fault),
                PlanError::Amount(e) => "invalid BZZ amount: "@ + e.text@,
            }),
    {
        match self {
            PlanError::Owner(_) => String::from_str("invalid owner address"),
            PlanError::Value(e) => e.message(),
            PlanError::Amount(e) => e.message(),
        }
    }
}

pub(crate) fn no_amount() -> (a: Amount)
    ensures
        a@ == 0,
{
    let limbs: [u64; 4] = [0u64; 4];
    assert(0 * pow2(64) == 0 && 0 * pow2(128) == 0 && 0 * pow2(192) == 0) by (nonlinear_arith);
    Amount { limbs }
}

/// What a command holds in place of a batch's state before it is known: nobody's
/// batch, of depth zero, that never changed.
pub open spec fn is_no_batch(b: BatchState) -> bool {
    &&& is_nobody(b.owner@)
    &&& b.depth == 0
    &&& b.bucket_depth == 0
    &&& !b.immutable
    &&& b.last_updated_block@ == 0
}

fn no_batch() -> (b: BatchState)
    ensures
        is_no_batch(b),
{
    let owner = Bytes20 { bytes: [0u8; 20] };
    assert(owner@ =~= zeros(20));
    BatchState {
        owner,
        depth: 0,
        bucket_depth: 0,
        immutable: false,
        last_updated_block: no_amount(),
    }
}

/// A command that starts: it waits for the chain id.
pub open spec fn starts(f: BatchFlow, sender: Seq<u8>) -> bool {
    f.sender@ == sender && f.stage == FlowStage::ChainId
}

/// What a command's arguments give: an error for the first thing wrong with
/// owner, nonce and amount, in this order, and else the command. Without an
/// owner the sender owns the batch; without a nonce it is `fallback`.
pub open spec fn create_plan(
    network: Network,
    sender: Seq<u8>,
    amount: &str,
    depth: u8,
    bucket_depth: u8,
    immutable: bool,
    owner: Option<&str>,
    nonce: Option<&str>,
    fallback: Seq<u8>,
    r: Result<BatchFlow, PlanError>,
) -> bool {
    match r {
        Ok(f) => address_book(network, f.addrs) && starts(f, sender) && match f.purpose {
            Purpose::Create { owner: o, per_chunk, depth: d, bucket_depth: b, nonce: n, immutable: i }
            => {
                &&& d == depth && b == bucket_depth && i == immutable
                &&& match owner {
                    Some(t) => reads_account(t.spec_bytes(), Ok(o@)),
                    None => o@ == sender,
                }
                &&& match nonce {
                    Some(t) => reads32(t.spec_bytes(), Ok(n@)),
                    None => n@ == fallback,
                }
                &&& units_of(amount.spec_bytes()) == Some(per_chunk@)
                &&& f.total@ == (per_chunk@ * pow2(depth as nat)) % pow2(256)
            },
            _ => false,
        },
        Err(PlanError::Owner(e)) => match owner {
            Some(t) => reads_account(t.spec_bytes(), Err(e)),
            None => false,
        },
        Err(PlanError::Value(e)) => owner_fine(owner) && match nonce {
            Some(t) => reads32(t.spec_bytes(), Err(e.fault)) && e.what@ == "nonce"@,
            None => false,
        },
        Err(PlanError::Amount(e)) => owner_fine(owner) && nonce_fine(nonce) && units_of(
            amount.spec_bytes(),
        ) is None && e.text@ == amount@,
    }
}

/// The owner, where one is given, can be read.
pub open spec fn owner_fine(owner: Option<&str>) -> bool {
    owner matches Some(t) ==> is_account(t.spec_bytes())
}

/// The text `b` can be read as an account address.
pub open spec fn is_account(b: Seq<u8>) -> bool {
    b.len() % 2 == 0 && strip_either(b).len() == 40 && all_hex(strip_either(b))
}

/// The nonce, where one is given, can be read.
pub open spec fn nonce_fine(nonce: Option<&str>) -> bool {
    nonce matches Some(t) ==> is_hex32(t.spec_bytes())
}

/// The text `b` can be read as 32 bytes.
pub open spec fn is_hex32(b: Seq<u8>) -> bool {
    strip_0x(b).len() == 64 && all_hex(strip_0x(b))
}

/// The command that creates a batch, with `fallback` for the nonce where none
/// is given. The cost is the balance of one chunk times the number of chunks.
pub fn create_with(
    network: Network,
    sender: &Bytes20,
    amount: &str,
    depth: u8,
    bucket_depth: u8,
    immutable: bool,
    owner: Option<&str>,
    nonce: Option<&str>,
    fallback: Bytes32,
) -> (r: Result<BatchFlow, PlanError>)
    requires
        can_cut(amount.spec_bytes()),
    ensures
        create_plan(
            network,
            sender@,
            amount,
            depth,
            bucket_depth,
            immutable,
            owner,
            nonce,
            fallback@,
            r,
        ),
{
    let addrs = addrs_for(network);
    let owner_account = match owner {
        Some(t) => match parse_account(t) {
            Ok(a) => a,
            Err(e) => {
                return Err(PlanError::Owner(e));
            },
        },
        None => *sender,
    };
    let chosen_nonce = match nonce {
        Some(t) => match parse_b256(t, "nonce") {
            Ok(n) => n,
            Err(e) => {
                return Err(PlanError::Value(e));
            },
        },
        None => fallback,
    };
    let per_chunk = match parse_bzz(amount) {
        Ok(a) => a,
        Err(e) => {
            return Err(PlanError::Amount(e));
        },
    };
    let total = total_amount(&per_chunk, depth);
    Ok(
        BatchFlow {
            addrs,
            sender: *sender,
            purpose: Purpose::Create {
                owner: owner_account,
                per_chunk,
                depth,
                bucket_depth,
                nonce: chosen_nonce,
                immutable,
            },
            total,
            batch: no_batch(),
            stage: FlowStage::ChainId,
        },
    )
}

/// The command that creates a batch. Without a nonce it gets a random one.
pub fn create(
    network: Network,
    sender: &Bytes20,
    amount: &str,
    depth: u8,
    bucket_depth: u8,
    immutable: bool,
    owner: Option<&str>,
    nonce: Option<&str>,
) -> (r: Result<BatchFlow, PlanError>)
    requires
        can_cut(amount.spec_bytes()),
    ensures
        exists|fallback: Seq<u8>|
            fallback.len() == 32 && #[trigger] create_plan(
                network,
                sender@,
                amount,
                depth,
                bucket_depth,
                immutable,
                owner,
                nonce,
                fallback,
                r,
            ),
{
    create_with(
        network,
        sender,
        amount,
        depth,
        bucket_depth,
        immutable,
        owner,
        nonce,
        random_nonce(),
    )
}

/// The command that tops a batch up.
pub fn topup(network: Network, sender: &Bytes20, batch_id: &str, amount: &str) -> (r: Result<
    BatchFlow,
    PlanError,
>)
    requires
        can_cut(amount.spec_bytes()),
    ensures
        match r {
            Ok(f) => address_book(network, f.addrs) && starts(f, sender@)
                && match f.purpose {
                Purpose::TopUp { batch_id: id, per_chunk } => {
                    &&& reads32(batch_id.spec_bytes(), Ok(id@))
                    &&& units_of(amount.spec_bytes()) == Some(per_chunk@)
                },
                _ => false,
            },
            Err(PlanError::Value(e)) => reads32(batch_id.spec_bytes(), Err(e.fault)) && e.what@
                == "batch id"@,
            Err(PlanError::Amount(e)) => is_hex32(batch_id.spec_bytes()) && units_of(
                amount.spec_bytes(),
            ) is None && e.text@ == amount@,
            Err(PlanError::Owner(_)) => false,
        },
{
    let addrs = addrs_for(network);
    let id = match parse_b256(batch_id, "batch id") {
        Ok(n) => n,
        Err(e) => {
            return Err(PlanError::Value(e));
        },
    };
    match parse_bzz(amount) {
        Err(e) => Err(PlanError::Amount(e)),
        Ok(per_chunk) => Ok(
            BatchFlow {
                addrs,
                sender: *sender,
                purpose: Purpose::TopUp { batch_id: id, per_chunk },
                total: no_amount(),
                batch: no_batch(),
                stage: FlowStage::ChainId,
            },
        ),
    }
}

/// The command that dilutes a batch.
pub fn dilute(network: Network, sender: &Bytes20, batch_id: &str, depth: u8) -> (r: Result<
    BatchFlow,
    PlanError,
>)
    ensures
        match r {
            Ok(f) => address_book(network, f.addrs) && starts(f, sender@)
                && match f.purpose {
                Purpose::Dilute { batch_id: id, depth: d } => d == depth && reads32(
                    batch_id.spec_bytes(),
                    Ok(id@),
                ),
                _ => false,
            },
            Err(PlanError::Value(e)) => reads32(batch_id.spec_bytes(), Err(e.fault)) && e.what@
                == "batch id"@,
            Err(_) => false,
        },
{
    let addrs = addrs_for(network);
    match parse_b256(batch_id, "batch id") {
        Err(e) => Err(PlanError::Value(e)),
        Ok(id) => Ok(
            BatchFlow {
                addrs,
                sender: *sender,
                purpose: Purpose::Dilute { batch_id: id, depth },
                total: no_amount(),
                batch: no_batch(),
                stage: FlowStage::ChainId,
            },
        ),
    }
}

/// The command that shows a batch. It needs no account.
pub fn info(network: Network, batch_id: &str) -> (r: Result<BatchFlow, PlanError>)
    ensures
        match r {
            Ok(f) => address_book(network, f.addrs) && starts(f, zeros(20))
                && match f.purpose {
                Purpose::Info { batch_id: id } => reads32(batch_id.spec_bytes(), Ok(id@)),
                _ => false,
            },
            Err(PlanError::Value(e)) => reads32(batch_id.spec_bytes(), Err(e.fault)) && e.what@
                == "batch id"@,
            Err(_) => false,
        },
{
    let addrs = addrs_for(network);
    match parse_b256(batch_id, "batch id") {
        Err(e) => Err(PlanError::Value(e)),
        Ok(id) => {
            let sender = Bytes20 { bytes: [0u8; 20] };
            assert(sender@ =~= zeros(20));
            Ok(
                BatchFlow {
                    addrs,
                    sender,
                    purpose: Purpose::Info { batch_id: id },
                    total: no_amount(),
                    batch: no_batch(),
                    stage: FlowStage::ChainId,
                },
            )
        },
    }
}

/// The transaction that a command is for.
pub open spec fn main_action(f: BatchFlow) -> ChainAction {
    match f.purpose {
        Purpose::Create { owner, per_chunk, depth, bucket_depth, nonce, immutable } => {
            ChainAction::SendCreate {
                contract: f.addrs.postage,
                owner,
                per_chunk,
                depth,
                bucket_depth,
                nonce,
                immutable,
            }
        },
        Purpose::TopUp { batch_id, per_chunk } => ChainAction::SendTopUp {
            contract: f.addrs.postage,
            batch_id,
            per_chunk,
        },
        Purpose::Dilute { batch_id, depth } => ChainAction::SendIncreaseDepth {
            contract: f.addrs.postage,
            batch_id,
            depth,
        },
        Purpose::Info { batch_id } => ChainAction::ReadRemaining {
            contract: f.addrs.postage,
            batch_id,
        },
    }
}

/// The line that announces that transaction.
pub open spec fn main_line(f: BatchFlow) -> Seq<char> {
    match f.purpose {
        Purpose::Create { per_chunk, depth, bucket_depth, .. } => "Creating batch: "@ + bzz_text(
            per_chunk@,
        ) + " BZZ/chunk, depth "@ + dec(depth as nat) + ", bucket depth "@ + dec(
            bucket_depth as nat,
        ) + ", total "@ + bzz_text(f.total@) + " BZZ"@,
        Purpose::TopUp { batch_id, per_chunk } => "Topping up batch "@ + hex_0x(batch_id@) + ": "@
            + bzz_text(per_chunk@) + " BZZ/chunk, depth "@ + dec(f.batch.depth as nat)
            + ", total "@ + bzz_text(f.total@) + " BZZ"@,
        Purpose::Dilute { batch_id, depth } => "Increasing depth of batch "@ + hex_0x(batch_id@)
            + " to "@ + dec(depth as nat) + "..."@,
        Purpose::Info { .. } => Seq::empty(),
    }
}

/// The lines that report a finished transaction. For a new batch they give the
/// id that the chain gave it and, for comparison, the one that was expected.
pub open spec fn done_lines(f: BatchFlow, tx: Seq<u8>, id: Option<Seq<u8>>) -> Seq<Seq<char>> {
    match f.purpose {
        Purpose::Create { nonce, .. } => {
            let made = id->0;
            let expected = expected_id(f.sender@, nonce@);
            let report = seq![
                "Batch created"@,
                "  tx hash:  "@ + hex_0x(tx),
                "  batch id: "@ + hex_0x(made),
                "  local id: "@ + hex_0x(expected),
            ];
            if made == expected {
                report
            } else {
                report.push(
                    "  warning: locally computed id "@ + hex_0x(expected)
                        + " differs from on-chain id"@,
                )
            }
        },
        Purpose::TopUp { .. } => seq!["Batch topped up"@, "  tx hash: "@ + hex_0x(tx)],
        Purpose::Dilute { .. } => seq!["Batch diluted"@, "  tx hash: "@ + hex_0x(tx)],
        Purpose::Info { .. } => Seq::empty(),
    }
}

/// The lines that show a batch.
pub open spec fn info_lines(id: Seq<u8>, b: BatchState, remaining: nat) -> Seq<Seq<char>> {
    seq![
        "Batch "@ + hex_0x(id),
        "  owner:             "@ + hex_0x(b.owner@),
        "  depth:             "@ + dec(b.depth as nat),
        "  bucket depth:      "@ + dec(b.bucket_depth as nat),
        "  immutable:         "@ + truth(b.immutable),
        "  remaining/chunk:   "@ + bzz_text(remaining) + " BZZ"@,
        "  last updated block: "@ + dec(b.last_updated_block@),
    ]
}

/// The transaction's name.
pub open spec fn main_transaction(p: Purpose) -> Transaction {
    match p {
        Purpose::Create { .. } => Transaction::CreateBatch,
        Purpose::TopUp { .. } => Transaction::TopUp,
        _ => Transaction::IncreaseDepth,
    }
}

/// A command that fails: it prints nothing and is over.
pub open spec fn fails(f: BatchFlow, g: BatchFlow, s: ChainStep, e: ChainError) -> bool {
    g == (BatchFlow { stage: FlowStage::Over, ..f }) && s.action == ChainAction::Fail(e)
        && lines_of(s.lines@) == Seq::<Seq<char>>::empty()
}

/// A command that goes on to its transaction, after the lines `before`.
pub open spec fn goes_on(f: BatchFlow, g: BatchFlow, s: ChainStep, before: Seq<Seq<char>>) -> bool {
    g == (BatchFlow { stage: FlowStage::Receipt, ..f }) && s.action == main_action(f) && lines_of(
        s.lines@,
    ) == before.push(main_line(f))
}

/// A step of a command: from `f`, on the reply `r`, to `g`, with `s` to be
/// done.
///
/// Nothing is done on a chain other than the network's. A batch that does not
/// exist is neither topped up nor shown. The cost of a top-up comes from the
/// depth that the chain has for the batch. An approval is sent only where the
/// allowance falls short of the cost, and for the cost; the transaction is sent
/// only once the allowance is there.
pub open spec fn flow_step(f: BatchFlow, r: ChainReply, g: BatchFlow, s: ChainStep) -> bool {
    match (f.stage, r) {
        (FlowStage::ChainId, ChainReply::ChainId(connected)) => if connected != f.addrs.chain_id {
            fails(
                f,
                g,
                s,
                ChainError::WrongChain { connected, expected: f.addrs.chain_id },
            )
        } else {
            match f.purpose {
                Purpose::Create { .. } => g == (BatchFlow { stage: FlowStage::Allowance, ..f })
                    && lines_of(s.lines@) == Seq::<Seq<char>>::empty() && s.action == (
                ChainAction::ReadAllowance {
                    token: f.addrs.bzz,
                    owner: f.sender,
                    spender: f.addrs.postage,
                }),
                Purpose::TopUp { batch_id, .. } | Purpose::Info { batch_id } => g == (BatchFlow {
                    stage: FlowStage::Batch,
                    ..f
                }) && lines_of(s.lines@) == Seq::<Seq<char>>::empty() && s.action == (
                ChainAction::ReadBatch { contract: f.addrs.postage, batch_id }),
                Purpose::Dilute { .. } => goes_on(f, g, s, Seq::empty()),
            }
        },
        (FlowStage::Batch, ChainReply::Batch(state)) => match f.purpose {
            Purpose::TopUp { batch_id, per_chunk } => if is_nobody(state.owner@) {
                fails(f, g, s, ChainError::NoSuchBatch { batch_id })
            } else {
                &&& g == (BatchFlow {
                    stage: FlowStage::Allowance,
                    batch: state,
                    total: g.total,
                    ..f
                })
                &&& g.total@ == (per_chunk@ * pow2(state.depth as nat)) % pow2(256)
                &&& lines_of(s.lines@) == Seq::<Seq<char>>::empty()
                &&& s.action == (ChainAction::ReadAllowance {
                    token: f.addrs.bzz,
                    owner: f.sender,
                    spender: f.addrs.postage,
                })
            },
            Purpose::Info { batch_id } => if is_nobody(state.owner@) {
                fails(f, g, s, ChainError::NoSuchBatch { batch_id })
            } else {
                &&& g == (BatchFlow { stage: FlowStage::Remaining, batch: state, ..f })
                &&& lines_of(s.lines@) == Seq::<Seq<char>>::empty()
                &&& s.action == (ChainAction::ReadRemaining { contract: f.addrs.postage, batch_id })
            },
            _ => fails(f, g, s, ChainError::OutOfStep),
        },
        (FlowStage::Allowance, ChainReply::Allowance(current)) => if current@ >= f.total@ {
            goes_on(
                f,
                g,
                s,
                seq!["Allowance already sufficient ("@ + bzz_text(current@) + " BZZ)"@],
            )
        } else {
            &&& g == (BatchFlow { stage: FlowStage::Approval, ..f })
            &&& lines_of(s.lines@) == seq![
                "Approving "@ + bzz_text(f.total@) + " BZZ to PostageStamp..."@,
            ]
            &&& s.action == (ChainAction::SendApprove {
                token: f.addrs.bzz,
                spender: f.addrs.postage,
                amount: f.total,
            })
        },
        (FlowStage::Approval, ChainReply::Receipt { ok, tx, .. }) => if ok {
            goes_on(f, g, s, seq!["  approve tx: "@ + hex_0x(tx@)])
        } else {
            fails(f, g, s, ChainError::Reverted { what: Transaction::Approve, tx })
        },
        (FlowStage::Receipt, ChainReply::Receipt { ok, tx, logs }) => if !ok {
            fails(f, g, s, ChainError::Reverted { what: main_transaction(f.purpose), tx })
        } else if f.purpose is Create && created_batch(logs_of(logs@)) is None {
            fails(f, g, s, ChainError::NoBatchCreated)
        } else {
            &&& g == (BatchFlow { stage: FlowStage::Over, ..f })
            &&& s.action == ChainAction::Done
            &&& lines_of(s.lines@) == done_lines(f, tx@, created_batch(logs_of(logs@)))
        },
        (FlowStage::Remaining, ChainReply::Remaining(remaining)) => match f.purpose {
            Purpose::Info { batch_id } => {
                &&& g == (BatchFlow { stage: FlowStage::Over, ..f })
                &&& s.action == ChainAction::Done
                &&& lines_of(s.lines@) == info_lines(batch_id@, f.batch, remaining@)
            },
            _ => fails(f, g, s, ChainError::OutOfStep),
        },
        _ => fails(f, g, s, ChainError::OutOfStep),
    }
}

fn no_lines() -> (v: Vec<String>)
    ensures
        lines_of(v@) == Seq::<Seq<char>>::empty(),
{
    let v: Vec<String> = Vec::new();
    assert(lines_of(v@) =~= Seq::empty());
    v
}

fn add_line(v: &mut Vec<String>, line: String)
    ensures
        lines_of(final(v)@) == lines_of(old(v)@).push(line@),
{
    let ghost before = v@;
    v.push(line);
    assert(lines_of(v@) =~= lines_of(before).push(line@));
}

impl BatchFlow {
    fn fail(&mut self, e: ChainError) -> (s: ChainStep)
        ensures
            fails(*old(self), *final(self), s, e),
    {
        self.stage = FlowStage::Over;
        ChainStep { lines: no_lines(), action: ChainAction::Fail(e) }
    }

    fn main_text(&self) -> (s: String)
        ensures
            s@ == main_line(*self),
    {
        let mut s = String::new();
        match self.purpose {
            Purpose::Create { per_chunk, depth, bucket_depth, .. } => {
                s.append("Creating batch: ");
                s.append(format_bzz(&per_chunk).as_str());
                s.append(" BZZ/chunk, depth ");
                s.append(decimal(depth as u64).as_str());
                s.append(", bucket depth ");
                s.append(decimal(bucket_depth as u64).as_str());
                s.append(", total ");
                s.append(format_bzz(&self.total).as_str());
                s.append(" BZZ");
            },
            Purpose::TopUp { batch_id, per_chunk } => {
                s.append("Topping up batch ");
                s.append(show_0x(batch_id.bytes.as_slice()).as_str());
                s.append(": ");
                s.append(format_bzz(&per_chunk).as_str());
                s.append(" BZZ/chunk, depth ");
                s.append(decimal(self.batch.depth as u64).as_str());
                s.append(", total ");
                s.append(format_bzz(&self.total).as_str());
                s.append(" BZZ");
            },
            Purpose::Dilute { batch_id, depth } => {
                s.append("Increasing depth of batch ");
                s.append(show_0x(batch_id.bytes.as_slice()).as_str());
                s.append(" to ");
                s.append(decimal(depth as u64).as_str());
                s.append("...");
            },
            Purpose::Info { .. } => {},
        }
        assert(s@ =~= main_line(*self));
        s
    }

    fn go_on(&mut self, lines: Vec<String>) -> (s: ChainStep)
        ensures
            goes_on(*old(self), *final(self), s, lines_of(lines@)),
    {
        let mut all = lines;
        add_line(&mut all, self.main_text());
        let action = match self.purpose {
            Purpose::Create { owner, per_chunk, depth, bucket_depth, nonce, immutable } => {
                ChainAction::SendCreate {
                    contract: self.addrs.postage,
                    owner,
                    per_chunk,
                    depth,
                    bucket_depth,
                    nonce,
                    immutable,
                }
            },
            Purpose::TopUp { batch_id, per_chunk } => ChainAction::SendTopUp {
                contract: self.addrs.postage,
                batch_id,
                per_chunk,
            },
            Purpose::Dilute { batch_id, depth } => ChainAction::SendIncreaseDepth {
                contract: self.addrs.postage,
                batch_id,
                depth,
            },
            Purpose::Info { batch_id } => ChainAction::ReadRemaining {
                contract: self.addrs.postage,
                batch_id,
            },
        };
        self.stage = FlowStage::Receipt;
        ChainStep { lines: all, action }
    }

    fn ask_allowance(&mut self) -> (s: ChainStep)
        ensures
            *final(self) == (BatchFlow { stage: FlowStage::Allowance, ..*old(self) }),
            lines_of(s.lines@) == Seq::<Seq<char>>::empty(),
            s.action == (ChainAction::ReadAllowance {
                token: old(self).addrs.bzz,
                owner: old(self).sender,
                spender: old(self).addrs.postage,
            }),
    {
        self.stage = FlowStage::Allowance;
        ChainStep {
            lines: no_lines(),
            action: ChainAction::ReadAllowance {
                token: self.addrs.bzz,
                owner: self.sender,
                spender: self.addrs.postage,
            },
        }
    }

    /// The first thing that a command does: it reads the chain id.
    pub fn begin(&self) -> (a: ChainAction)
        ensures
            a == ChainAction::ReadChainId,
    {
        ChainAction::ReadChainId
    }

    fn on_chain_id(&mut self, connected: u64) -> (s: ChainStep)
        requires
            old(self).stage == FlowStage::ChainId,
        ensures
            flow_step(*old(self), ChainReply::ChainId(connected), *final(self), s),
    {
        match verify_chain_id(&self.addrs, connected) {
            Ok(()) => {},
            Err(e) => {
                return self.fail(e);
            },
        }
        match self.purpose {
            Purpose::Create { .. } => self.ask_allowance(),
            Purpose::TopUp { batch_id, .. } | Purpose::Info { batch_id } => {
                self.stage = FlowStage::Batch;
                ChainStep {
                    lines: no_lines(),
                    action: ChainAction::ReadBatch { contract: self.addrs.postage, batch_id },
                }
            },
            Purpose::Dilute { .. } => self.go_on(no_lines()),
        }
    }

    fn on_batch(&mut self, state: BatchState) -> (s: ChainStep)
        requires
            old(self).stage == FlowStage::Batch,
        ensures
            flow_step(*old(self), ChainReply::Batch(state), *final(self), s),
    {
        match self.purpose {
            Purpose::TopUp { batch_id, per_chunk } => {
                if nobody(&state.owner) {
                    return self.fail(ChainError::NoSuchBatch { batch_id });
                }
                self.total = total_amount(&per_chunk, state.depth);
                self.batch = state;
                self.ask_allowance()
            },
            Purpose::Info { batch_id } => {
                if nobody(&state.owner) {
                    return self.fail(ChainError::NoSuchBatch { batch_id });
                }
                self.batch = state;
                self.stage = FlowStage::Remaining;
                ChainStep {
                    lines: no_lines(),
                    action: ChainAction::ReadRemaining { contract: self.addrs.postage, batch_id },
                }
            },
            _ => self.fail(ChainError::OutOfStep),
        }
    }

    fn on_allowance(&mut self, current: Amount) -> (s: ChainStep)
        requires
            old(self).stage == FlowStage::Allowance,
        ensures
            flow_step(*old(self), ChainReply::Allowance(current), *final(self), s),
    {
        let mut lines = no_lines();
        if at_least(&current, &self.total) {
            let mut line = String::from_str("Allowance already sufficient (");
            line.append(format_bzz(&current).as_str());
            line.append(" BZZ)");
            add_line(&mut lines, line);
            assert(lines_of(lines@) =~= seq![
                "Allowance already sufficient ("@ + bzz_text(current@) + " BZZ)"@,
            ]);
            self.go_on(lines)
        } else {
            let mut line = String::from_str("Approving ");
            line.append(format_bzz(&self.total).as_str());
            line.append(" BZZ to PostageStamp...");
            add_line(&mut lines, line);
            assert(lines_of(lines@) =~= seq![
                "Approving "@ + bzz_text(self.total@) + " BZZ to PostageStamp..."@,
            ]);
            self.stage = FlowStage::Approval;
            ChainStep {
                lines,
                action: ChainAction::SendApprove {
                    token: self.addrs.bzz,
                    spender: self.addrs.postage,
                    amount: self.total,
                },
            }
        }
    }

    fn on_approval(&mut self, ok: bool, tx: Bytes32, logs: Vec<Log>) -> (s: ChainStep)
        requires
            old(self).stage == FlowStage::Approval,
        ensures
            flow_step(*old(self), (ChainReply::Receipt { ok, tx, logs }), *final(self), s),
    {
        if !ok {
            return self.fail(ChainError::Reverted { what: Transaction::Approve, tx });
        }
        let mut lines = no_lines();
        let mut line = String::from_str("  approve tx: ");
        line.append(show_0x(tx.bytes.as_slice()).as_str());
        add_line(&mut lines, line);
        assert(lines_of(lines@) =~= seq!["  approve tx: "@ + hex_0x(tx@)]);
        self.go_on(lines)
    }

    fn created_report(&self, tx: &Bytes32, id: &Bytes32, nonce: &Bytes32) -> (lines: Vec<String>)
        requires
            self.purpose matches Purpose::Create { nonce: n, .. } && n == *nonce,
        ensures
            lines_of(lines@) == done_lines(*self, tx@, Some(id@)),
    {
        let mut lines = no_lines();
        let expected = local_batch_id(&self.sender, nonce);
        add_line(&mut lines, String::from_str("Batch created"));
        let mut line = String::from_str("  tx hash:  ");
        line.append(show_0x(tx.bytes.as_slice()).as_str());
        add_line(&mut lines, line);
        let mut line = String::from_str("  batch id: ");
        line.append(show_0x(id.bytes.as_slice()).as_str());
        add_line(&mut lines, line);
        let mut line = String::from_str("  local id: ");
        line.append(show_0x(expected.bytes.as_slice()).as_str());
        add_line(&mut lines, line);
        let ghost report = seq![
            "Batch created"@,
            "  tx hash:  "@ + hex_0x(tx@),
            "  batch id: "@ + hex_0x(id@),
            "  local id: "@ + hex_0x(expected@),
        ];
        assert(lines_of(lines@) =~= report);
        if !same_bytes(id.bytes.as_slice(), expected.bytes.as_slice()) {
            let mut line = String::from_str("  warning: locally computed id ");
            line.append(show_0x(expected.bytes.as_slice()).as_str());
            line.append(" differs from on-chain id");
            add_line(&mut lines, line);
        }
        lines
    }

    fn on_receipt(&mut self, ok: bool, tx: Bytes32, logs: Vec<Log>) -> (s: ChainStep)
        requires
            old(self).stage == FlowStage::Receipt,
        ensures
            flow_step(*old(self), (ChainReply::Receipt { ok, tx, logs }), *final(self), s),
    {
        let what = match self.purpose {
            Purpose::Create { .. } => Transaction::CreateBatch,
            Purpose::TopUp { .. } => Transaction::TopUp,
            _ => Transaction::IncreaseDepth,
        };
        if !ok {
            return self.fail(ChainError::Reverted { what, tx });
        }
        let mut lines = no_lines();
        match self.purpose {
            Purpose::Create { nonce, .. } => match find_created(&logs) {
                None => {
                    return self.fail(ChainError::NoBatchCreated);
                },
                Some(id) => {
                    lines = self.created_report(&tx, &id, &nonce);
                },
            },
            Purpose::TopUp { .. } => {
                add_line(&mut lines, String::from_str("Batch topped up"));
                let mut line = String::from_str("  tx hash: ");
                line.append(show_0x(tx.bytes.as_slice()).as_str());
                add_line(&mut lines, line);
                assert(lines_of(lines@) =~= seq![
                    "Batch topped up"@,
                    "  tx hash: "@ + hex_0x(tx@),
                ]);
            },
            Purpose::Dilute { .. } => {
                add_line(&mut lines, String::from_str("Batch diluted"));
                let mut line = String::from_str("  tx hash: ");
                line.append(show_0x(tx.bytes.as_slice()).as_str());
                add_line(&mut lines, line);
                assert(lines_of(lines@) =~= seq![
                    "Batch diluted"@,
                    "  tx hash: "@ + hex_0x(tx@),
                ]);
            },
            Purpose::Info { .. } => {},
        }
        self.stage = FlowStage::Over;
        ChainStep { lines, action: ChainAction::Done }
    }

    fn on_remaining(&mut self, remaining: Amount) -> (s: ChainStep)
        requires
            old(self).stage == FlowStage::Remaining,
        ensures
            flow_step(*old(self), ChainReply::Remaining(remaining), *final(self), s),
    {
        match self.purpose {
            Purpose::Info { batch_id } => {
                let mut lines = no_lines();
                let mut line = String::from_str("Batch ");
                line.append(show_0x(batch_id.bytes.as_slice()).as_str());
                add_line(&mut lines, line);
                let mut line = String::from_str("  owner:             ");
                line.append(show_0x(self.batch.owner.bytes.as_slice()).as_str());
                add_line(&mut lines, line);
                let mut line = String::from_str("  depth:             ");
                line.append(decimal(self.batch.depth as u64).as_str());
                add_line(&mut lines, line);
                let mut line = String::from_str("  bucket depth:      ");
                line.append(decimal(self.batch.bucket_depth as u64).as_str());
                add_line(&mut lines, line);
                let mut line = String::from_str("  immutable:         ");
                line.append(truth_text(self.batch.immutable));
                add_line(&mut lines, line);
                let mut line = String::from_str("  remaining/chunk:   ");
                line.append(format_bzz(&remaining).as_str());
                line.append(" BZZ");
                add_line(&mut lines, line);
                let mut line = String::from_str("  last updated block: ");
                line.append(decimal_amount(&self.batch.last_updated_block).as_str());
                add_line(&mut lines, line);
                assert(lines_of(lines@) =~= info_lines(batch_id@, self.batch, remaining@));
                self.stage = FlowStage::Over;
                ChainStep { lines, action: ChainAction::Done }
            },
            _ => self.fail(ChainError::OutOfStep),
        }
    }

    /// Takes the chain's reply and says what to print and to do next.
    pub fn on_reply(&mut self, reply: ChainReply) -> (s: ChainStep)
        ensures
            flow_step(*old(self), reply, *final(self), s),
    {
        let stage = self.stage;
        match (stage, reply) {
            (FlowStage::ChainId, ChainReply::ChainId(connected)) => self.on_chain_id(connected),
            (FlowStage::Batch, ChainReply::Batch(state)) => self.on_batch(state),
            (FlowStage::Allowance, ChainReply::Allowance(current)) => self.on_allowance(current),
            (FlowStage::Approval, ChainReply::Receipt { ok, tx, logs }) => {
                self.on_approval(ok, tx, logs)
            },
            (FlowStage::Receipt, ChainReply::Receipt { ok, tx, logs }) => {
                self.on_receipt(ok, tx, logs)
            },
            (FlowStage::Remaining, ChainReply::Remaining(remaining)) => {
                self.on_remaining(remaining)
            },
            _ => self.fail(ChainError::OutOfStep),
        }
    }
}

/// A run of a command: from one state to the next, each by a reply and a step.
pub open spec fn flow_run(
    flows: Seq<BatchFlow>,
    replies: Seq<ChainReply>,
    steps: Seq<ChainStep>,
) -> bool {
    &&& flows.len() == replies.len() + 1
    &&& steps.len() == replies.len()
    &&& flows[0].stage == FlowStage::ChainId
    &&& forall|k: int|
        #![trigger steps[k]]
        0 <= k < steps.len() ==> flow_step(flows[k], replies[k], flows[k + 1], steps[k])
}

/// Whether an action sends a transaction.
pub open spec fn sends(a: ChainAction) -> bool {
    a is SendApprove || a is SendCreate || a is SendTopUp || a is SendIncreaseDepth
}

/// BZZ is spent only within an allowance: where a command sends the
/// transaction that creates a batch or tops one up, the reply before it was an
/// allowance of at least the cost, or the receipt of a successful approval of
/// exactly the cost.
pub proof fn spends_only_what_is_allowed(
    flows: Seq<BatchFlow>,
    replies: Seq<ChainReply>,
    steps: Seq<ChainStep>,
    k: int,
)
    requires
        flow_run(flows, replies, steps),
        0 <= k < steps.len(),
        steps[k].action is SendCreate || steps[k].action is SendTopUp,
    ensures
        match replies[k] {
            ChainReply::Allowance(current) => current@ >= flows[k].total@,
            ChainReply::Receipt { ok, .. } => ok && k >= 1 && match steps[k - 1].action {
                ChainAction::SendApprove { token, spender, amount } => token == flows[k].addrs.bzz
                    && spender == flows[k].addrs.postage && amount == flows[k].total,
                _ => false,
            },
            _ => false,
        },
{
    assert(flow_step(flows[k], replies[k], flows[k + 1], steps[k]));
    if k >= 1 {
        assert(flow_step(flows[k - 1], replies[k - 1], flows[k], steps[k - 1]));
    }
}

/// A command keeps its purpose, its contracts and its sender.
pub proof fn flow_keeps_its_purpose(
    flows: Seq<BatchFlow>,
    replies: Seq<ChainReply>,
    steps: Seq<ChainStep>,
    k: int,
)
    requires
        flow_run(flows, replies, steps),
        0 <= k < flows.len(),
    ensures
        flows[k].purpose == flows[0].purpose,
        flows[k].addrs == flows[0].addrs,
        flows[k].sender == flows[0].sender,
    decreases k,
{
    if k > 0 {
        flow_keeps_its_purpose(flows, replies, steps, k - 1);
        assert(flow_step(flows[k - 1], replies[k - 1], flows[k], steps[k - 1]));
    }
}

proof fn lemma_chain_was_checked(
    flows: Seq<BatchFlow>,
    replies: Seq<ChainReply>,
    steps: Seq<ChainStep>,
    k: int,
)
    requires
        flow_run(flows, replies, steps),
        1 <= k < flows.len(),
        flows[k].stage != FlowStage::Over,
    ensures
        flows[k].stage != FlowStage::ChainId,
        replies[0] == ChainReply::ChainId(flows[0].addrs.chain_id),
    decreases k,
{
    assert(flow_step(flows[k - 1], replies[k - 1], flows[k], steps[k - 1]));
    if k > 1 {
        lemma_chain_was_checked(flows, replies, steps, k - 1);
    }
}

/// Nothing is sent to a chain other than the network's: before a command
/// sends a transaction it has read the network's chain id.
pub proof fn sends_on_the_right_chain_only(
    flows: Seq<BatchFlow>,
    replies: Seq<ChainReply>,
    steps: Seq<ChainStep>,
    k: int,
)
    requires
        flow_run(flows, replies, steps),
        0 <= k < steps.len(),
        sends(steps[k].action),
    ensures
        replies[0] == ChainReply::ChainId(flows[0].addrs.chain_id),
{
    assert(flow_step(flows[k], replies[k], flows[k + 1], steps[k]));
    if k > 0 {
        lemma_chain_was_checked(flows, replies, steps, k);
    }
}

/// Diluting moves no BZZ: the only transaction that it sends is the one that
/// increases the depth. Showing a batch sends none.
pub proof fn dilution_moves_no_tokens(
    flows: Seq<BatchFlow>,
    replies: Seq<ChainReply>,
    steps: Seq<ChainStep>,
    k: int,
)
    requires
        flow_run(flows, replies, steps),
        0 <= k < steps.len(),
        sends(steps[k].action),
    ensures
        flows[0].purpose is Dilute ==> steps[k].action is SendIncreaseDepth,
        !(flows[0].purpose is Info),
{
    flow_keeps_its_purpose(flows, replies, steps, k);
    assert(flow_step(flows[k], replies[k], flows[k + 1], steps[k]));
    if flows[0].purpose is Dilute || flows[0].purpose is Info {
        lemma_no_allowance_stage(flows, replies, steps, k);
    }
}

proof fn lemma_no_allowance_stage(
    flows: Seq<BatchFlow>,
    replies: Seq<ChainReply>,
    steps: Seq<ChainStep>,
    k: int,
)
    requires
        flow_run(flows, replies, steps),
        0 <= k < flows.len(),
        flows[0].purpose is Dilute || flows[0].purpose is Info,
    ensures
        flows[k].stage != FlowStage::Allowance,
        flows[k].stage != FlowStage::Approval,
    decreases k,
{
    if k > 0 {
        lemma_no_allowance_stage(flows, replies, steps, k - 1);
        flow_keeps_its_purpose(flows, replies, steps, k - 1);
        assert(flow_step(flows[k - 1], replies[k - 1], flows[k], steps[k - 1]));
    }
}

/// A new batch is made as it was asked for: where a run of a command to create a
/// batch sends the transaction for it, its owner, balance per chunk, depth, bucket
/// depth, nonce and immutability are those of the command, and it goes to the
/// network's contract.
pub proof fn batch_is_created_as_asked(
    flows: Seq<BatchFlow>,
    replies: Seq<ChainReply>,
    steps: Seq<ChainStep>,
    k: int,
)
    requires
        flow_run(flows, replies, steps),
        0 <= k < steps.len(),
        steps[k].action is SendCreate,
    ensures
        flows[0].purpose is Create,
        steps[k].action->SendCreate_contract == flows[0].addrs.postage,
        steps[k].action->SendCreate_owner == flows[0].purpose->Create_owner,
        steps[k].action->SendCreate_per_chunk == flows[0].purpose->Create_per_chunk,
        steps[k].action->SendCreate_depth == flows[0].purpose->Create_depth,
        steps[k].action->SendCreate_bucket_depth == flows[0].purpose->Create_bucket_depth,
        steps[k].action->SendCreate_nonce == flows[0].purpose->Create_nonce,
        steps[k].action->SendCreate_immutable == flows[0].purpose->Create_immutable,
{
    flow_keeps_its_purpose(flows, replies, steps, k);
    assert(flow_step(flows[k], replies[k], flows[k + 1], steps[k]));
}

/// A batch that is topped up or diluted is the one that was named, by as much as
/// was named, on the network's contract.
pub proof fn batch_is_changed_as_asked(
    flows: Seq<BatchFlow>,
    replies: Seq<ChainReply>,
    steps: Seq<ChainStep>,
    k: int,
)
    requires
        flow_run(flows, replies, steps),
        0 <= k < steps.len(),
    ensures
        steps[k].action is SendTopUp ==> {
            &&& flows[0].purpose is TopUp
            &&& steps[k].action->SendTopUp_contract == flows[0].addrs.postage
            &&& steps[k].action->SendTopUp_batch_id == flows[0].purpose->TopUp_batch_id
            &&& steps[k].action->SendTopUp_per_chunk == flows[0].purpose->TopUp_per_chunk
        },
        steps[k].action is SendIncreaseDepth ==> {
            &&& flows[0].purpose is Dilute
            &&& steps[k].action->SendIncreaseDepth_contract == flows[0].addrs.postage
            &&& steps[k].action->SendIncreaseDepth_batch_id == flows[0].purpose->Dilute_batch_id
            &&& steps[k].action->SendIncreaseDepth_depth == flows[0].purpose->Dilute_depth
        },
{
    flow_keeps_its_purpose(flows, replies, steps, k);
    assert(flow_step(flows[k], replies[k], flows[k + 1], steps[k]));
}

proof fn lemma_create_keeps_total(
    flows: Seq<BatchFlow>,
    replies: Seq<ChainReply>,
    steps: Seq<ChainStep>,
    k: int,
)
    requires
        flow_run(flows, replies, steps),
        0 <= k < flows.len(),
        flows[0].purpose is Create,
    ensures
        flows[k].total == flows[0].total,
    decreases k,
{
    if k > 0 {
        lemma_create_keeps_total(flows, replies, steps, k - 1);
        flow_keeps_its_purpose(flows, replies, steps, k - 1);
        assert(flow_step(flows[k - 1], replies[k - 1], flows[k], steps[k - 1]));
    }
}

/// A creation is paid for in full: whatever is approved is the cost, and the batch
/// is made only where that much was allowed already or has just been approved.
pub proof fn creation_is_paid_in_full(
    flows: Seq<BatchFlow>,
    replies: Seq<ChainReply>,
    steps: Seq<ChainStep>,
    k: int,
    cost: nat,
)
    requires
        flow_run(flows, replies, steps),
        0 <= k < steps.len(),
        flows[0].purpose is Create,
        flows[0].total@ == cost,
    ensures
        steps[k].action is SendApprove ==> {
            &&& steps[k].action->SendApprove_amount@ == cost
            &&& steps[k].action->SendApprove_token == flows[0].addrs.bzz
            &&& steps[k].action->SendApprove_spender == flows[0].addrs.postage
        },
        steps[k].action is SendCreate ==> match replies[k] {
            ChainReply::Allowance(current) => current@ >= cost,
            ChainReply::Receipt { ok, .. } => ok && k >= 1 && steps[k - 1].action is SendApprove
                && steps[k - 1].action->SendApprove_amount@ == cost,
            _ => false,
        },
{
    lemma_create_keeps_total(flows, replies, steps, k);
    flow_keeps_its_purpose(flows, replies, steps, k);
    assert(flow_step(flows[k], replies[k], flows[k + 1], steps[k]));
    if k >= 1 {
        lemma_create_keeps_total(flows, replies, steps, k - 1);
        flow_keeps_its_purpose(flows, replies, steps, k - 1);
        assert(flow_step(flows[k - 1], replies[k - 1], flows[k], steps[k - 1]));
    }
}

proof fn lemma_top_up_position(
    flows: Seq<BatchFlow>,
    replies: Seq<ChainReply>,
    steps: Seq<ChainStep>,
    k: int,
)
    requires
        flow_run(flows, replies, steps),
        1 <= k < flows.len(),
        flows[0].purpose is TopUp,
        flows[k].stage != FlowStage::Over,
    ensures
        k == 1 ==> flows[k].stage == FlowStage::Batch,
        k > 1 ==> {
            &&& flows[k].stage == FlowStage::Allowance || flows[k].stage == FlowStage::Approval
                || flows[k].stage == FlowStage::Receipt
            &&& replies[1] is Batch
            &&& replies[1]->Batch_0.owner@ != zeros(20)
            &&& flows[k].batch == replies[1]->Batch_0
            &&& flows[k].total@ == (flows[0].purpose->TopUp_per_chunk@ * pow2(
                replies[1]->Batch_0.depth as nat,
            )) % pow2(256)
        },
    decreases k,
{
    flow_keeps_its_purpose(flows, replies, steps, k - 1);
    assert(flow_step(flows[k - 1], replies[k - 1], flows[k], steps[k - 1]));
    if k > 1 {
        lemma_top_up_position(flows, replies, steps, k - 1);
    }
}

/// A top-up is paid for by the depth that the chain has for the batch: whatever is
/// approved is the balance per chunk times two to the power of that depth, in 256
/// bits, and the batch is topped up only where that much was allowed already or has
/// just been approved. The batch exists.
pub proof fn top_up_costs_by_the_stored_depth(
    flows: Seq<BatchFlow>,
    replies: Seq<ChainReply>,
    steps: Seq<ChainStep>,
    k: int,
    state: BatchState,
)
    requires
        flow_run(flows, replies, steps),
        0 <= k < steps.len(),
        flows[0].purpose is TopUp,
        steps[k].action is SendApprove || steps[k].action is SendTopUp,
        replies[1] == ChainReply::Batch(state),
    ensures
        ({
            let cost = (flows[0].purpose->TopUp_per_chunk@ * pow2(state.depth as nat)) % pow2(256);
            &&& k >= 2
            &&& exists|i: int| 0 <= i < 20 && #[trigger] state.owner@[i] != 0
            &&& steps[k].action is SendApprove ==> {
                &&& steps[k].action->SendApprove_amount@ == cost
                &&& steps[k].action->SendApprove_token == flows[0].addrs.bzz
                &&& steps[k].action->SendApprove_spender == flows[0].addrs.postage
            }
            &&& steps[k].action is SendTopUp ==> match replies[k] {
                ChainReply::Allowance(current) => current@ >= cost,
                ChainReply::Receipt { ok, .. } => ok && steps[k - 1].action is SendApprove
                    && steps[k - 1].action->SendApprove_amount@ == cost,
                _ => false,
            }
        }),
{
    flow_keeps_its_purpose(flows, replies, steps, k);
    assert(flow_step(flows[k], replies[k], flows[k + 1], steps[k]));
    if k >= 1 {
        lemma_top_up_position(flows, replies, steps, k);
        flow_keeps_its_purpose(flows, replies, steps, k - 1);
        assert(flow_step(flows[k - 1], replies[k - 1], flows[k], steps[k - 1]));
        if k >= 2 {
            if forall|i: int| 0 <= i < 20 ==> #[trigger] state.owner@[i] == 0 {
                assert(state.owner@ =~= zeros(20));
            }
            if k > 2 {
                lemma_top_up_position(flows, replies, steps, k - 1);
            }
        }
    }
}

/// No top-up is paid for before the batch's state was read: what is approved or sent
/// comes after a reply with that state.
pub proof fn top_up_reads_the_batch_first(
    flows: Seq<BatchFlow>,
    replies: Seq<ChainReply>,
    steps: Seq<ChainStep>,
    k: int,
)
    requires
        flow_run(flows, replies, steps),
        0 <= k < steps.len(),
        flows[0].purpose is TopUp,
        steps[k].action is SendApprove || steps[k].action is SendTopUp,
    ensures
        k >= 2,
        replies[1] is Batch,
        steps[0].action is ReadBatch,
        steps[0].action->ReadBatch_contract == flows[0].addrs.postage,
        steps[0].action->ReadBatch_batch_id == flows[0].purpose->TopUp_batch_id,
{
    flow_keeps_its_purpose(flows, replies, steps, k);
    assert(flow_step(flows[k], replies[k], flows[k + 1], steps[k]));
    assert(flow_step(flows[0], replies[0], flows[1], steps[0]));
    if k >= 1 {
        lemma_top_up_position(flows, replies, steps, k);
        if k > 1 {
            if flows[1].stage == FlowStage::Over {
                lemma_over_stays(flows, replies, steps, 1, k);
            }
        }
    }
}

proof fn lemma_over_stays(
    flows: Seq<BatchFlow>,
    replies: Seq<ChainReply>,
    steps: Seq<ChainStep>,
    i: int,
    k: int,
)
    requires
        flow_run(flows, replies, steps),
        0 <= i <= k < flows.len(),
        flows[i].stage == FlowStage::Over,
    ensures
        flows[k].stage == FlowStage::Over,
    decreases k - i,
{
    if i < k {
        lemma_over_stays(flows, replies, steps, i, k - 1);
        assert(flow_step(flows[k - 1], replies[k - 1], flows[k], steps[k - 1]));
    }
}

/// How a creation goes on the right chain: it asks how much of the token the
/// contract may take from the sender; where that is the cost or more it sends the
/// transaction, and where it is less it approves the cost first.
pub proof fn creation_asks_approves_and_creates(
    flows: Seq<BatchFlow>,
    replies: Seq<ChainReply>,
    steps: Seq<ChainStep>,
    current: Amount,
)
    requires
        flow_run(flows, replies, steps),
        flows[0].purpose is Create,
        replies.len() >= 2,
        replies[0] == ChainReply::ChainId(flows[0].addrs.chain_id),
        replies[1] == ChainReply::Allowance(current),
    ensures
        steps[0].action == (ChainAction::ReadAllowance {
            token: flows[0].addrs.bzz,
            owner: flows[0].sender,
            spender: flows[0].addrs.postage,
        }),
        current@ >= flows[0].total@ ==> steps[1].action is SendCreate,
        current@ < flows[0].total@ ==> steps[1].action is SendApprove,
        current@ < flows[0].total@ && replies.len() >= 3 ==> match replies[2] {
            ChainReply::Receipt { ok, tx, .. } => if ok {
                steps[2].action is SendCreate
            } else {
                steps[2].action == ChainAction::Fail(
                    ChainError::Reverted { what: Transaction::Approve, tx },
                )
            },
            _ => true,
        },
{
    assert(flow_step(flows[0], replies[0], flows[1], steps[0]));
    assert(flow_step(flows[1], replies[1], flows[2], steps[1]));
    if replies.len() >= 3 {
        assert(flow_step(flows[2], replies[2], flows[3], steps[2]));
    }
}

/// How a top-up goes on the right chain: it reads the batch; one that nobody owns is
/// refused; else it asks how much of the token the contract may take from the
/// sender, and then sends the transaction, or approves the cost first.
pub proof fn top_up_asks_approves_and_tops_up(
    flows: Seq<BatchFlow>,
    replies: Seq<ChainReply>,
    steps: Seq<ChainStep>,
    state: BatchState,
    current: Amount,
)
    requires
        flow_run(flows, replies, steps),
        flows[0].purpose is TopUp,
        replies.len() >= 3,
        replies[0] == ChainReply::ChainId(flows[0].addrs.chain_id),
        replies[1] == ChainReply::Batch(state),
        replies[2] == ChainReply::Allowance(current),
        exists|i: int| 0 <= i < 20 && #[trigger] state.owner@[i] != 0,
    ensures
        steps[0].action == (ChainAction::ReadBatch {
            contract: flows[0].addrs.postage,
            batch_id: flows[0].purpose->TopUp_batch_id,
        }),
        steps[1].action == (ChainAction::ReadAllowance {
            token: flows[0].addrs.bzz,
            owner: flows[0].sender,
            spender: flows[0].addrs.postage,
        }),
        ({
            let cost = (flows[0].purpose->TopUp_per_chunk@ * pow2(state.depth as nat)) % pow2(256);
            &&& current@ >= cost ==> steps[2].action is SendTopUp
            &&& current@ < cost ==> steps[2].action is SendApprove
            &&& current@ < cost && replies.len() >= 4 ==> match replies[3] {
                ChainReply::Receipt { ok, tx, .. } => if ok {
                    steps[3].action is SendTopUp
                } else {
                    steps[3].action == ChainAction::Fail(
                        ChainError::Reverted { what: Transaction::Approve, tx },
                    )
                },
                _ => true,
            }
        }),
{
    assert(flow_step(flows[0], replies[0], flows[1], steps[0]));
    let i = choose|i: int| 0 <= i < 20 && #[trigger] state.owner@[i] != 0;
    assert(zeros(20)[i] == 0);
    assert(flow_step(flows[1], replies[1], flows[2], steps[1]));
    assert(flow_step(flows[2], replies[2], flows[3], steps[2]));
    if replies.len() >= 4 {
        assert(flow_step(flows[3], replies[3], flows[4], steps[3]));
    }
}

/// A batch that nobody owns is neither topped up nor shown: the command fails and
/// names it.
pub proof fn missing_batch_is_refused(
    flows: Seq<BatchFlow>,
    replies: Seq<ChainReply>,
    steps: Seq<ChainStep>,
    state: BatchState,
)
    requires
        flow_run(flows, replies, steps),
        flows[0].purpose is TopUp || flows[0].purpose is Info,
        replies.len() >= 2,
        replies[0] == ChainReply::ChainId(flows[0].addrs.chain_id),
        replies[1] == ChainReply::Batch(state),
        forall|i: int| 0 <= i < 20 ==> #[trigger] state.owner@[i] == 0,
    ensures
        steps[1].action == ChainAction::Fail(
            ChainError::NoSuchBatch {
                batch_id: match flows[0].purpose {
                    Purpose::TopUp { batch_id, .. } => batch_id,
                    Purpose::Info { batch_id } => batch_id,
                    Purpose::Dilute { batch_id, .. } => batch_id,
                    Purpose::Create { nonce, .. } => nonce,
                },
            },
        ),
{
    assert(flow_step(flows[0], replies[0], flows[1], steps[0]));
    assert(state.owner@ =~= zeros(20));
    assert(flow_step(flows[1], replies[1], flows[2], steps[1]));
}

/// Another chain than the network's is refused at once, by any command.
pub proof fn wrong_chain_is_refused(
    flows: Seq<BatchFlow>,
    replies: Seq<ChainReply>,
    steps: Seq<ChainStep>,
    connected: u64,
)
    requires
        flow_run(flows, replies, steps),
        replies.len() >= 1,
        replies[0] == ChainReply::ChainId(connected),
        connected != flows[0].addrs.chain_id,
    ensures
        steps[0].action == ChainAction::Fail(
            ChainError::WrongChain { connected, expected: flows[0].addrs.chain_id },
        ),
{
    assert(flow_step(flows[0], replies[0], flows[1], steps[0]));
}

/// How a dilution goes on the right chain: it sends its transaction at once, and is
/// done with a successful receipt.
pub proof fn dilution_sends_at_once(
    flows: Seq<BatchFlow>,
    replies: Seq<ChainReply>,
    steps: Seq<ChainStep>,
)
    requires
        flow_run(flows, replies, steps),
        flows[0].purpose is Dilute,
        replies.len() >= 2,
        replies[0] == ChainReply::ChainId(flows[0].addrs.chain_id),
    ensures
        steps[0].action is SendIncreaseDepth,
        replies[1] matches ChainReply::Receipt { ok, tx, .. } ==> steps[1].action == (if ok {
            ChainAction::Done
        } else {
            ChainAction::Fail(ChainError::Reverted { what: Transaction::IncreaseDepth, tx })
        }),
{
    assert(flow_step(flows[0], replies[0], flows[1], steps[0]));
    assert(flow_step(flows[1], replies[1], flows[2], steps[1]));
}

/// How a command ends once its transaction was sent: a reverted one is the error; a
/// successful one is the end, but a creation whose receipt tells of no new batch is
/// an error, and one that tells of one reports its id and the id that was expected,
/// the hash of twelve zero bytes, the sender and the nonce.
pub proof fn receipt_ends_a_command(
    f: BatchFlow,
    ok: bool,
    tx: Bytes32,
    logs: Vec<Log>,
    g: BatchFlow,
    s: ChainStep,
)
    requires
        flow_step(f, ChainReply::Receipt { ok, tx, logs }, g, s),
        f.stage == FlowStage::Receipt,
    ensures
        g.stage == FlowStage::Over,
        !ok && f.purpose is Create ==> s.action == ChainAction::Fail(
            ChainError::Reverted { what: Transaction::CreateBatch, tx },
        ),
        !ok && f.purpose is TopUp ==> s.action == ChainAction::Fail(
            ChainError::Reverted { what: Transaction::TopUp, tx },
        ),
        !ok && f.purpose is Dilute ==> s.action == ChainAction::Fail(
            ChainError::Reverted { what: Transaction::IncreaseDepth, tx },
        ),
        ok && !(f.purpose is Create) ==> s.action == ChainAction::Done,
        ok && f.purpose is Create ==> match created_batch(logs_of(logs@)) {
            None => s.action == ChainAction::Fail(ChainError::NoBatchCreated),
            Some(id) => {
                let expected = keccak(
                    Seq::new(12, |i: int| 0u8) + f.sender@ + f.purpose->Create_nonce@,
                );
                &&& s.action == ChainAction::Done
                &&& lines_of(s.lines@).len() == (if id == expected {
                    4nat
                } else {
                    5nat
                })
                &&& lines_of(s.lines@)[1] == "  tx hash:  "@ + hex_0x(tx@)
                &&& lines_of(s.lines@)[2] == "  batch id: "@ + hex_0x(id)
                &&& lines_of(s.lines@)[3] == "  local id: "@ + hex_0x(expected)
            },
        },
{
    assert(zeros(12) =~= Seq::new(12, |i: int| 0u8));
}

/// How a batch is shown: its state is read, then its remaining balance, and the
/// lines give what was read, each under its label.
pub proof fn batch_is_shown_as_read(
    flows: Seq<BatchFlow>,
    replies: Seq<ChainReply>,
    steps: Seq<ChainStep>,
    state: BatchState,
    remaining: Amount,
)
    requires
        flow_run(flows, replies, steps),
        flows[0].purpose is Info,
        replies.len() >= 3,
        replies[0] == ChainReply::ChainId(flows[0].addrs.chain_id),
        replies[1] == ChainReply::Batch(state),
        replies[2] == ChainReply::Remaining(remaining),
        exists|i: int| 0 <= i < 20 && #[trigger] state.owner@[i] != 0,
    ensures
        ({
            let id = flows[0].purpose->Info_batch_id;
            let contract = flows[0].addrs.postage;
            let lines = lines_of(steps[2].lines@);
            &&& steps[0].action == (ChainAction::ReadBatch { contract, batch_id: id })
            &&& steps[1].action == (ChainAction::ReadRemaining { contract, batch_id: id })
            &&& steps[2].action == ChainAction::Done
            &&& lines.len() == 7
            &&& lines[0] == "Batch "@ + hex_0x(id@)
            &&& lines[1] == "  owner:             "@ + hex_0x(state.owner@)
            &&& lines[2] == "  depth:             "@ + dec(state.depth as nat)
            &&& lines[3] == "  bucket depth:      "@ + dec(state.bucket_depth as nat)
            &&& lines[4] == "  immutable:         "@ + (if state.immutable {
                "true"@
            } else {
                "false"@
            })
            &&& lines[5] == "  remaining/chunk:   "@ + bzz_text(remaining@) + " BZZ"@
            &&& lines[6] == "  last updated block: "@ + dec(state.last_updated_block@)
        }),
{
    assert(flow_step(flows[0], replies[0], flows[1], steps[0]));
    let i = choose|i: int| 0 <= i < 20 && #[trigger] state.owner@[i] != 0;
    assert(zeros(20)[i] == 0);
    assert(flow_step(flows[1], replies[1], flows[2], steps[1]));
    assert(flow_step(flows[2], replies[2], flows[3], steps[2]));
}

/// A command announces what it sends: the last line before a transaction gives the
/// balance per chunk, the depths, the cost and the batch, as the command has them.
pub proof fn transaction_is_announced(
    f: BatchFlow,
    r: ChainReply,
    g: BatchFlow,
    s: ChainStep,
)
    requires
        flow_step(f, r, g, s),
        s.action is SendCreate || s.action is SendTopUp || s.action is SendIncreaseDepth,
    ensures
        lines_of(s.lines@).len() > 0,
        lines_of(s.lines@).last() == (match f.purpose {
            Purpose::Create { per_chunk, depth, bucket_depth, .. } => "Creating batch: "@
                + bzz_text(per_chunk@) + " BZZ/chunk, depth "@ + dec(depth as nat)
                + ", bucket depth "@ + dec(bucket_depth as nat) + ", total "@ + bzz_text(f.total@)
                + " BZZ"@,
            Purpose::TopUp { batch_id, per_chunk } => "Topping up batch "@ + hex_0x(batch_id@)
                + ": "@ + bzz_text(per_chunk@) + " BZZ/chunk, depth "@ + dec(f.batch.depth as nat)
                + ", total "@ + bzz_text(f.total@) + " BZZ"@,
            Purpose::Dilute { batch_id, depth } => "Increasing depth of batch "@ + hex_0x(
                batch_id@,
            ) + " to "@ + dec(depth as nat) + "..."@,
            Purpose::Info { .. } => Seq::empty(),
        }),
        r matches ChainReply::Allowance(current) ==> lines_of(s.lines@)[0]
            == "Allowance already sufficient ("@ + bzz_text(current@) + " BZZ)"@,
        r matches ChainReply::Receipt { tx, .. } ==> lines_of(s.lines@)[0] == "  approve tx: "@
            + hex_0x(tx@),
{
}

/// A log that tells of a new batch, whatever its other fields: two topics, the hash
/// of the event's signature and the batch; and six words of data, the third of
/// which ends in the owner.
pub open spec fn event_log(
    id: Seq<u8>,
    words: Seq<Seq<u8>>,
    owner: Seq<u8>,
    log: LogView,
) -> bool {
    &&& words.len() == 6
    &&& forall|i: int| 0 <= i < 6 ==> (#[trigger] words[i]).len() == 32
    &&& owner.len() == 20
    &&& words[2].skip(12) == owner
    &&& log.topics == seq![
        keccak(
            vstd::utf8::encode_utf8(
                "BatchCreated(bytes32,uint256,uint256,address,uint8,uint8,bool)"@,
            ),
        ),
        id,
    ]
    &&& log.data == words[0] + words[1] + words[2] + words[3] + words[4] + words[5]
}

/// The first event of a new batch among the logs of a receipt gives the batch,
/// whatever stands in its other fields; logs before it that are no such event are
/// passed over.
pub proof fn receipt_tells_of_the_batch(
    before: Seq<LogView>,
    log: LogView,
    after: Seq<LogView>,
    id: Seq<u8>,
    words: Seq<Seq<u8>>,
    owner: Seq<u8>,
)
    requires
        event_log(id, words, owner, log),
        forall|i: int|
            0 <= i < before.len() ==> (#[trigger] before[i]).topics.len() != 2
                || before[i].topics[0] != log.topics[0] || before[i].data.len() < 192,
    ensures
        created_batch(before + seq![log] + after) == Some(id),
    decreases before.len(),
{
    let logs = before + seq![log] + after;
    if before.len() == 0 {
        assert(logs[0] == log);
    } else {
        assert(logs[0] == before[0]);
        let rest = before.skip(1);
        assert forall|i: int| 0 <= i < rest.len() implies (#[trigger] rest[i]).topics.len() != 2
            || rest[i].topics[0] != log.topics[0] || rest[i].data.len() < 192 by {
            assert(rest[i] == before[i + 1]);
        }
        receipt_tells_of_the_batch(rest, log, after, id, words, owner);
        assert(logs.skip(1) =~= rest + seq![log] + after);
    }
}

/// Logs among which there is no event of a new batch tell of none.
pub proof fn other_logs_tell_of_nothing(logs: Seq<LogView>)
    requires
        forall|i: int|
            0 <= i < logs.len() ==> (#[trigger] logs[i]).topics.len() != 2 || logs[i].topics[0]
                != keccak(
                vstd::utf8::encode_utf8(
                    "BatchCreated(bytes32,uint256,uint256,address,uint8,uint8,bool)"@,
                ),
            ) || logs[i].data.len() < 192,
    ensures
        created_batch(logs) is None,
    decreases logs.len(),
{
    if logs.len() > 0 {
        let rest = logs.skip(1);
        assert forall|i: int| 0 <= i < rest.len() implies (#[trigger] rest[i]).topics.len() != 2
            || rest[i].topics[0] != keccak(
            vstd::utf8::encode_utf8(
                "BatchCreated(bytes32,uint256,uint256,address,uint8,uint8,bool)"@,
            ),
        ) || rest[i].data.len() < 192 by {
            assert(rest[i] == logs[i + 1]);
        }
        other_logs_tell_of_nothing(rest);
        assert(logs[0].topics.len() != 2 || logs[0].topics[0] != keccak(created_event())
            || logs[0].data.len() < 192);
    }
}

/// A creation is planned as its arguments say: depth, bucket depth and immutability
/// are those given; the owner is the account that the owner's text spells, or the
/// sender where there is none; the nonce is what its text spells, or the fallback;
/// and the cost is the balance per chunk times two to the power of the depth, in
/// 256 bits. It starts on the network's chain.
pub proof fn creation_is_planned_as_given(
    network: Network,
    sender: Seq<u8>,
    amount: &str,
    depth: u8,
    bucket_depth: u8,
    immutable: bool,
    owner: Option<&str>,
    nonce: Option<&str>,
    fallback: Seq<u8>,
    f: BatchFlow,
)
    requires
        create_plan(
            network,
            sender,
            amount,
            depth,
            bucket_depth,
            immutable,
            owner,
            nonce,
            fallback,
            Ok(f),
        ),
    ensures
        f.sender@ == sender,
        f.stage == FlowStage::ChainId,
        f.addrs.chain_id == (match network {
            Network::Gnosis => 100u64,
            Network::Sepolia => 11155111u64,
        }),
        f.purpose is Create,
        f.purpose->Create_depth == depth,
        f.purpose->Create_bucket_depth == bucket_depth,
        f.purpose->Create_immutable == immutable,
        owner is None ==> f.purpose->Create_owner@ == sender,
        owner matches Some(t) ==> {
            let b = t.spec_bytes();
            let account = f.purpose->Create_owner@;
            spells(b, account) || (b.len() == 42 && b[0] == 48 && spells(b.skip(2), account))
        },
        nonce is None ==> f.purpose->Create_nonce@ == fallback,
        nonce matches Some(t) ==> {
            let b = t.spec_bytes();
            let value = f.purpose->Create_nonce@;
            spells(b, value) || (b.len() == 66 && b[0] == 48 && b[1] == 120 && spells(
                b.skip(2),
                value,
            ))
        },
        units_of(amount.spec_bytes()) == Some(f.purpose->Create_per_chunk@),
        f.total@ == (f.purpose->Create_per_chunk@ * pow2(depth as nat)) % pow2(256),
{
    if let Some(t) = owner {
        crate::hexes::read_account_was_spelled(t.spec_bytes(), f.purpose->Create_owner@);
    }
    if let Some(t) = nonce {
        crate::hexes::read_bytes_were_spelled(
            t.spec_bytes(),
            f.purpose->Create_nonce@,
            crate::hexes::ParseFault::WrongLength(0),
        );
    }
}

/// Good arguments are taken: where the owner, if one is given, is an account in
/// digits, the nonce, if one is given, 32 bytes in digits, and the amount a number
/// of tokens, the command is planned.
pub proof fn good_arguments_are_taken(
    network: Network,
    sender: Seq<u8>,
    amount: &str,
    depth: u8,
    bucket_depth: u8,
    immutable: bool,
    owner: Option<&str>,
    nonce: Option<&str>,
    fallback: Seq<u8>,
    r: Result<BatchFlow, PlanError>,
    account: Seq<u8>,
    value: Seq<u8>,
)
    requires
        create_plan(
            network,
            sender,
            amount,
            depth,
            bucket_depth,
            immutable,
            owner,
            nonce,
            fallback,
            r,
        ),
        account.len() == 20,
        value.len() == 32,
        owner matches Some(t) ==> spells(t.spec_bytes(), account) || (t.spec_bytes().len() == 42
            && t.spec_bytes()[0] == 48 && t.spec_bytes()[1] == 120 && spells(
            t.spec_bytes().skip(2),
            account,
        )),
        nonce matches Some(t) ==> spells(t.spec_bytes(), value) || (t.spec_bytes().len() == 66
            && t.spec_bytes()[0] == 48 && t.spec_bytes()[1] == 120 && spells(
            t.spec_bytes().skip(2),
            value,
        )),
        units_of(amount.spec_bytes()) is Some,
    ensures
        r is Ok,
        owner is Some ==> r->Ok_0.purpose->Create_owner@ == account,
        nonce is Some ==> r->Ok_0.purpose->Create_nonce@ == value,
{
    if let Some(t) = owner {
        let b = t.spec_bytes();
        let digits = if spells(b, account) {
            b
        } else {
            b.skip(2)
        };
        if !spells(b, account) {
            assert(b =~= seq![48u8, 120u8] + digits);
        }
        let got = r->Ok_0.purpose->Create_owner@;
        let fault = r->Err_0->Owner_0;
        crate::hexes::accounts_read_as_they_spell(digits, account, got, 120, fault);
    }
    if let Some(t) = nonce {
        let b = t.spec_bytes();
        let digits = if spells(b, value) {
            b
        } else {
            b.skip(2)
        };
        if !spells(b, value) {
            assert(b =~= seq![48u8, 120u8] + digits);
        }
        let got = r->Ok_0.purpose->Create_nonce@;
        let fault = r->Err_0->Value_0.fault;
        crate::hexes::digits_read_as_they_spell(digits, value, got);
        crate::hexes::lemma_spelled_is_digits(digits, value);
        crate::hexes::read_bytes_were_spelled(b, got, fault);
    }
}

/// An event of a new batch tells of the batch, in its second topic, and of its owner,
/// in the last 20 bytes of its third word, whatever else stands in it; the first one
/// among the logs of a receipt counts.
pub proof fn event_tells_of_batch_and_owner(logs: Seq<LogView>, i: int)
    requires
        0 <= i < logs.len(),
        logs[i].topics.len() == 2,
        logs[i].topics[0] == keccak(
            vstd::utf8::encode_utf8(
                "BatchCreated(bytes32,uint256,uint256,address,uint8,uint8,bool)"@,
            ),
        ),
        logs[i].data.len() >= 192,
        forall|j: int|
            0 <= j < i ==> (#[trigger] logs[j]).topics.len() != 2 || logs[j].topics[0]
                != logs[i].topics[0] || logs[j].data.len() < 192,
    ensures
        created_batch(logs) == Some(logs[i].topics[1]),
        created(logs[i]) == Some((logs[i].topics[1], logs[i].data.take(96).skip(76))),
    decreases i,
{
    assert(logs[i].data.take(96).skip(76) =~= logs[i].data.subrange(76, 96));
    if i > 0 {
        let rest = logs.skip(1);
        assert(rest[i - 1] == logs[i]);
        assert forall|j: int| 0 <= j < i - 1 implies (#[trigger] rest[j]).topics.len() != 2
            || rest[j].topics[0] != rest[i - 1].topics[0] || rest[j].data.len() < 192 by {
            assert(rest[j] == logs[j + 1]);
        }
        event_tells_of_batch_and_owner(rest, i - 1);
        assert(logs[0].topics.len() != 2 || logs[0].topics[0] != logs[i].topics[0]
            || logs[0].data.len() < 192);
    }
}

/// An owner that is given is the owner that the chain is asked for: where a command
/// to create a batch was planned with the text of an account, and a run of it sends
/// the transaction, the owner in it is the account that the text spells. Without one
/// it is the sender. The other arguments go out as they were given, and the tokens
/// that are approved, or were allowed already, are the balance per chunk times two to
/// the power of the depth, in 256 bits.
pub proof fn given_arguments_are_sent(
    network: Network,
    sender: Seq<u8>,
    amount: &str,
    depth: u8,
    bucket_depth: u8,
    immutable: bool,
    owner: Option<&str>,
    nonce: Option<&str>,
    fallback: Seq<u8>,
    flows: Seq<BatchFlow>,
    replies: Seq<ChainReply>,
    steps: Seq<ChainStep>,
    k: int,
    account: Seq<u8>,
    value: Seq<u8>,
    units: nat,
)
    requires
        create_plan(
            network,
            sender,
            amount,
            depth,
            bucket_depth,
            immutable,
            owner,
            nonce,
            fallback,
            Ok(flows[0]),
        ),
        flow_run(flows, replies, steps),
        0 <= k < steps.len(),
        account.len() == 20,
        value.len() == 32,
        owner matches Some(t) ==> spells(t.spec_bytes(), account) || (t.spec_bytes().len() == 42
            && t.spec_bytes()[0] == 48 && t.spec_bytes()[1] == 120 && spells(
            t.spec_bytes().skip(2),
            account,
        )),
        owner is None ==> account == sender,
        nonce matches Some(t) ==> spells(t.spec_bytes(), value) || (t.spec_bytes().len() == 66
            && t.spec_bytes()[0] == 48 && t.spec_bytes()[1] == 120 && spells(
            t.spec_bytes().skip(2),
            value,
        )),
        nonce is None ==> value == fallback,
        units_of(amount.spec_bytes()) == Some(units),
    ensures
        match steps[k].action {
            ChainAction::SendCreate {
                contract,
                owner: o,
                per_chunk,
                depth: d,
                bucket_depth: b,
                nonce: n,
                immutable: i,
            } => {
                &&& o@ == account
                &&& per_chunk@ == units
                &&& d == depth
                &&& b == bucket_depth
                &&& n@ == value
                &&& i == immutable
                &&& replies[k] matches ChainReply::Allowance(current) ==> current@ >= (units * pow2(
                    depth as nat,
                )) % pow2(256)
            },
            ChainAction::SendApprove { amount: a, .. } => a@ == (units * pow2(depth as nat)) % pow2(
                256,
            ),
            ChainAction::SendTopUp { .. } => false,
            ChainAction::SendIncreaseDepth { .. } => false,
            _ => true,
        },
{
    good_arguments_are_taken(
        network,
        sender,
        amount,
        depth,
        bucket_depth,
        immutable,
        owner,
        nonce,
        fallback,
        Ok(flows[0]),
        account,
        value,
    );
    creation_is_planned_as_given(
        network,
        sender,
        amount,
        depth,
        bucket_depth,
        immutable,
        owner,
        nonce,
        fallback,
        flows[0],
    );
    flow_keeps_its_purpose(flows, replies, steps, k);
    assert(flow_step(flows[k], replies[k], flows[k + 1], steps[k]));
    creation_is_paid_in_full(flows, replies, steps, k, flows[0].total@);
    if steps[k].action is SendCreate {
        batch_is_created_as_asked(flows, replies, steps, k);
    }
}

/// Bad arguments are refused, the first in the order of owner, nonce and amount: an
/// owner that is not 40 digits behind its `0x`; a nonce that is not 64, under its
/// name; an amount that is no number, with its text.
pub proof fn bad_arguments_are_refused_in_order(
    network: Network,
    sender: Seq<u8>,
    amount: &str,
    depth: u8,
    bucket_depth: u8,
    immutable: bool,
    owner: Option<&str>,
    nonce: Option<&str>,
    fallback: Seq<u8>,
    r: Result<BatchFlow, PlanError>,
)
    requires
        create_plan(
            network,
            sender,
            amount,
            depth,
            bucket_depth,
            immutable,
            owner,
            nonce,
            fallback,
            r,
        ),
    ensures
        owner matches Some(t) ==> t.spec_bytes().len() != 40 && t.spec_bytes().len() != 42 ==> r
            matches Err(PlanError::Owner(_)),
        owner is None ==> (nonce matches Some(t) ==> t.spec_bytes().len() != 64
            && t.spec_bytes().len() != 66 ==> (r matches Err(PlanError::Value(e)) && e.what@
            == "nonce"@)),
        owner is None && nonce is None && units_of(amount.spec_bytes()) is None ==> (r matches Err(
            PlanError::Amount(e),
        ) && e.text@ == amount@),
        owner is None && nonce is None && units_of(amount.spec_bytes()) is Some ==> r is Ok,
        r matches Err(PlanError::Amount(e)) ==> units_of(amount.spec_bytes()) is None,
{
}

/// The contracts of the networks, as they are written: the PostageStamp contract, the
/// BZZ token, the chain and the block of deployment.
pub proof fn networks_have_their_contracts(a: ChainAddrs)
    ensures
        address_book(Network::Gnosis, a) ==> {
            &&& hex_0x(a.postage@) == "0x45a1502382541cd610cc9068e88727426b696293"@
            &&& hex_0x(a.bzz@) == "0xdbf3ea6f5bee45c02255b2c26a16f300502f68da"@
            &&& a.chain_id == 100
            &&& a.postage_deploy_block == 31305656
        },
        address_book(Network::Sepolia, a) ==> {
            &&& hex_0x(a.postage@) == "0xcdfdc3752caaa826fe62531e0000c40546ec56a6"@
            &&& hex_0x(a.bzz@) == "0x543ddb01ba47acb11de34891cd86b675f04840db"@
            &&& a.chain_id == 11155111
            &&& a.postage_deploy_block == 6596277
        },
{
    reveal_strlit("0x");
    reveal_strlit("0x45a1502382541cd610cc9068e88727426b696293");
    reveal_strlit("0xdbf3ea6f5bee45c02255b2c26a16f300502f68da");
    reveal_strlit("0xcdfdc3752caaa826fe62531e0000c40546ec56a6");
    reveal_strlit("0x543ddb01ba47acb11de34891cd86b675f04840db");
    assert(hex_0x(gnosis_postage()) =~= "0x45a1502382541cd610cc9068e88727426b696293"@);
    assert(hex_0x(gnosis_bzz()) =~= "0xdbf3ea6f5bee45c02255b2c26a16f300502f68da"@);
    assert(hex_0x(sepolia_postage()) =~= "0xcdfdc3752caaa826fe62531e0000c40546ec56a6"@);
    assert(hex_0x(sepolia_bzz()) =~= "0x543ddb01ba47acb11de34891cd86b675f04840db"@);
}

/// What a command prints besides: nothing while it only asks and where it fails; what
/// it approves, with the cost; and, at its end, what was done, with the hash of the
/// transaction, and a warning where a new batch's id is not the expected one.
pub proof fn command_reports_its_steps(f: BatchFlow, r: ChainReply, g: BatchFlow, s: ChainStep)
    requires
        flow_step(f, r, g, s),
    ensures
        s.action is Fail || s.action is ReadBatch || s.action is ReadAllowance ==> s.lines@.len()
            == 0,
        s.action is SendApprove ==> lines_of(s.lines@) == seq![
            "Approving "@ + bzz_text(f.total@) + " BZZ to PostageStamp..."@,
        ] && s.action->SendApprove_amount == f.total,
        f.purpose is TopUp && s.action is Done ==> (r matches ChainReply::Receipt { tx, .. }
            && lines_of(s.lines@) == seq!["Batch topped up"@, "  tx hash: "@ + hex_0x(tx@)]),
        f.purpose is Dilute && s.action is Done ==> (r matches ChainReply::Receipt { tx, .. }
            && lines_of(s.lines@) == seq!["Batch diluted"@, "  tx hash: "@ + hex_0x(tx@)]),
        f.purpose is Create && s.action is Done ==> {
            let expected = keccak(
                Seq::new(12, |i: int| 0u8) + f.sender@ + f.purpose->Create_nonce@,
            );
            &&& lines_of(s.lines@)[0] == "Batch created"@
            &&& lines_of(s.lines@).len() == 5 ==> lines_of(s.lines@)[4]
                == "  warning: locally computed id "@ + hex_0x(expected)
                + " differs from on-chain id"@
        },
{
    assert(zeros(12) =~= Seq::new(12, |i: int| 0u8));
    if s.action is Fail || s.action is ReadBatch || s.action is ReadAllowance {
        assert(lines_of(s.lines@).len() == s.lines@.len());
    }
}

/// The words for a failed command name both chains, the batch, or the transaction and
/// its hash.
pub proof fn chain_errors_say_why(connected: u64, expected: u64, id: Bytes32, tx: Bytes32)
    ensures
        chain_message(ChainError::WrongChain { connected, expected }) == "RPC chain id "@ + dec(
            connected as nat,
        ) + " does not match the selected network (expected "@ + dec(expected as nat) + ")"@,
        chain_message(ChainError::NoSuchBatch { batch_id: id }) == "batch "@ + hex_0x(id@)
            + " does not exist"@,
        chain_message(ChainError::Reverted { what: Transaction::Approve, tx }) == "approve"@
            + " transaction reverted (tx "@ + hex_0x(tx@) + ")"@,
        chain_message(ChainError::Reverted { what: Transaction::CreateBatch, tx })
            == "createBatch"@ + " transaction reverted (tx "@ + hex_0x(tx@) + ")"@,
        chain_message(ChainError::Reverted { what: Transaction::TopUp, tx }) == "topUp"@
            + " transaction reverted (tx "@ + hex_0x(tx@) + ")"@,
        chain_message(ChainError::Reverted { what: Transaction::IncreaseDepth, tx })
            == "increaseDepth"@ + " transaction reverted (tx "@ + hex_0x(tx@) + ")"@,
        chain_message(ChainError::NoBatchCreated)
            == "BatchCreated event not found in transaction receipt"@,
{
}

/// The decoder takes an event of a new batch for what it is: a log with two topics, the
/// first of them the hash of the event's signature, and 192 bytes of data or more gives
/// its second topic and bytes 76 to 95 of its data, whatever else it holds; any other log
/// gives nothing.
pub proof fn events_are_decoded(log: Log, r: Option<(Bytes32, Bytes20)>)
    requires
        call_ensures(decode_created, (&log,), r),
    ensures
        ({
            let signature = vstd::utf8::encode_utf8(
                "BatchCreated(bytes32,uint256,uint256,address,uint8,uint8,bool)"@,
            );
            let event = log.topics@.len() == 2 && log.topics@[0]@ == keccak(signature)
                && log.data@.len() >= 192;
            &&& r is Some <==> event
            &&& r matches Some((id, owner)) ==> id@ == log.topics@[1]@ && owner@.len() == 20
                && forall|i: int| 0 <= i < 20 ==> owner@[i] == log.data@[76 + i]
        }),
{
    logs_are_seen_as_they_are(seq![log], 0);
    assert(logs_of(seq![log])[0] == log@);
    if let Some((id, owner)) = r {
        assert(owner@ == log.data@.subrange(76, 96));
    }
}

/// Logs are seen as they are: each with its topics, in order, and its data.
pub proof fn logs_are_seen_as_they_are(logs: Seq<Log>, i: int)
    requires
        0 <= i < logs.len(),
    ensures
        logs_of(logs).len() == logs.len(),
        logs_of(logs)[i].data == logs[i].data@,
        logs_of(logs)[i].topics.len() == logs[i].topics@.len(),
        forall|j: int|
            0 <= j < logs[i].topics@.len() ==> #[trigger] logs_of(logs)[i].topics[j]
                == logs[i].topics@[j]@,
{
}

/// The commands on a batch that exists: each names the batch that its text spells, and
/// goes to the network's contract, with the amount in base units or the depth as given.
/// Text that is not 64 digits behind its `0x` is refused as a batch id.
pub proof fn commands_name_their_batch(
    network: Network,
    sender: &Bytes20,
    text: &str,
    amount: &str,
    depth: u8,
    id: Seq<u8>,
    units: nat,
    top_up: Result<BatchFlow, PlanError>,
    diluted: Result<BatchFlow, PlanError>,
    shown: Result<BatchFlow, PlanError>,
)
    requires
        call_ensures(topup, (network, sender, text, amount), top_up),
        call_ensures(dilute, (network, sender, text, depth), diluted),
        call_ensures(info, (network, text), shown),
        id.len() == 32,
        spells(text.spec_bytes(), id) || (text.spec_bytes().len() == 66 && text.spec_bytes()[0] == 48
            && text.spec_bytes()[1] == 120 && spells(text.spec_bytes().skip(2), id)),
    ensures
        units_of(amount.spec_bytes()) == Some(units) ==> (top_up matches Ok(f)
            && f.purpose is TopUp && f.purpose->TopUp_batch_id@ == id
            && f.purpose->TopUp_per_chunk@ == units && f.sender@ == sender@ && f.stage
            == FlowStage::ChainId && address_book(network, f.addrs)),
        units_of(amount.spec_bytes()) is None ==> (top_up matches Err(PlanError::Amount(e))
            && e.text@ == amount@),
        diluted matches Ok(f) && f.purpose is Dilute && f.purpose->Dilute_batch_id@ == id
            && f.purpose->Dilute_depth == depth && f.sender@ == sender@ && f.stage
            == FlowStage::ChainId && address_book(network, f.addrs),
        shown matches Ok(f) && f.purpose is Info && f.purpose->Info_batch_id@ == id && f.stage
            == FlowStage::ChainId && address_book(network, f.addrs),
{
    let b = text.spec_bytes();
    let digits = if spells(b, id) {
        b
    } else {
        b.skip(2)
    };
    if !spells(b, id) {
        assert(b =~= seq![48u8, 120u8] + digits);
    }
    crate::hexes::lemma_spelled_is_digits(digits, id);
    crate::hexes::digits_read_as_they_spell(digits, id, top_up->Ok_0.purpose->TopUp_batch_id@);
    crate::hexes::digits_read_as_they_spell(digits, id, diluted->Ok_0.purpose->Dilute_batch_id@);
    crate::hexes::digits_read_as_they_spell(digits, id, shown->Ok_0.purpose->Info_batch_id@);
    crate::hexes::read_bytes_were_spelled(b, id, top_up->Err_0->Value_0.fault);
    crate::hexes::read_bytes_were_spelled(b, id, diluted->Err_0->Value_0.fault);
    crate::hexes::read_bytes_were_spelled(b, id, shown->Err_0->Value_0.fault);
}

/// Text of another length than 64, or 66 with its `0x`, is refused as a batch id by every
/// command on a batch.
pub proof fn other_text_names_no_batch(
    network: Network,
    sender: &Bytes20,
    text: &str,
    amount: &str,
    depth: u8,
    top_up: Result<BatchFlow, PlanError>,
    diluted: Result<BatchFlow, PlanError>,
    shown: Result<BatchFlow, PlanError>,
)
    requires
        call_ensures(topup, (network, sender, text, amount), top_up),
        call_ensures(dilute, (network, sender, text, depth), diluted),
        call_ensures(info, (network, text), shown),
        text.spec_bytes().len() != 64,
        text.spec_bytes().len() != 66,
    ensures
        top_up matches Err(PlanError::Value(e)) && e.what@ == "batch id"@,
        diluted matches Err(PlanError::Value(e)) && e.what@ == "batch id"@,
        shown matches Err(PlanError::Value(e)) && e.what@ == "batch id"@,
{
}

/// A new batch is found in the logs where an event tells of it, and only there; the id
/// that is expected of it is the hash of twelve zero bytes, the sender and the nonce; and
/// a chain is the right one where its id is the network's.
pub proof fn new_batches_are_found(
    logs: Vec<Log>,
    found: Option<Bytes32>,
    sender: &Bytes20,
    nonce: &Bytes32,
    expected: Bytes32,
    addrs: &ChainAddrs,
    connected: u64,
    checked: Result<(), ChainError>,
    topic: Bytes32,
)
    requires
        call_ensures(find_created, (&logs,), found),
        call_ensures(local_batch_id, (sender, nonce), expected),
        call_ensures(verify_chain_id, (addrs, connected), checked),
        call_ensures(created_topic, (), topic),
    ensures
        topic@ == keccak(
            vstd::utf8::encode_utf8(
                "BatchCreated(bytes32,uint256,uint256,address,uint8,uint8,bool)"@,
            ),
        ),
        found is Some <==> exists|i: int|
            0 <= i < logs@.len() && (#[trigger] logs@[i]).topics@.len() == 2 && logs@[i].topics@[0]@
                == topic@ && logs@[i].data@.len() >= 192,
        found matches Some(id) ==> exists|i: int|
            0 <= i < logs@.len() && (#[trigger] logs@[i]).topics@.len() == 2 && logs@[i].topics@[1]@
                == id@,
        expected@ == keccak(Seq::new(12, |i: int| 0u8) + sender@ + nonce@),
        checked is Ok <==> connected == addrs.chain_id,
        checked matches Err(e) ==> e == (ChainError::WrongChain {
            connected,
            expected: addrs.chain_id,
        }),
{
    assert(zeros(12) =~= Seq::new(12, |i: int| 0u8));
    let all = logs_of(logs@);
    lemma_first_event(all);
    if found is Some {
        let i = choose|i: int|
            0 <= i < all.len() && (#[trigger] all[i]).topics.len() == 2 && all[i].topics[0]
                == keccak(created_event()) && all[i].data.len() >= 192 && created_batch(all) == Some(
                all[i].topics[1],
            );
        logs_are_seen_as_they_are(logs@, i);
        assert(all[i].topics[0] == logs@[i].topics@[0]@);
        assert(all[i].topics[1] == logs@[i].topics@[1]@);
        assert(logs@[i].topics@.len() == 2);
    } else {
        assert forall|i: int| 0 <= i < logs@.len() implies !((#[trigger] logs@[i]).topics@.len() == 2
            && logs@[i].topics@[0]@ == topic@ && logs@[i].data@.len() >= 192) by {
            logs_are_seen_as_they_are(logs@, i);
            if logs@[i].topics@.len() == 2 {
                assert(all[i].topics[0] == logs@[i].topics@[0]@);
            }
        }
    }
}

proof fn lemma_first_event(logs: Seq<LogView>)
    ensures
        created_batch(logs) is Some ==> exists|i: int|
            0 <= i < logs.len() && (#[trigger] logs[i]).topics.len() == 2 && logs[i].topics[0]
                == keccak(created_event()) && logs[i].data.len() >= 192 && created_batch(logs)
                == Some(logs[i].topics[1]),
        created_batch(logs) is None ==> forall|i: int|
            0 <= i < logs.len() ==> !((#[trigger] logs[i]).topics.len() == 2 && logs[i].topics[0]
                == keccak(created_event()) && logs[i].data.len() >= 192),
    decreases logs.len(),
{
    if logs.len() > 0 {
        let rest = logs.skip(1);
        lemma_first_event(rest);
        if created(logs[0]) is None {
            if created_batch(rest) is Some {
                let i = choose|i: int|
                    0 <= i < rest.len() && (#[trigger] rest[i]).topics.len() == 2
                        && rest[i].topics[0] == keccak(created_event()) && rest[i].data.len() >= 192
                        && created_batch(rest) == Some(rest[i].topics[1]);
                assert(logs[i + 1] == rest[i]);
            } else {
                assert forall|i: int| 0 <= i < logs.len() implies !((
                #[trigger] logs[i]).topics.len() == 2 && logs[i].topics[0] == keccak(
                    created_event(),
                ) && logs[i].data.len() >= 192) by {
                    if i > 0 {
                        assert(logs[i] == rest[i - 1]);
                    }
                }
            }
        }
    }
}

/// The address book has one entry for each network, with its chain's id.
pub proof fn networks_are_told_apart(gnosis: ChainAddrs, sepolia: ChainAddrs)
    requires
        call_ensures(addrs_for, (Network::Gnosis,), gnosis),
        call_ensures(addrs_for, (Network::Sepolia,), sepolia),
    ensures
        gnosis.chain_id == 100,
        sepolia.chain_id == 11155111,
        hex_0x(gnosis.postage@) == "0x45a1502382541cd610cc9068e88727426b696293"@,
        hex_0x(sepolia.postage@) == "0xcdfdc3752caaa826fe62531e0000c40546ec56a6"@,
        hex_0x(gnosis.bzz@) == "0xdbf3ea6f5bee45c02255b2c26a16f300502f68da"@,
        hex_0x(sepolia.bzz@) == "0x543ddb01ba47acb11de34891cd86b675f04840db"@,
{
    networks_have_their_contracts(gnosis);
    networks_have_their_contracts(sepolia);
}

/// A command first asks for the chain's id, and each reply takes one step.
pub proof fn commands_go_step_by_step(
    f: &mut BatchFlow,
    start: BatchFlow,
    first: ChainAction,
    reply: ChainReply,
    s: ChainStep,
)
    requires
        call_ensures(BatchFlow::begin, (&start,), first),
        call_ensures(BatchFlow::on_reply, (f, reply), s),
    ensures
        first is ReadChainId,
        flow_step(*old(f), reply, *final(f), s),
        final(f).purpose == old(f).purpose,
        final(f).sender == old(f).sender,
        final(f).addrs == old(f).addrs,
{
}

/// A command that is done or has failed is over, and whatever still comes is out of step;
/// so is a reply that the command is not waiting for. Before a transaction that pays, two
/// lines are printed; before one that does not, one.
pub proof fn commands_end_once(f: BatchFlow, r: ChainReply, g: BatchFlow, s: ChainStep)
    requires
        flow_step(f, r, g, s),
    ensures
        s.action is Done || s.action is Fail <==> g.stage == FlowStage::Over,
        f.stage == FlowStage::Over ==> s.action == ChainAction::Fail(ChainError::OutOfStep),
        f.stage == FlowStage::ChainId && !(r is ChainId) ==> s.action == ChainAction::Fail(
            ChainError::OutOfStep,
        ),
        f.stage == FlowStage::Batch && !(r is Batch) ==> s.action == ChainAction::Fail(
            ChainError::OutOfStep,
        ),
        f.stage == FlowStage::Allowance && !(r is Allowance) ==> s.action == ChainAction::Fail(
            ChainError::OutOfStep,
        ),
        f.stage == FlowStage::Approval && !(r is Receipt) ==> s.action == ChainAction::Fail(
            ChainError::OutOfStep,
        ),
        f.stage == FlowStage::Receipt && !(r is Receipt) ==> s.action == ChainAction::Fail(
            ChainError::OutOfStep,
        ),
        f.stage == FlowStage::Remaining && !(r is Remaining) ==> s.action == ChainAction::Fail(
            ChainError::OutOfStep,
        ),
        s.action is SendCreate || s.action is SendTopUp ==> s.lines@.len() == 2,
        s.action is SendIncreaseDepth && f.stage == FlowStage::ChainId ==> s.lines@.len() == 1,
{
    assert(lines_of(s.lines@).len() == s.lines@.len());
}

/// A creation goes by its plan, with the nonce that it was given or, without one, with some
/// 32 bytes.
pub proof fn creations_are_planned(
    network: Network,
    sender: &Bytes20,
    amount: &str,
    depth: u8,
    bucket_depth: u8,
    immutable: bool,
    owner: Option<&str>,
    nonce: Option<&str>,
    fallback: Bytes32,
    given: Result<BatchFlow, PlanError>,
    random: Result<BatchFlow, PlanError>,
)
    requires
        call_ensures(
            create_with,
            (network, sender, amount, depth, bucket_depth, immutable, owner, nonce, fallback),
            given,
        ),
        call_ensures(
            create,
            (network, sender, amount, depth, bucket_depth, immutable, owner, nonce),
            random,
        ),
    ensures
        create_plan(
            network,
            sender@,
            amount,
            depth,
            bucket_depth,
            immutable,
            owner,
            nonce,
            fallback@,
            given,
        ),
        given is Ok <==> random is Ok,
        given is Ok ==> {
            let f = given->Ok_0.purpose;
            let g = random->Ok_0.purpose;
            &&& g->Create_owner@ == f->Create_owner@
            &&& g->Create_per_chunk@ == f->Create_per_chunk@
            &&& g->Create_depth == f->Create_depth
            &&& g->Create_bucket_depth == f->Create_bucket_depth
            &&& g->Create_immutable == f->Create_immutable
            &&& nonce is Some ==> g->Create_nonce@ == f->Create_nonce@
            &&& random->Ok_0.total@ == given->Ok_0.total@
            &&& given->Ok_0.sender@ == sender@
            &&& random->Ok_0.sender@ == sender@
        },
{
    let any = choose|any: Seq<u8>|
        any.len() == 32 && #[trigger] create_plan(
            network,
            sender@,
            amount,
            depth,
            bucket_depth,
            immutable,
            owner,
            nonce,
            any,
            random,
        );
    if let Some(t) = owner {
        if is_account(t.spec_bytes()) {
            lemma_no_bad_byte(strip_either(t.spec_bytes()));
        }
    }
    if let Some(t) = nonce {
        if is_hex32(t.spec_bytes()) {
            lemma_no_bad_byte(strip_0x(t.spec_bytes()));
        }
    }
}

proof fn lemma_no_bad_byte(digits: Seq<u8>)
    requires
        all_hex(digits),
    ensures
        forall|i: int| !#[trigger] crate::hexes::first_bad(digits, i),
{
    assert forall|i: int| !#[trigger] crate::hexes::first_bad(digits, i) by {
        if 0 <= i < digits.len() {
            assert(crate::hexes::is_hex_digit(digits[i]));
        }
    }
}

/// The words for a failed command, and for arguments that were refused.
pub proof fn chain_errors_are_shown(
    e: ChainError,
    shown: String,
    p: PlanError,
    refused: String,
)
    requires
        call_ensures(ChainError::message, (&e,), shown),
        call_ensures(PlanError::message, (&p,), refused),
    ensures
        shown@ == chain_message(e),
        p is Owner ==> refused@ == "invalid owner address"@,
        p matches PlanError::Value(v) ==> refused@ == crate::hexes::parse_message(v.what@, v.fault),
        p matches PlanError::Amount(a) ==> refused@ == "invalid BZZ amount: "@ + a.text@,
{
}

} // verus!
