use alloy_primitives::U256;
use dipper::amount::Amount;
use dipper::bytes::{Bytes20, Bytes32};
use dipper::chain::{
    addrs_for, create, create_with, created_topic, decode_created, dilute, find_created, info,
    local_batch_id, topup, verify_chain_id, BatchFlow, BatchState, ChainAction, ChainError, ChainReply, FlowStage,
    Log, Network, PlanError, Purpose,
};
use dipper::discover::{
    batch_report, list_header_text, reported_usage, DiscoveredBatch, Discovery, ScanAction,
    ScanReply, Usage,
    LOG_PAGE_BLOCKS,
};
use dipper::hexes::show_0x;

const ONE: u64 = 10_000_000_000_000_000;

fn small(v: u64) -> Amount {
    Amount { limbs: [v, 0, 0, 0] }
}

fn sender() -> Bytes20 {
    Bytes20 { bytes: [0x51; 20] }
}

fn id(n: u8) -> Bytes32 {
    Bytes32 { bytes: [n; 32] }
}

fn tx() -> Bytes32 {
    Bytes32 { bytes: [0x77; 32] }
}

fn created_log(batch: Bytes32, owner: Bytes20) -> Log {
    let mut data = vec![0xee; 192];
    data[76..96].copy_from_slice(&owner.bytes);
    Log { topics: vec![created_topic(), batch], data }
}

fn state(owner: Bytes20, depth: u8) -> BatchState {
    BatchState {
        owner,
        depth,
        bucket_depth: 16,
        immutable: true,
        last_updated_block: small(123_456),
    }
}

fn receipt(ok: bool, logs: Vec<Log>) -> ChainReply {
    ChainReply::Receipt { ok, tx: tx(), logs }
}

fn new_batch(nonce: &str) -> BatchFlow {
    create_with(Network::Gnosis, &sender(), "1.5", 20, 16, true, None, Some(nonce), id(0))
        .ok()
        .expect("a command")
}

#[test]
fn address_book_has_both_networks() {
    let g = addrs_for(Network::Gnosis);
    assert_eq!(show_0x(&g.postage.bytes), "0x45a1502382541cd610cc9068e88727426b696293");
    assert_eq!(show_0x(&g.bzz.bytes), "0xdbf3ea6f5bee45c02255b2c26a16f300502f68da");
    assert_eq!(g.chain_id, 100);
    assert_eq!(g.postage_deploy_block, 31_305_656);
    let s = addrs_for(Network::Sepolia);
    assert_eq!(show_0x(&s.postage.bytes), "0xcdfdc3752caaa826fe62531e0000c40546ec56a6");
    assert_eq!(show_0x(&s.bzz.bytes), "0x543ddb01ba47acb11de34891cd86b675f04840db");
    assert_eq!(s.chain_id, 11_155_111);
    assert_eq!(s.postage_deploy_block, 6_596_277);
}

#[test]
fn new_batches_are_read_from_logs() {
    let topic = alloy_primitives::keccak256(
        "BatchCreated(bytes32,uint256,uint256,address,uint8,uint8,bool)",
    );
    assert_eq!(created_topic().bytes, topic.0);

    let log = created_log(id(4), sender());
    assert_eq!(decode_created(&log), Some((id(4), sender())));

    let mut longer = log.clone();
    longer.data.push(1);
    assert!(decode_created(&longer).is_some());
    let mut short = log.clone();
    short.data.pop();
    assert!(decode_created(&short).is_none());
    let mut other = log.clone();
    other.topics[0] = id(1);
    assert!(decode_created(&other).is_none());
    let mut more = log.clone();
    more.topics.push(id(1));
    assert!(decode_created(&more).is_none());

    assert_eq!(find_created(&vec![other.clone(), log, created_log(id(5), sender())]), Some(id(4)));
    assert_eq!(find_created(&vec![other]), None);
    assert_eq!(find_created(&vec![]), None);
}

#[test]
fn expected_id_hashes_sender_and_nonce() {
    let mut encoded = vec![0; 12];
    encoded.extend_from_slice(&sender().bytes);
    encoded.extend_from_slice(&id(9).bytes);
    assert_eq!(local_batch_id(&sender(), &id(9)).bytes, alloy_primitives::keccak256(&encoded).0);
}

#[test]
fn creation_takes_its_arguments() {
    let owner = "11".repeat(20);
    let f = create_with(
        Network::Sepolia,
        &sender(),
        "0.25",
        4,
        2,
        false,
        Some(&owner),
        Some(&"0a".repeat(32)),
        id(0),
    )
    .ok()
    .expect("a command");
    assert_eq!(f.addrs, addrs_for(Network::Sepolia));
    assert_eq!(f.sender, sender());
    assert_eq!(f.stage, FlowStage::ChainId);
    assert_eq!(f.total, small(4 * ONE));
    assert_eq!(
        f.purpose,
        Purpose::Create {
            owner: Bytes20 { bytes: [0x11; 20] },
            per_chunk: small(ONE / 4),
            depth: 4,
            bucket_depth: 2,
            nonce: id(10),
            immutable: false,
        }
    );
}

#[test]
fn creation_falls_back_on_sender_and_random_nonce() {
    let make = || create(Network::Gnosis, &sender(), "1", 20, 16, false, None, None).ok().expect("a command");
    match (make().purpose, make().purpose) {
        (
            Purpose::Create { owner, nonce: first, .. },
            Purpose::Create { nonce: second, .. },
        ) => {
            assert_eq!(owner, sender());
            assert_ne!(first, second);
        }
        _ => panic!("a creation"),
    }
}

#[test]
fn creation_refuses_what_it_cannot_read() {
    let refused = |amount: &str, owner: Option<&str>, nonce: Option<&str>| {
        create_with(Network::Gnosis, &sender(), amount, 20, 16, false, owner, nonce, id(0))
            .err()
            .expect("refused")
    };
    let e = refused("x", Some("0x12"), Some("zz"));
    assert!(matches!(e, PlanError::Owner(_)));
    assert_eq!(e.message(), "invalid owner address");
    let e = refused("x", None, Some("zz"));
    assert_eq!(e.message(), "nonce is not valid hex");
    let e = refused("x", None, None);
    assert_eq!(e.message(), "invalid BZZ amount: x");
    let e = topup(Network::Gnosis, &sender(), "0x12", "x").err().expect("refused");
    assert_eq!(e.message(), "batch id must be 32 bytes (64 hex chars), got 1");
    let e = topup(Network::Gnosis, &sender(), &"12".repeat(32), "x").err().expect("refused");
    assert_eq!(e.message(), "invalid BZZ amount: x");
    assert!(dilute(Network::Gnosis, &sender(), "0x123", 3).is_err());
    assert!(info(Network::Gnosis, "").is_err());
}

#[test]
fn creation_with_enough_allowance_sends_no_approval() {
    let nonce = id(3);
    let mut f = new_batch(&show_0x(&nonce.bytes));
    assert_eq!(f.begin(), ChainAction::ReadChainId);
    let s = f.on_reply(ChainReply::ChainId(100));
    let addrs = addrs_for(Network::Gnosis);
    assert!(s.lines.is_empty());
    assert_eq!(
        s.action,
        ChainAction::ReadAllowance { token: addrs.bzz, owner: sender(), spender: addrs.postage }
    );
    let s = f.on_reply(ChainReply::Allowance(f.total));
    assert_eq!(
        s.lines,
        vec![
            "Allowance already sufficient (1572864.0000000000000000 BZZ)".to_string(),
            "Creating batch: 1.5000000000000000 BZZ/chunk, depth 20, bucket depth 16, total \
             1572864.0000000000000000 BZZ"
                .to_string(),
        ]
    );
    assert_eq!(
        s.action,
        ChainAction::SendCreate {
            contract: addrs.postage,
            owner: sender(),
            per_chunk: small(15 * ONE / 10),
            depth: 20,
            bucket_depth: 16,
            nonce,
            immutable: true,
        }
    );
    let made = local_batch_id(&sender(), &nonce);
    let s = f.on_reply(receipt(true, vec![created_log(made, sender())]));
    assert_eq!(s.action, ChainAction::Done);
    assert_eq!(
        s.lines,
        vec![
            "Batch created".to_string(),
            format!("  tx hash:  {}", show_0x(&tx().bytes)),
            format!("  batch id: {}", show_0x(&made.bytes)),
            format!("  local id: {}", show_0x(&made.bytes)),
        ]
    );
}

#[test]
fn creation_with_too_little_allowance_approves_the_cost() {
    let nonce = id(3);
    let mut f = new_batch(&show_0x(&nonce.bytes));
    f.on_reply(ChainReply::ChainId(100));
    let s = f.on_reply(ChainReply::Allowance(small(ONE)));
    let addrs = addrs_for(Network::Gnosis);
    assert_eq!(
        s.lines,
        vec!["Approving 1572864.0000000000000000 BZZ to PostageStamp...".to_string()]
    );
    let total: U256 = U256::from(15 * ONE / 10) << 20usize;
    assert_eq!(
        s.action,
        ChainAction::SendApprove {
            token: addrs.bzz,
            spender: addrs.postage,
            amount: Amount { limbs: total.into_limbs() },
        }
    );
    let s = f.on_reply(receipt(true, vec![]));
    assert_eq!(s.lines[0], format!("  approve tx: {}", show_0x(&tx().bytes)));
    assert!(s.lines[1].starts_with("Creating batch: "));
    assert!(matches!(s.action, ChainAction::SendCreate { .. }));

    // The chain's id is the one that counts; another one is worth a warning.
    let s = f.on_reply(receipt(true, vec![created_log(id(8), sender())]));
    assert_eq!(s.lines[2], format!("  batch id: {}", show_0x(&id(8).bytes)));
    let local = local_batch_id(&sender(), &nonce);
    assert_eq!(s.lines[3], format!("  local id: {}", show_0x(&local.bytes)));
    assert_eq!(
        s.lines[4],
        format!(
            "  warning: locally computed id {} differs from on-chain id",
            show_0x(&local.bytes)
        )
    );
}

#[test]
fn nothing_is_sent_on_another_chain() {
    let mut f = new_batch(&"03".repeat(32));
    let s = f.on_reply(ChainReply::ChainId(1));
    assert_eq!(
        s.action,
        ChainAction::Fail(ChainError::WrongChain { connected: 1, expected: 100 })
    );
    assert_eq!(
        ChainError::WrongChain { connected: 1, expected: 100 }.message(),
        "RPC chain id 1 does not match the selected network (expected 100)"
    );
    let s = f.on_reply(ChainReply::ChainId(100));
    assert_eq!(s.action, ChainAction::Fail(ChainError::OutOfStep));
    assert_eq!(ChainError::OutOfStep.message(), "unexpected reply from the chain");
}

#[test]
fn chain_ids_are_compared() {
    let addrs = addrs_for(Network::Sepolia);
    assert_eq!(verify_chain_id(&addrs, 11_155_111), Ok(()));
    assert_eq!(
        verify_chain_id(&addrs, 100),
        Err(ChainError::WrongChain { connected: 100, expected: 11_155_111 })
    );
}

#[test]
fn reverted_transactions_end_a_command() {
    let mut f = new_batch(&"03".repeat(32));
    f.on_reply(ChainReply::ChainId(100));
    f.on_reply(ChainReply::Allowance(small(0)));
    match f.on_reply(receipt(false, vec![])).action {
        ChainAction::Fail(e) => assert_eq!(
            e.message(),
            format!("approve transaction reverted (tx {})", show_0x(&tx().bytes))
        ),
        _ => panic!("a failure"),
    }

    let mut f = new_batch(&"03".repeat(32));
    f.on_reply(ChainReply::ChainId(100));
    f.on_reply(ChainReply::Allowance(Amount { limbs: [u64::MAX; 4] }));
    let mut g = f;
    match f.on_reply(receipt(false, vec![created_log(id(1), sender())])).action {
        ChainAction::Fail(e) => assert_eq!(
            e.message(),
            format!("createBatch transaction reverted (tx {})", show_0x(&tx().bytes))
        ),
        _ => panic!("a failure"),
    }
    match g.on_reply(receipt(true, vec![])).action {
        ChainAction::Fail(e) => {
            assert_eq!(e.message(), "BatchCreated event not found in transaction receipt")
        }
        _ => panic!("a failure"),
    }
}

#[test]
fn top_up_costs_by_the_stored_depth() {
    let batch = show_0x(&id(6).bytes);
    let start = || {
        let mut f = topup(Network::Sepolia, &sender(), &batch, "2").ok().expect("a command");
        let s = f.on_reply(ChainReply::ChainId(11_155_111));
        let contract = addrs_for(Network::Sepolia).postage;
        assert_eq!(s.action, ChainAction::ReadBatch { contract, batch_id: id(6) });
        f
    };
    let mut f = start();
    f.on_reply(ChainReply::Batch(state(sender(), 3)));
    assert_eq!(f.total, small(16 * ONE));
    let s = f.on_reply(ChainReply::Allowance(small(16 * ONE)));
    assert_eq!(
        s.lines[1],
        format!(
            "Topping up batch {batch}: 2.0000000000000000 BZZ/chunk, depth 3, total \
             16.0000000000000000 BZZ"
        )
    );
    assert_eq!(
        s.action,
        ChainAction::SendTopUp {
            contract: addrs_for(Network::Sepolia).postage,
            batch_id: id(6),
            per_chunk: small(2 * ONE),
        }
    );
    let mut g = f;
    let s = f.on_reply(receipt(true, vec![]));
    assert_eq!(
        s.lines,
        vec!["Batch topped up".to_string(), format!("  tx hash: {}", show_0x(&tx().bytes))]
    );
    match g.on_reply(receipt(false, vec![])).action {
        ChainAction::Fail(e) => assert_eq!(
            e.message(),
            format!("topUp transaction reverted (tx {})", show_0x(&tx().bytes))
        ),
        _ => panic!("a failure"),
    }

    let mut f = start();
    let s = f.on_reply(ChainReply::Batch(state(Bytes20 { bytes: [0; 20] }, 3)));
    match s.action {
        ChainAction::Fail(e) => assert_eq!(e.message(), format!("batch {batch} does not exist")),
        _ => panic!("a failure"),
    }
}

#[test]
fn dilution_sends_one_transaction() {
    let batch = show_0x(&id(6).bytes);
    let mut f = dilute(Network::Gnosis, &sender(), &batch, 24).ok().expect("a command");
    let s = f.on_reply(ChainReply::ChainId(100));
    assert_eq!(s.lines, vec![format!("Increasing depth of batch {batch} to 24...")]);
    assert_eq!(
        s.action,
        ChainAction::SendIncreaseDepth {
            contract: addrs_for(Network::Gnosis).postage,
            batch_id: id(6),
            depth: 24,
        }
    );
    let mut g = f;
    let s = f.on_reply(receipt(true, vec![]));
    assert_eq!(
        s.lines,
        vec!["Batch diluted".to_string(), format!("  tx hash: {}", show_0x(&tx().bytes))]
    );
    match g.on_reply(receipt(false, vec![])).action {
        ChainAction::Fail(e) => assert_eq!(
            e.message(),
            format!("increaseDepth transaction reverted (tx {})", show_0x(&tx().bytes))
        ),
        _ => panic!("a failure"),
    }
}

#[test]
fn batches_are_shown() {
    let batch = show_0x(&id(6).bytes);
    let mut f = info(Network::Gnosis, &batch).ok().expect("a command");
    f.on_reply(ChainReply::ChainId(100));
    let s = f.on_reply(ChainReply::Batch(state(sender(), 22)));
    assert_eq!(
        s.action,
        ChainAction::ReadRemaining {
            contract: addrs_for(Network::Gnosis).postage,
            batch_id: id(6),
        }
    );
    let s = f.on_reply(ChainReply::Remaining(small(7)));
    assert_eq!(s.action, ChainAction::Done);
    assert_eq!(
        s.lines,
        vec![
            format!("Batch {batch}"),
            format!("  owner:             {}", show_0x(&sender().bytes)),
            "  depth:             22".to_string(),
            "  bucket depth:      16".to_string(),
            "  immutable:         true".to_string(),
            "  remaining/chunk:   0.0000000000000007 BZZ".to_string(),
            "  last updated block: 123456".to_string(),
        ]
    );
}

#[test]
fn discovery_pages_through_the_chain() {
    let addrs = addrs_for(Network::Gnosis);
    let start = addrs.postage_deploy_block;
    let head = start + 2 * LOG_PAGE_BLOCKS + 7;
    let mut d = Discovery::new(addrs, sender());
    assert_eq!(d.begin(), ScanAction::ReadHead);

    let page = |from: u64, to: u64| ScanAction::ReadLogs {
        contract: addrs.postage,
        topic: created_topic(),
        from,
        to,
    };
    let stranger = Bytes20 { bytes: [1; 20] };
    let mut garbled = created_log(id(9), sender());
    garbled.data.clear();

    assert_eq!(d.on_reply(ScanReply::Head(head)), page(start, start + LOG_PAGE_BLOCKS - 1));
    let first = vec![created_log(id(1), sender()), created_log(id(2), stranger), garbled];
    assert_eq!(
        d.on_reply(ScanReply::Logs(first)),
        page(start + LOG_PAGE_BLOCKS, start + 2 * LOG_PAGE_BLOCKS - 1)
    );
    let second = vec![created_log(id(3), sender()), created_log(id(1), sender())];
    assert_eq!(
        d.on_reply(ScanReply::Logs(second)),
        page(start + 2 * LOG_PAGE_BLOCKS, head)
    );

    let batch = |n: u8| ScanAction::ReadBatch { contract: addrs.postage, batch_id: id(n) };
    assert_eq!(d.on_reply(ScanReply::Logs(vec![])), batch(1));
    assert_eq!(
        d.on_reply(ScanReply::State(state(stranger, 18))),
        ScanAction::ReadRemaining { contract: addrs.postage, batch_id: id(1) }
    );
    assert_eq!(d.on_reply(ScanReply::Remaining(small(5))), batch(3));
    let gone = state(Bytes20 { bytes: [0; 20] }, 0);
    assert_eq!(d.on_reply(ScanReply::State(gone)), ScanAction::Done);

    let found = d.finish();
    assert_eq!(found.len(), 2);
    assert_eq!(
        found[0],
        DiscoveredBatch {
            batch_id: id(1),
            owner: stranger,
            depth: 18,
            bucket_depth: 16,
            immutable: true,
            remaining_per_chunk: small(5),
            live: true,
        }
    );
    assert_eq!(found[1].batch_id, id(3));
    assert_eq!(found[1].owner, sender());
    assert_eq!(found[1].remaining_per_chunk, small(0));
    assert!(!found[1].live);
}

#[test]
fn discovery_of_a_chain_before_the_contract_finds_nothing() {
    let addrs = addrs_for(Network::Sepolia);
    let mut d = Discovery::new(addrs, sender());
    assert_eq!(d.on_reply(ScanReply::Head(addrs.postage_deploy_block - 1)), ScanAction::Done);
    assert!(d.finish().is_empty());

    let mut d = Discovery::new(addrs, sender());
    assert_eq!(d.on_reply(ScanReply::Logs(vec![])), ScanAction::OutOfStep);
}

#[test]
fn found_batches_are_listed() {
    assert_eq!(
        list_header_text(&sender(), 0),
        format!("No batches found for owner 0x{}", "51".repeat(20))
    );
    assert_eq!(
        list_header_text(&sender(), 2),
        format!("Batches owned by 0x{}:", "51".repeat(20))
    );
    let mut b = DiscoveredBatch {
        batch_id: id(1),
        owner: sender(),
        depth: 20,
        bucket_depth: 16,
        immutable: false,
        remaining_per_chunk: small(ONE),
        live: true,
    };
    assert_eq!(
        batch_report(&b, None),
        vec![format!(
            "  {}  depth {:<3} bucket {:<3} {:<9} {:<7} remaining/chunk {} BZZ",
            show_0x(&id(1).bytes),
            20,
            16,
            "mutable",
            "live",
            "1.0000000000000000"
        )]
    );
    b.immutable = true;
    b.live = false;
    let lines = batch_report(&b, Some(Usage::Snapshot { sequence: 4, peak: 9 }));
    assert!(lines[0].contains(" immutable expired remaining/chunk "));
    assert_eq!(lines[1], "      usage: sequence 4, peak bucket fill 9");
    let lines = batch_report(&b, Some(Usage::Unknown));
    assert_eq!(lines[1], "      usage: (no published snapshot)");
}

#[test]
fn usage_is_reported_where_the_node_can_be_reached() {
    let used = Usage::Snapshot { sequence: 4, peak: 9 };
    assert_eq!(reported_usage(true, Some(used)), Some(used));
    assert_eq!(reported_usage(true, None), Some(Usage::Unknown));
    assert_eq!(reported_usage(false, None), None);
    assert_eq!(reported_usage(false, Some(used)), None);
}
