use dipper::bytes::Bytes32;
use dipper::download::{
    DownloadError, Item, LevelFetch, Next, RoundEnd, Walk, LEVEL_ROUNDS, MAX_LEVELS,
};
use dipper::table::ByteTable;
use std::collections::HashMap;

fn address(n: u8) -> Bytes32 {
    Bytes32 { bytes: [n; 32] }
}

fn leaf(data: &[u8]) -> Vec<u8> {
    let mut wire = (data.len() as u64).to_le_bytes().to_vec();
    wire.extend_from_slice(data);
    wire
}

fn inner(span: u64, children: &[Bytes32]) -> Vec<u8> {
    let mut wire = span.to_le_bytes().to_vec();
    for c in children {
        wire.extend_from_slice(&c.bytes);
    }
    wire
}

type Network = HashMap<[u8; 32], Vec<u8>>;

fn fetch(network: &Network, level: &[Bytes32]) -> ByteTable {
    let mut table = ByteTable::new();
    for a in level {
        if let Some(body) = network.get(&a.bytes) {
            table.insert(a.bytes.to_vec(), body.clone());
        }
    }
    table
}

fn download(network: &Network, root: Bytes32) -> Result<Vec<u8>, DownloadError> {
    let mut walk = Walk::new(root);
    loop {
        match walk.next_level()? {
            Next::Complete => return Ok(walk.finish()),
            Next::Fetch(level) => walk = walk.expand(&fetch(network, &level))?,
        }
    }
}

#[test]
fn single_leaf_is_the_file() {
    let network: Network = [([1; 32], leaf(b"hello"))].into();
    assert_eq!(download(&network, address(1)).expect("a file"), b"hello");
}

#[test]
fn leaves_come_in_file_order() {
    let network: Network = [
        ([1; 32], inner(9000, &[address(2), address(3), address(2)])),
        ([2; 32], leaf(b"two")),
        ([3; 32], leaf(b"three")),
    ]
    .into();
    assert_eq!(download(&network, address(1)).expect("a file"), b"twothreetwo");
}

#[test]
fn leaves_of_different_depths_come_in_file_order() {
    // The last chunk of a file stands beside the full subtree before it.
    let network: Network = [
        ([1; 32], inner(90_000, &[address(2), address(3)])),
        ([2; 32], inner(8000, &[address(4), address(5)])),
        ([3; 32], leaf(b"last")),
        ([4; 32], leaf(b"first")),
        ([5; 32], leaf(b"second")),
    ]
    .into();
    assert_eq!(download(&network, address(1)).expect("a file"), b"firstsecondlast");
}

#[test]
fn leaf_limit_is_the_largest_payload() {
    let mut at_limit = 4096u64.to_le_bytes().to_vec();
    at_limit.extend_from_slice(&[7; 40]);
    let network: Network = [([1; 32], at_limit)].into();
    assert_eq!(download(&network, address(1)).expect("a leaf"), vec![7; 40]);

    let network: Network =
        [([1; 32], inner(4097, &[address(2)])), ([2; 32], leaf(b"x"))].into();
    assert_eq!(download(&network, address(1)).expect("a subtree"), b"x");
}

#[test]
fn malformed_trees_are_refused() {
    let network: Network = [([1; 32], vec![0; 7])].into();
    let e = download(&network, address(1)).err().expect("short");
    assert_eq!(
        e.message(),
        format!("chunk {} body shorter than span header (7 bytes)", "01".repeat(32))
    );

    let mut ragged = inner(5000, &[address(2)]);
    ragged.push(0);
    let network: Network = [([1; 32], ragged)].into();
    let e = download(&network, address(1)).err().expect("ragged");
    assert_eq!(
        e.message(),
        format!("intermediate chunk {} body is not a multiple of 32 bytes", "01".repeat(32))
    );

    let network: Network = [([1; 32], inner(5000, &[address(2)]))].into();
    let e = download(&network, address(1)).err().expect("missing");
    assert_eq!(e.message(), format!("node did not return chunk {}", "02".repeat(32)));
}

#[test]
fn first_fault_in_file_order_is_reported() {
    let network: Network = [
        ([1; 32], inner(5000, &[address(2), address(3), address(4)])),
        ([2; 32], leaf(b"fine")),
        ([4; 32], vec![1]),
    ]
    .into();
    match download(&network, address(1)) {
        Err(DownloadError::NotReturned { address: a }) => assert_eq!(a, address(3)),
        _ => panic!("chunk 3 is missing"),
    }
}

#[test]
fn cyclic_trees_end_at_the_depth_limit() {
    let network: Network = [([1; 32], inner(5000, &[address(1)]))].into();
    let e = download(&network, address(1)).err().expect("too deep");
    assert_eq!(e.message(), "file tree deeper than 64 levels; refusing to recurse further");

    // A chain of exactly the limit is walked.
    let mut network = Network::new();
    for i in 1..MAX_LEVELS as u8 {
        network.insert([i; 32], inner(5000, &[address(i + 1)]));
    }
    network.insert([MAX_LEVELS as u8; 32], leaf(b"deep"));
    assert_eq!(download(&network, address(1)).expect("a file"), b"deep");
}

#[test]
fn intermediate_without_children_is_an_empty_file() {
    let network: Network = [([1; 32], inner(5000, &[]))].into();
    assert!(download(&network, address(1)).expect("a file").is_empty());
}

/// Plays a round whose stream brings the given items.
fn play(fetch: &mut LevelFetch, items: Vec<Item>) -> (Vec<Bytes32>, dipper::download::Round) {
    let mut round = fetch.start_round().expect("a round is due");
    let asked = fetch.requests(&round);
    for item in items {
        assert!(!round.is_over());
        fetch.absorb(&mut round, item);
    }
    assert!(round.is_over());
    (asked, round)
}

#[test]
fn a_round_pairs_responses_with_requests() {
    let mut level = LevelFetch::new(vec![address(1), address(2)]);
    let (asked, round) =
        play(&mut level, vec![Item::Response(vec![1, 1]), Item::Response(vec![2, 2])]);
    assert_eq!(asked, vec![address(1), address(2)]);
    match level.end_round(round) {
        RoundEnd::Complete(bodies) => {
            assert_eq!(bodies.len(), 2);
            assert_eq!(bodies.get(&[1; 32]), Some(&vec![1, 1]));
            assert_eq!(bodies.get(&[2; 32]), Some(&vec![2, 2]));
        }
        RoundEnd::Again { .. } => panic!("nothing failed"),
    }
}

#[test]
fn stragglers_are_asked_for_again() {
    let mut level = LevelFetch::new(vec![address(1), address(2), address(3), address(4)]);
    // An empty response marks its address; the end of the stream the rest.
    let (_, round) = play(
        &mut level,
        vec![Item::Response(vec![]), Item::Response(vec![2]), Item::End],
    );
    let (mut level, pause) = match level.end_round(round) {
        RoundEnd::Again { fetch, pause_millis, notice } => {
            assert_eq!(notice, "retrying 3 chunk(s) that failed in round 0");
            (fetch, pause_millis)
        }
        RoundEnd::Complete(_) => panic!("some failed"),
    };
    assert_eq!(pause, 500);
    let (asked, round) = play(
        &mut level,
        vec![Item::Response(vec![1]), Item::Response(vec![3]), Item::Response(vec![4])],
    );
    assert_eq!(asked, vec![address(1), address(3), address(4)]);
    match level.end_round(round) {
        RoundEnd::Complete(bodies) => assert_eq!(bodies.len(), 4),
        RoundEnd::Again { .. } => panic!("all are there"),
    }
}

#[test]
fn a_broken_stream_leaves_the_rest_for_the_next_round() {
    let mut level = LevelFetch::new(vec![address(1), address(2)]);
    let (_, round) = play(&mut level, vec![Item::Error]);
    match level.end_round(round) {
        RoundEnd::Again { fetch, .. } => {
            let round = fetch.start_round().expect("another round");
            assert_eq!(fetch.requests(&round), vec![address(1), address(2)]);
        }
        RoundEnd::Complete(_) => panic!("nothing came"),
    }
}

#[test]
fn a_level_gives_up_after_its_last_round() {
    let mut level = LevelFetch::new(vec![address(1), address(1)]);
    let mut pauses: Vec<u64> = Vec::new();
    for _ in 0..LEVEL_ROUNDS {
        let round = match level.start_round() {
            Some(mut round) => {
                if pauses.is_empty() {
                    // One of the two places arrives, the other fails.
                    level.absorb(&mut round, Item::Response(vec![1]));
                }
                level.absorb(&mut round, Item::End);
                round
            }
            None => panic!("a round is due"),
        };
        level = match level.end_round(round) {
            RoundEnd::Again { fetch, pause_millis, .. } => {
                pauses.push(pause_millis);
                fetch
            }
            RoundEnd::Complete(_) => panic!("never complete"),
        };
    }
    assert_eq!(&pauses[..5], &[500, 1000, 1500, 2000, 2000]);
    assert_eq!(pauses.len(), LEVEL_ROUNDS);
    assert!(level.start_round().is_none());
    let e = level.finish().err().expect("stragglers");
    assert_eq!(e.message(), "1 of 1 chunks failed in round 14; retrying");
}

#[test]
fn an_empty_level_needs_no_round() {
    let level = LevelFetch::new(vec![]);
    assert!(level.start_round().is_none());
    assert_eq!(level.finish().ok().expect("nothing to fetch").len(), 0);
}
