//! What the node says of itself and of its peers, as lines for the terminal.

use vstd::prelude::*;

use crate::text::{
    dec, decimal, flush_left, flush_right, join2, join3, lines_of, pad_left, pad_right, truth,
    truth_text,
};

verus! {

/// A node's status.
pub struct Status {
    pub overlay_address: String,
    pub depth: u64,
    pub connected_peers: u64,
    pub known_peers: u64,
    pub pending_connections: u64,
    pub stored_peers: u64,
}

/// The lines that show a node's status.
pub open spec fn status_lines(s: Status) -> Seq<Seq<char>> {
    seq![
        "Overlay address:     0x"@ + s.overlay_address@,
        "Kademlia depth:      "@ + dec(s.depth as nat),
        "Connected peers:     "@ + dec(s.connected_peers as nat),
        "Known peers:         "@ + dec(s.known_peers as nat),
        "Pending connections: "@ + dec(s.pending_connections as nat),
        "Stored peers:        "@ + dec(s.stored_peers as nat),
    ]
}

/// Shows a node's status.
pub fn status(s: &Status) -> (lines: Vec<String>)
    ensures
        lines_of(lines@) == status_lines(*s),
{
    let mut v: Vec<String> = Vec::new();
    v.push(join2("Overlay address:     0x", s.overlay_address.as_str()));
    v.push(join2("Kademlia depth:      ", decimal(s.depth).as_str()));
    v.push(join2("Connected peers:     ", decimal(s.connected_peers).as_str()));
    v.push(join2("Known peers:         ", decimal(s.known_peers).as_str()));
    v.push(join2("Pending connections: ", decimal(s.pending_connections).as_str()));
    v.push(join2("Stored peers:        ", decimal(s.stored_peers).as_str()));
    assert(lines_of(v@) =~= status_lines(*s));
    v
}

/// The peers of one proximity order.
pub struct Bin {
    pub proximity_order: u64,
    pub connected_peers: u64,
    pub known_peers: u64,
    pub connected_peer_addresses: Vec<String>,
}

/// A node's view of the network.
pub struct Topology {
    pub overlay_address: String,
    pub depth: u64,
    pub bins: Vec<Bin>,
}

/// A row of the table of bins.
pub open spec fn row(a: Seq<char>, b: Seq<char>, c: Seq<char>) -> Seq<char> {
    flush_right(a, 3) + "  "@ + flush_right(b, 9) + "  "@ + flush_right(c, 9)
}

fn row_text(a: &str, b: &str, c: &str) -> (s: String)
    ensures
        s@ == row(a@, b@, c@),
{
    let mut s = pad_left(a, 3);
    s.append("  ");
    s.append(pad_left(b, 9).as_str());
    s.append("  ");
    s.append(pad_left(c, 9).as_str());
    s
}

/// The lines for the first `n` connected peers of a bin.
pub open spec fn peer_lines(peers: Seq<String>, n: nat) -> Seq<Seq<char>>
    decreases n,
{
    if n == 0 {
        Seq::empty()
    } else {
        peer_lines(peers, (n - 1) as nat).push("       - 0x"@ + peers[n - 1]@)
    }
}

/// The lines for the first `n` bins: a row for each, and its connected peers
/// under it.
pub open spec fn bin_lines(bins: Seq<Bin>, n: nat) -> Seq<Seq<char>>
    decreases n,
{
    if n == 0 {
        Seq::empty()
    } else {
        let b = bins[n - 1];
        bin_lines(bins, (n - 1) as nat).push(
            row(
                dec(b.proximity_order as nat),
                dec(b.connected_peers as nat),
                dec(b.known_peers as nat),
            ),
        ) + peer_lines(b.connected_peer_addresses@, b.connected_peer_addresses@.len())
    }
}

/// The lines that show a node's view of the network.
pub open spec fn topology_lines(t: Topology) -> Seq<Seq<char>> {
    seq![
        "Overlay address: 0x"@ + t.overlay_address@,
        "Depth:           "@ + dec(t.depth as nat),
        ""@,
        row("PO"@, "connected"@, "known"@),
    ] + bin_lines(t.bins@, t.bins@.len())
}

fn push_line(v: &mut Vec<String>, line: String)
    ensures
        lines_of(final(v)@) == lines_of(old(v)@).push(line@),
{
    let ghost before = v@;
    v.push(line);
    assert(lines_of(v@) =~= lines_of(before).push(line@));
}

/// Shows a node's view of the network, bin by bin.
pub fn topology(t: &Topology) -> (lines: Vec<String>)
    ensures
        lines_of(lines@) == topology_lines(*t),
{
    let mut v: Vec<String> = Vec::new();
    v.push(join2("Overlay address: 0x", t.overlay_address.as_str()));
    v.push(join2("Depth:           ", decimal(t.depth).as_str()));
    v.push(String::from_str(""));
    v.push(row_text("PO", "connected", "known"));
    let ghost head = lines_of(v@);
    proof {
        assert(head =~= topology_lines(*t).take(4));
        assert(head =~= head + bin_lines(t.bins@, 0));
    }
    let mut i: usize = 0;
    while i < t.bins.len()
        invariant
            i <= t.bins.len(),
            lines_of(v@) == head + bin_lines(t.bins@, i as nat),
        decreases t.bins.len() - i,
    {
        let b = &t.bins[i];
        push_line(
            &mut v,
            row_text(
                decimal(b.proximity_order).as_str(),
                decimal(b.connected_peers).as_str(),
                decimal(b.known_peers).as_str(),
            ),
        );
        let ghost so_far = lines_of(v@);
        let ghost peers = b.connected_peer_addresses@;
        let mut j: usize = 0;
        assert(so_far =~= so_far + peer_lines(peers, 0));
        while j < b.connected_peer_addresses.len()
            invariant
                j <= b.connected_peer_addresses.len(),
                peers == b.connected_peer_addresses@,
                lines_of(v@) == so_far + peer_lines(peers, j as nat),
            decreases b.connected_peer_addresses.len() - j,
        {
            push_line(&mut v, join2("       - 0x", b.connected_peer_addresses[j].as_str()));
            assert(lines_of(v@) =~= so_far + peer_lines(peers, (j + 1) as nat));
            j = j + 1;
        }
        assert(lines_of(v@) =~= head + bin_lines(t.bins@, (i + 1) as nat));
        i = i + 1;
    }
    assert(lines_of(v@) =~= topology_lines(*t));
    v
}

/// What the node knows of a peer. The score is given as it is shown.
pub struct PeerDiagnostics {
    pub overlay: String,
    pub peer_id: Option<String>,
    pub connected: bool,
    pub proximity_order: u64,
    pub direction: i32,
    pub trust: i32,
    pub verified: bool,
    pub score: Option<String>,
    pub ip: Option<String>,
    pub uptime_secs: Option<u64>,
    pub connected_since: Option<u64>,
    pub multiaddrs: Vec<String>,
}

/// The words for the direction of a connection.
pub open spec fn direction_name(direction: i32) -> Seq<char> {
    if direction == 1 {
        "inbound"@
    } else if direction == 2 {
        "outbound"@
    } else {
        "-"@
    }
}

/// The words for the direction of a connection.
pub fn direction_str(direction: i32) -> (s: &'static str)
    ensures
        s@ == direction_name(direction),
{
    if direction == 1 {
        "inbound"
    } else if direction == 2 {
        "outbound"
    } else {
        "-"
    }
}

/// The words for a level of trust.
pub open spec fn trust_name(trust: i32) -> Seq<char> {
    if trust == 0 {
        "normal"@
    } else if trust == 1 {
        "local"@
    } else if trust == 2 {
        "trusted"@
    } else {
        "-"@
    }
}

/// The words for a level of trust.
pub fn trust_str(trust: i32) -> (s: &'static str)
    ensures
        s@ == trust_name(trust),
{
    if trust == 0 {
        "normal"
    } else if trust == 1 {
        "local"
    } else if trust == 2 {
        "trusted"
    } else {
        "-"
    }
}

/// A line that is there only if its value is.
pub open spec fn optional_line(label: Seq<char>, value: Option<Seq<char>>, end: Seq<char>) -> Seq<
    Seq<char>,
> {
    match value {
        Some(t) => seq![label + t + end],
        None => Seq::empty(),
    }
}

/// A text, where there is one.
pub open spec fn text_view(t: Option<String>) -> Option<Seq<char>> {
    match t {
        Some(s) => Some(s@),
        None => None,
    }
}

/// A number's text, where there is one.
pub open spec fn number_view(n: Option<u64>) -> Option<Seq<char>> {
    match n {
        Some(v) => Some(dec(v as nat)),
        None => None,
    }
}

/// The lines for the first `n` addresses of a peer.
pub open spec fn address_lines(addrs: Seq<String>, n: nat) -> Seq<Seq<char>>
    decreases n,
{
    if n == 0 {
        Seq::empty()
    } else {
        address_lines(addrs, (n - 1) as nat).push("  - "@ + addrs[n - 1]@)
    }
}

/// The lines that show all that is known of a peer.
pub open spec fn long_lines(p: PeerDiagnostics) -> Seq<Seq<char>> {
    seq!["Overlay:         0x"@ + p.overlay@]
        + optional_line("Peer ID:         "@, text_view(p.peer_id), ""@)
        + seq![
            "Connected:       "@ + truth(p.connected),
            "Proximity order: "@ + dec(p.proximity_order as nat),
            "Direction:       "@ + direction_name(p.direction),
            "Trust:           "@ + trust_name(p.trust),
            "Verified:        "@ + truth(p.verified),
        ]
        + optional_line("Score:           "@, text_view(p.score), ""@)
        + optional_line("IP:              "@, text_view(p.ip), ""@)
        + optional_line("Uptime:          "@, number_view(p.uptime_secs), "s"@)
        + optional_line("Connected since: "@, number_view(p.connected_since), " (unix)"@)
        + (if p.multiaddrs@.len() == 0 {
            seq!["Multiaddrs:      (none known)"@]
        } else {
            seq!["Multiaddrs:"@] + address_lines(p.multiaddrs@, p.multiaddrs@.len())
        })
}

fn push_optional(v: &mut Vec<String>, label: &str, value: Option<&str>, end: &str)
    ensures
        lines_of(final(v)@) == lines_of(old(v)@) + optional_line(
            label@,
            (match value {
                Some(t) => Some(t@),
                None => None,
            }),
            end@,
        ),
{
    let ghost before = lines_of(v@);
    match value {
        Some(t) => {
            push_line(v, join3(label, t, end));
            assert(lines_of(v@) =~= before + seq![label@ + t@ + end@]);
        },
        None => {
            assert(lines_of(v@) =~= before + Seq::empty());
        },
    }
}

fn push_optional_text(v: &mut Vec<String>, label: &str, value: &Option<String>)
    ensures
        lines_of(final(v)@) == lines_of(old(v)@) + optional_line(label@, text_view(*value), ""@),
{
    match value {
        Some(t) => push_optional(v, label, Some(t.as_str()), ""),
        None => push_optional(v, label, None, ""),
    }
}

fn push_optional_number(v: &mut Vec<String>, label: &str, value: Option<u64>, end: &str)
    ensures
        lines_of(final(v)@) == lines_of(old(v)@) + optional_line(label@, number_view(value), end@),
{
    match value {
        Some(n) => push_optional(v, label, Some(decimal(n).as_str()), end),
        None => push_optional(v, label, None, end),
    }
}

/// Shows all that is known of a peer.
pub fn print_long(p: &PeerDiagnostics) -> (lines: Vec<String>)
    ensures
        lines_of(lines@) == long_lines(*p),
{
    let mut v: Vec<String> = Vec::new();
    push_line(&mut v, join2("Overlay:         0x", p.overlay.as_str()));
    assert(lines_of(v@) =~= seq!["Overlay:         0x"@ + p.overlay@]);
    push_optional_text(&mut v, "Peer ID:         ", &p.peer_id);
    let ghost start = lines_of(v@);
    push_line(&mut v, join2("Connected:       ", truth_text(p.connected)));
    push_line(&mut v, join2("Proximity order: ", decimal(p.proximity_order).as_str()));
    push_line(&mut v, join2("Direction:       ", direction_str(p.direction)));
    push_line(&mut v, join2("Trust:           ", trust_str(p.trust)));
    push_line(&mut v, join2("Verified:        ", truth_text(p.verified)));
    assert(lines_of(v@) =~= start + seq![
        "Connected:       "@ + truth(p.connected),
        "Proximity order: "@ + dec(p.proximity_order as nat),
        "Direction:       "@ + direction_name(p.direction),
        "Trust:           "@ + trust_name(p.trust),
        "Verified:        "@ + truth(p.verified),
    ]);
    push_optional_text(&mut v, "Score:           ", &p.score);
    push_optional_text(&mut v, "IP:              ", &p.ip);
    push_optional_number(&mut v, "Uptime:          ", p.uptime_secs, "s");
    push_optional_number(&mut v, "Connected since: ", p.connected_since, " (unix)");
    let ghost upto = lines_of(v@);
    if p.multiaddrs.len() == 0 {
        push_line(&mut v, String::from_str("Multiaddrs:      (none known)"));
        assert(lines_of(v@) =~= upto + seq!["Multiaddrs:      (none known)"@]);
    } else {
        push_line(&mut v, String::from_str("Multiaddrs:"));
        let ghost head = upto + seq!["Multiaddrs:"@];
        assert(lines_of(v@) =~= head + address_lines(p.multiaddrs@, 0));
        let mut i: usize = 0;
        while i < p.multiaddrs.len()
            invariant
                i <= p.multiaddrs.len(),
                lines_of(v@) == head + address_lines(p.multiaddrs@, i as nat),
            decreases p.multiaddrs.len() - i,
        {
            push_line(&mut v, join2("  - ", p.multiaddrs[i].as_str()));
            assert(lines_of(v@) =~= head + address_lines(p.multiaddrs@, (i + 1) as nat));
            i = i + 1;
        }
        assert(lines_of(v@) =~= upto + (seq!["Multiaddrs:"@] + address_lines(
            p.multiaddrs@,
            p.multiaddrs@.len(),
        )));
    }
    v
}

/// A row of the short table of peers.
pub open spec fn peer_row(
    state: Seq<char>,
    order: Seq<char>,
    direction: Seq<char>,
    trust: Seq<char>,
    score: Seq<char>,
    overlay: Seq<char>,
) -> Seq<char> {
    flush_left(state, 6) + "  "@ + flush_right(order, 3) + "  "@ + flush_left(direction, 9) + "  "@
        + flush_left(trust, 8) + "  "@ + flush_left(score, 11) + "  "@ + overlay
}

fn peer_row_text(
    state: &str,
    order: &str,
    direction: &str,
    trust: &str,
    score: &str,
    overlay: &str,
) -> (s: String)
    ensures
        s@ == peer_row(state@, order@, direction@, trust@, score@, overlay@),
{
    let mut s = pad_right(state, 6);
    s.append("  ");
    s.append(pad_left(order, 3).as_str());
    s.append("  ");
    s.append(pad_right(direction, 9).as_str());
    s.append("  ");
    s.append(pad_right(trust, 8).as_str());
    s.append("  ");
    s.append(pad_right(score, 11).as_str());
    s.append("  ");
    s.append(overlay);
    s
}

/// The row for a peer.
pub open spec fn short_line(p: PeerDiagnostics) -> Seq<char> {
    peer_row(
        if p.connected {
            "up"@
        } else {
            "known"@
        },
        dec(p.proximity_order as nat),
        direction_name(p.direction),
        trust_name(p.trust),
        match p.score {
            Some(s) => s@,
            None => "-"@,
        },
        "0x"@ + p.overlay@,
    )
}

/// The lines for the first `n` peers, in full, with an empty line after each.
pub open spec fn long_list(peers: Seq<PeerDiagnostics>, n: nat) -> Seq<Seq<char>>
    decreases n,
{
    if n == 0 {
        Seq::empty()
    } else {
        (long_list(peers, (n - 1) as nat) + long_lines(peers[n - 1])).push(""@)
    }
}

/// The rows for the first `n` peers.
pub open spec fn short_list(peers: Seq<PeerDiagnostics>, n: nat) -> Seq<Seq<char>>
    decreases n,
{
    if n == 0 {
        Seq::empty()
    } else {
        short_list(peers, (n - 1) as nat).push(short_line(peers[n - 1]))
    }
}

/// The lines that list peers.
pub open spec fn list_lines(peers: Seq<PeerDiagnostics>, long: bool) -> Seq<Seq<char>> {
    if peers.len() == 0 {
        seq!["No peers."@]
    } else if long {
        long_list(peers, peers.len())
    } else {
        seq![peer_row("STATE"@, "PO"@, "direction"@, "trust"@, "score"@, "overlay"@)] + short_list(
            peers,
            peers.len(),
        )
    }
}

fn push_all(v: &mut Vec<String>, more: Vec<String>)
    ensures
        lines_of(final(v)@) == lines_of(old(v)@) + lines_of(more@),
{
    let ghost before = v@;
    let ghost added = more@;
    let mut rest = more;
    v.append(&mut rest);
    assert(lines_of(v@) =~= lines_of(before) + lines_of(added));
}

/// Lists peers, in a table or in full.
pub fn list(peers: &Vec<PeerDiagnostics>, long: bool) -> (lines: Vec<String>)
    ensures
        lines_of(lines@) == list_lines(peers@, long),
{
    let mut v: Vec<String> = Vec::new();
    assert(lines_of(v@) =~= Seq::empty());
    if peers.len() == 0 {
        push_line(&mut v, String::from_str("No peers."));
        assert(lines_of(v@) =~= seq!["No peers."@]);
        return v;
    }
    let mut i: usize = 0;
    if long {
        while i < peers.len()
            invariant
                i <= peers.len(),
                lines_of(v@) == long_list(peers@, i as nat),
            decreases peers.len() - i,
        {
            push_all(&mut v, print_long(&peers[i]));
            push_line(&mut v, String::from_str(""));
            i = i + 1;
        }
        return v;
    }
    push_line(&mut v, peer_row_text("STATE", "PO", "direction", "trust", "score", "overlay"));
    let ghost head = seq![
        peer_row("STATE"@, "PO"@, "direction"@, "trust"@, "score"@, "overlay"@),
    ];
    assert(lines_of(v@) =~= head + short_list(peers@, 0));
    while i < peers.len()
        invariant
            i <= peers.len(),
            lines_of(v@) == head + short_list(peers@, i as nat),
        decreases peers.len() - i,
    {
        let p = &peers[i];
        let state = if p.connected {
            "up"
        } else {
            "known"
        };
        let score = match &p.score {
            Some(s) => s.as_str(),
            None => "-",
        };
        push_line(
            &mut v,
            peer_row_text(
                state,
                decimal(p.proximity_order).as_str(),
                direction_str(p.direction),
                trust_str(p.trust),
                score,
                join2("0x", p.overlay.as_str()).as_str(),
            ),
        );
        assert(lines_of(v@) =~= head + short_list(peers@, (i + 1) as nat));
        i = i + 1;
    }
    v
}

/// The lines that report a request to dial a peer.
pub open spec fn add_lines(accepted: bool, multiaddr: Seq<char>, peer: Option<PeerDiagnostics>) -> Seq<
    Seq<char>,
> {
    seq![
        (if accepted {
            "Dial queued for "@
        } else {
            "Dial rejected for "@
        }) + multiaddr,
    ] + (match peer {
        Some(p) => long_lines(p),
        None => Seq::empty(),
    })
}

/// Reports on a request to dial a peer.
pub fn add_report(accepted: bool, multiaddr: &str, peer: Option<&PeerDiagnostics>) -> (lines: Vec<
    String,
>)
    ensures
        lines_of(lines@) == add_lines(
            accepted,
            multiaddr@,
            (match peer {
                Some(p) => Some(*p),
                None => None,
            }),
        ),
{
    let mut v: Vec<String> = Vec::new();
    let line = if accepted {
        join2("Dial queued for ", multiaddr)
    } else {
        join2("Dial rejected for ", multiaddr)
    };
    v.push(line);
    let ghost first = seq![line@];
    assert(lines_of(v@) =~= first);
    match peer {
        Some(p) => push_all(&mut v, print_long(p)),
        None => {
            assert(lines_of(v@) =~= first + Seq::empty());
        },
    }
    v
}

/// Reports on a request to disconnect a peer.
pub fn remove_report(accepted: bool, overlay: &str) -> (line: String)
    ensures
        line@ == (if accepted {
            "Disconnect queued for "@
        } else {
            "Disconnect rejected for "@
        }) + overlay@,
{
    if accepted {
        join2("Disconnect queued for ", overlay)
    } else {
        join2("Disconnect rejected for ", overlay)
    }
}

/// A node's status is shown in six lines: each gives one of its numbers, or its
/// address, behind a label of 21 characters.
pub proof fn status_shows_every_field(s: Status)
    ensures
        status_lines(s).len() == 6,
        status_lines(s)[0] == "Overlay address:     "@ + ("0x"@ + s.overlay_address@),
        status_lines(s)[1].take(21) == "Kademlia depth:      "@,
        status_lines(s)[1].skip(21) == dec(s.depth as nat),
        status_lines(s)[2].take(21) == "Connected peers:     "@,
        status_lines(s)[2].skip(21) == dec(s.connected_peers as nat),
        status_lines(s)[3].take(21) == "Known peers:         "@,
        status_lines(s)[3].skip(21) == dec(s.known_peers as nat),
        status_lines(s)[4].take(21) == "Pending connections: "@,
        status_lines(s)[4].skip(21) == dec(s.pending_connections as nat),
        status_lines(s)[5].take(21) == "Stored peers:        "@,
        status_lines(s)[5].skip(21) == dec(s.stored_peers as nat),
{
    reveal_strlit("Overlay address:     0x");
    reveal_strlit("Overlay address:     ");
    reveal_strlit("0x");
    reveal_strlit("Kademlia depth:      ");
    reveal_strlit("Connected peers:     ");
    reveal_strlit("Known peers:         ");
    reveal_strlit("Pending connections: ");
    reveal_strlit("Stored peers:        ");
    let lines = status_lines(s);
    assert(lines[0] =~= "Overlay address:     "@ + ("0x"@ + s.overlay_address@));
    assert(lines[1].take(21) =~= "Kademlia depth:      "@);
    assert(lines[1].skip(21) =~= dec(s.depth as nat));
    assert(lines[2].take(21) =~= "Connected peers:     "@);
    assert(lines[2].skip(21) =~= dec(s.connected_peers as nat));
    assert(lines[3].take(21) =~= "Known peers:         "@);
    assert(lines[3].skip(21) =~= dec(s.known_peers as nat));
    assert(lines[4].take(21) =~= "Pending connections: "@);
    assert(lines[4].skip(21) =~= dec(s.pending_connections as nat));
    assert(lines[5].take(21) =~= "Stored peers:        "@);
    assert(lines[5].skip(21) =~= dec(s.stored_peers as nat));
}

/// Every connected peer of a bin has its line, in order.
pub proof fn every_peer_has_a_line(peers: Seq<String>, n: nat)
    requires
        n <= peers.len(),
    ensures
        peer_lines(peers, n).len() == n,
        forall|j: int|
            0 <= j < n ==> #[trigger] peer_lines(peers, n)[j] == "       - 0x"@ + peers[j]@,
    decreases n,
{
    if n > 0 {
        every_peer_has_a_line(peers, (n - 1) as nat);
    }
}

/// The line that bin `k` has in the table of bins: behind a line for each bin before it
/// and for each of their connected peers.
pub open spec fn bin_position(bins: Seq<Bin>, k: nat) -> nat
    decreases k,
{
    if k == 0 {
        0
    } else {
        bin_position(bins, (k - 1) as nat) + 1 + bins[k - 1].connected_peer_addresses@.len()
    }
}

proof fn lemma_bin_lines_grow(bins: Seq<Bin>, k: nat, n: nat)
    requires
        k <= n <= bins.len(),
    ensures
        bin_lines(bins, n).len() == bin_position(bins, n),
        bin_position(bins, k) <= bin_position(bins, n),
        bin_lines(bins, n).take(bin_position(bins, k) as int) == bin_lines(bins, k),
    decreases n,
{
    if n > 0 {
        every_peer_has_a_line(
            bins[n - 1].connected_peer_addresses@,
            bins[n - 1].connected_peer_addresses@.len(),
        );
        lemma_bin_lines_grow(
            bins,
            if k < n {
                k
            } else {
                (n - 1) as nat
            },
            (n - 1) as nat,
        );
        if k < n {
            assert(bin_lines(bins, n).take(bin_position(bins, k) as int) =~= bin_lines(
                bins,
                (n - 1) as nat,
            ).take(bin_position(bins, k) as int));
        }
    }
    if k == n {
        assert(bin_lines(bins, n).take(bin_lines(bins, n).len() as int) =~= bin_lines(bins, n));
    }
}

/// A node's view of the network shows every bin and every connected peer: after the
/// address, the depth, an empty line and a heading, bin by bin, a row with the order
/// and both numbers of peers in columns, and under it a line for each connected peer.
pub proof fn topology_shows_every_bin(t: Topology, k: int)
    requires
        0 <= k < t.bins@.len(),
    ensures
        ({
            let lines = topology_lines(t);
            let at = 4 + bin_position(t.bins@, k as nat);
            let b = t.bins@[k];
            let row = lines[at as int];
            &&& lines.len() == 4 + bin_position(t.bins@, t.bins@.len())
            &&& lines[0] == "Overlay address: 0x"@ + t.overlay_address@
            &&& lines[1] == "Depth:           "@ + dec(t.depth as nat)
            &&& lines[2].len() == 0
            &&& lines[3] == " PO  connected      known"@
            &&& at + b.connected_peer_addresses@.len() < lines.len()
            &&& row == flush_right(dec(b.proximity_order as nat), 3) + "  "@ + flush_right(
                dec(b.connected_peers as nat),
                9,
            ) + "  "@ + flush_right(dec(b.known_peers as nat), 9)
            &&& forall|j: int|
                0 <= j < b.connected_peer_addresses@.len() ==> #[trigger] lines[at + 1 + j]
                    == "       - 0x"@ + b.connected_peer_addresses@[j]@
        }),
{
    reveal_strlit("");
    reveal_strlit("  ");
    reveal_strlit("PO");
    reveal_strlit("connected");
    reveal_strlit("known");
    reveal_strlit(" PO  connected      known");
    let bins = t.bins@;
    let lines = topology_lines(t);
    let all = bin_lines(bins, bins.len());
    let b = bins[k];
    let peers = b.connected_peer_addresses@;
    let at = bin_position(bins, k as nat);
    lemma_bin_lines_grow(bins, (k + 1) as nat, bins.len());
    lemma_bin_lines_grow(bins, k as nat, (k + 1) as nat);
    every_peer_has_a_line(peers, peers.len());
    assert(lines[3] =~= " PO  connected      known"@);
    let upto = bin_lines(bins, (k + 1) as nat);
    assert(bin_position(bins, (k + 1) as nat) == at + 1 + peers.len());
    assert forall|i: int| 0 <= i < upto.len() implies all[i] == upto[i] by {
        assert(all.take(upto.len() as int)[i] == upto[i]);
    }
    assert(lines[4 + at as int] == all[at as int]);
    assert(bin_lines(bins, k as nat).len() == at);
    assert forall|j: int| 0 <= j < peers.len() implies #[trigger] lines[4 + at + 1 + j]
        == "       - 0x"@ + peers[j]@ by {
        assert(lines[4 + at + 1 + j] == all[at + 1 + j]);
        assert(upto[at + 1 + j] == peer_lines(peers, peers.len())[j]);
    }
}

/// How many lines a value takes that is shown where it is known.
pub open spec fn line_count<T>(value: Option<T>) -> int {
    match value {
        Some(_) => 1,
        None => 0,
    }
}

/// A peer in full: its address, whether it is connected, its order, direction, trust
/// and whether it is verified have a line each, always; its id, score, ip, uptime and
/// the time of its connection have one where they are known; and all of its addresses
/// follow, or the word that none is known.
#[verifier::spinoff_prover]
#[verifier::rlimit(40)]
pub proof fn peer_is_shown_in_full(p: PeerDiagnostics, j: int)
    ensures
        ({
            let lines = long_lines(p);
            let a = line_count(p.peer_id);
            let b = a + line_count(p.score);
            let c = b + line_count(p.ip);
            let d = c + line_count(p.uptime_secs);
            let e = d + line_count(p.connected_since);
            &&& lines.len() == 7 + e + p.multiaddrs@.len()
            &&& lines[0] == "Overlay:         0x"@ + p.overlay@
            &&& p.peer_id matches Some(t) ==> lines[1] == "Peer ID:         "@ + t@
            &&& lines[1 + a] == "Connected:       "@ + (if p.connected {
                "true"@
            } else {
                "false"@
            })
            &&& lines[2 + a] == "Proximity order: "@ + dec(p.proximity_order as nat)
            &&& lines[3 + a] == "Direction:       "@ + (if p.direction == 1 {
                "inbound"@
            } else if p.direction == 2 {
                "outbound"@
            } else {
                "-"@
            })
            &&& lines[4 + a] == "Trust:           "@ + (if p.trust == 0 {
                "normal"@
            } else if p.trust == 1 {
                "local"@
            } else if p.trust == 2 {
                "trusted"@
            } else {
                "-"@
            })
            &&& lines[5 + a] == "Verified:        "@ + (if p.verified {
                "true"@
            } else {
                "false"@
            })
            &&& p.score matches Some(t) ==> lines[6 + a] == "Score:           "@ + t@
            &&& p.ip matches Some(t) ==> lines[6 + b] == "IP:              "@ + t@
            &&& p.uptime_secs matches Some(n) ==> lines[6 + c] == "Uptime:          "@ + dec(
                n as nat,
            ) + "s"@
            &&& p.connected_since matches Some(n) ==> lines[6 + d] == "Connected since: "@ + dec(
                n as nat,
            ) + " (unix)"@
            &&& p.multiaddrs@.len() == 0 ==> lines[6 + e] == "Multiaddrs:      (none known)"@
            &&& p.multiaddrs@.len() > 0 ==> lines[6 + e] == "Multiaddrs:"@
            &&& 0 <= j < p.multiaddrs@.len() ==> lines[7 + e + j] == "  - "@ + p.multiaddrs@[j]@
        }),
{
    reveal_strlit("");
    every_address_has_a_line(p.multiaddrs@, p.multiaddrs@.len());
    let overlay = seq!["Overlay:         0x"@ + p.overlay@];
    let id = optional_line("Peer ID:         "@, text_view(p.peer_id), ""@);
    let always = seq![
        "Connected:       "@ + truth(p.connected),
        "Proximity order: "@ + dec(p.proximity_order as nat),
        "Direction:       "@ + direction_name(p.direction),
        "Trust:           "@ + trust_name(p.trust),
        "Verified:        "@ + truth(p.verified),
    ];
    let score = optional_line("Score:           "@, text_view(p.score), ""@);
    let ip = optional_line("IP:              "@, text_view(p.ip), ""@);
    let uptime = optional_line("Uptime:          "@, number_view(p.uptime_secs), "s"@);
    let since = optional_line("Connected since: "@, number_view(p.connected_since), " (unix)"@);
    let addrs = if p.multiaddrs@.len() == 0 {
        seq!["Multiaddrs:      (none known)"@]
    } else {
        seq!["Multiaddrs:"@] + address_lines(p.multiaddrs@, p.multiaddrs@.len())
    };
    lemma_stacked(overlay, id, always, score, ip, uptime, since, addrs);
    let lines = stacked(overlay, id, always, score, ip, uptime, since, addrs);
    assert(long_lines(p) == lines) by {
        reveal(stacked);
    }
    assert(overlay[0] == lines[0]);
    if let Some(t) = p.peer_id {
        assert("Peer ID:         "@ + t@ + ""@ =~= "Peer ID:         "@ + t@);
        assert(lines[1] == id[0]);
    }
    let a = id.len() as int;
    assert(lines[1 + a] == always[0]);
    assert(lines[2 + a] == always[1]);
    assert(lines[3 + a] == always[2]);
    assert(lines[4 + a] == always[3]);
    assert(lines[5 + a] == always[4]);
    if let Some(t) = p.score {
        assert("Score:           "@ + t@ + ""@ =~= "Score:           "@ + t@);
        assert(lines[6 + a] == score[0]);
    }
    let b = a + score.len();
    if let Some(t) = p.ip {
        assert("IP:              "@ + t@ + ""@ =~= "IP:              "@ + t@);
        assert(lines[6 + b] == ip[0]);
    }
    let c = b + ip.len();
    if let Some(n) = p.uptime_secs {
        assert(lines[6 + c] == uptime[0]);
    }
    let d = c + uptime.len();
    if let Some(n) = p.connected_since {
        assert(lines[6 + d] == since[0]);
    }
    let e = d + since.len();
    assert(lines[6 + e] == addrs[0]);
    if 0 <= j < p.multiaddrs@.len() {
        assert(lines[6 + e + (j + 1)] == addrs[j + 1]);
        assert(addrs[j + 1] == address_lines(p.multiaddrs@, p.multiaddrs@.len())[j]);
    }
}

/// The lines of eight groups, one group behind another.
#[verifier::opaque]
spec fn stacked(
    s0: Seq<Seq<char>>,
    s1: Seq<Seq<char>>,
    s2: Seq<Seq<char>>,
    s3: Seq<Seq<char>>,
    s4: Seq<Seq<char>>,
    s5: Seq<Seq<char>>,
    s6: Seq<Seq<char>>,
    s7: Seq<Seq<char>>,
) -> Seq<Seq<char>> {
    s0 + s1 + s2 + s3 + s4 + s5 + s6 + s7
}

/// Where the lines of eight groups stand, one group behind another.
proof fn lemma_stacked(
    s0: Seq<Seq<char>>,
    s1: Seq<Seq<char>>,
    s2: Seq<Seq<char>>,
    s3: Seq<Seq<char>>,
    s4: Seq<Seq<char>>,
    s5: Seq<Seq<char>>,
    s6: Seq<Seq<char>>,
    s7: Seq<Seq<char>>,
)
    ensures
        ({
            let all = stacked(s0, s1, s2, s3, s4, s5, s6, s7);
            let n1 = s0.len();
            let n2 = n1 + s1.len();
            let n3 = n2 + s2.len();
            let n4 = n3 + s3.len();
            let n5 = n4 + s4.len();
            let n6 = n5 + s5.len();
            let n7 = n6 + s6.len();
            &&& all.len() == n7 + s7.len()
            &&& forall|i: int| 0 <= i < s0.len() ==> all[i] == #[trigger] s0[i]
            &&& forall|i: int| 0 <= i < s1.len() ==> all[n1 + i] == #[trigger] s1[i]
            &&& forall|i: int| 0 <= i < s2.len() ==> all[n2 + i] == #[trigger] s2[i]
            &&& forall|i: int| 0 <= i < s3.len() ==> all[n3 + i] == #[trigger] s3[i]
            &&& forall|i: int| 0 <= i < s4.len() ==> all[n4 + i] == #[trigger] s4[i]
            &&& forall|i: int| 0 <= i < s5.len() ==> all[n5 + i] == #[trigger] s5[i]
            &&& forall|i: int| 0 <= i < s6.len() ==> all[n6 + i] == #[trigger] s6[i]
            &&& forall|i: int| 0 <= i < s7.len() ==> all[n7 + i] == #[trigger] s7[i]
        }),
{
    reveal(stacked);
}

/// Every address of a peer has its line, in order.
pub proof fn every_address_has_a_line(addrs: Seq<String>, n: nat)
    requires
        n <= addrs.len(),
    ensures
        address_lines(addrs, n).len() == n,
        forall|j: int| 0 <= j < n ==> #[trigger] address_lines(addrs, n)[j] == "  - "@ + addrs[j]@,
    decreases n,
{
    if n > 0 {
        every_address_has_a_line(addrs, (n - 1) as nat);
    }
}

/// A peer's row: its state, order, direction, trust and score in columns of 6, 3, 9, 8
/// and 11 characters, two blanks apart, and then its address. A score that is not
/// known is a dash.
pub proof fn peer_row_has_columns(p: PeerDiagnostics)
    requires
        p.proximity_order < 1000,
        p.score matches Some(s) ==> s@.len() <= 11,
    ensures
        short_line(p).len() == 49 + p.overlay@.len(),
        p.connected ==> short_line(p).take(6) == "up    "@,
        !p.connected ==> short_line(p).take(6) == "known "@,
        short_line(p).subrange(8, 11) == flush_right(dec(p.proximity_order as nat), 3),
        p.direction == 1 ==> short_line(p).subrange(13, 22) == "inbound  "@,
        p.direction == 2 ==> short_line(p).subrange(13, 22) == "outbound "@,
        p.direction != 1 && p.direction != 2 ==> short_line(p).subrange(13, 22) == "-        "@,
        p.trust == 0 ==> short_line(p).subrange(24, 32) == "normal  "@,
        p.trust == 1 ==> short_line(p).subrange(24, 32) == "local   "@,
        p.trust == 2 ==> short_line(p).subrange(24, 32) == "trusted "@,
        p.trust < 0 || p.trust > 2 ==> short_line(p).subrange(24, 32) == "-       "@,
        p.score is None ==> short_line(p).subrange(34, 45) == "-          "@,
        p.score matches Some(s) ==> short_line(p).subrange(34, 34 + s@.len() as int) == s@,
        short_line(p).subrange(47, 49) == "0x"@,
        short_line(p).skip(49) == p.overlay@,
{
    reveal_strlit("  ");
    reveal_strlit("0x");
    reveal_strlit("-");
    reveal_strlit("up");
    reveal_strlit("up    ");
    reveal_strlit("known");
    reveal_strlit("known ");
    reveal_strlit("inbound");
    reveal_strlit("inbound  ");
    reveal_strlit("outbound");
    reveal_strlit("outbound ");
    reveal_strlit("-        ");
    reveal_strlit("normal");
    reveal_strlit("normal  ");
    reveal_strlit("local");
    reveal_strlit("local   ");
    reveal_strlit("trusted");
    reveal_strlit("trusted ");
    reveal_strlit("-       ");
    reveal_strlit("-          ");
    reveal_with_fuel(dec, 4);
    assert(dec(p.proximity_order as nat).len() <= 3);
    let line = short_line(p);
    assert(p.connected ==> line.take(6) =~= "up    "@);
    assert(!p.connected ==> line.take(6) =~= "known "@);
    assert(line.subrange(8, 11) =~= flush_right(dec(p.proximity_order as nat), 3));
    assert(p.direction == 1 ==> line.subrange(13, 22) =~= "inbound  "@);
    assert(p.direction == 2 ==> line.subrange(13, 22) =~= "outbound "@);
    assert(p.direction != 1 && p.direction != 2 ==> line.subrange(13, 22) =~= "-        "@);
    assert(p.trust == 0 ==> line.subrange(24, 32) =~= "normal  "@);
    assert(p.trust == 1 ==> line.subrange(24, 32) =~= "local   "@);
    assert(p.trust == 2 ==> line.subrange(24, 32) =~= "trusted "@);
    assert(p.trust < 0 || p.trust > 2 ==> line.subrange(24, 32) =~= "-       "@);
    assert(p.score is None ==> line.subrange(34, 45) =~= "-          "@);
    if let Some(s) = p.score {
        assert(line.subrange(34, 34 + s@.len() as int) =~= s@);
    }
    assert(line.subrange(47, 49) =~= "0x"@);
    assert(line.skip(49) =~= p.overlay@);
}

proof fn lemma_short_list(peers: Seq<PeerDiagnostics>, n: nat)
    requires
        n <= peers.len(),
    ensures
        short_list(peers, n).len() == n,
        forall|j: int| 0 <= j < n ==> #[trigger] short_list(peers, n)[j] == short_line(peers[j]),
    decreases n,
{
    if n > 0 {
        lemma_short_list(peers, (n - 1) as nat);
    }
}

/// Every peer is listed: in a table, one row each, in order, under a heading; in full,
/// one peer after another, with an empty line after each. Without any, a line says so.
pub proof fn every_peer_is_listed(
    peers: Seq<PeerDiagnostics>,
    more: Seq<PeerDiagnostics>,
    p: PeerDiagnostics,
)
    ensures
        list_lines(Seq::empty(), false) == seq!["No peers."@],
        list_lines(Seq::empty(), true) == seq!["No peers."@],
        peers.len() > 0 ==> list_lines(peers, false).len() == peers.len() + 1,
        peers.len() > 0 ==> list_lines(peers, false)[0]
            == "STATE    PO  direction  trust     score        overlay"@,
        forall|j: int|
            0 <= j < peers.len() ==> #[trigger] list_lines(peers, false)[j + 1] == short_line(
                peers[j],
            ),
        list_lines(seq![p], true) == long_lines(p) + seq![""@],
        peers.len() > 0 && more.len() > 0 ==> list_lines(peers + more, true) == list_lines(
            peers,
            true,
        ) + list_lines(more, true),
{
    lemma_short_list(peers, peers.len());
    reveal_strlit("STATE");
    reveal_strlit("PO");
    reveal_strlit("direction");
    reveal_strlit("trust");
    reveal_strlit("score");
    reveal_strlit("overlay");
    reveal_strlit("  ");
    reveal_strlit("STATE    PO  direction  trust     score        overlay");
    if peers.len() > 0 {
        assert(list_lines(peers, false)[0]
            =~= "STATE    PO  direction  trust     score        overlay"@);
        assert forall|j: int| 0 <= j < peers.len() implies #[trigger] list_lines(
            peers,
            false,
        )[j + 1] == short_line(peers[j]) by {
            assert(short_list(peers, peers.len())[j] == short_line(peers[j]));
        }
    }
    reveal_with_fuel(long_list, 2);
    assert(list_lines(seq![p], true) =~= long_lines(p) + seq![""@]);
    lemma_long_list(peers, more, more.len());
}

proof fn lemma_long_list(
    peers: Seq<PeerDiagnostics>,
    more: Seq<PeerDiagnostics>,
    n: nat,
)
    requires
        n <= more.len(),
    ensures
        long_list(peers + more, peers.len() + n) == long_list(peers, peers.len()) + long_list(
            more,
            n,
        ),
    decreases n,
{
    if n == 0 {
        lemma_long_list_front(peers, more, peers.len());
        assert(long_list(peers, peers.len()) + long_list(more, 0) =~= long_list(
            peers,
            peers.len(),
        ));
    } else {
        lemma_long_list(peers, more, (n - 1) as nat);
        assert((peers + more)[peers.len() + n - 1] == more[n - 1]);
        assert(long_list(peers + more, peers.len() + n) =~= long_list(peers, peers.len())
            + long_list(more, n));
    }
}

proof fn lemma_long_list_front(
    peers: Seq<PeerDiagnostics>,
    more: Seq<PeerDiagnostics>,
    n: nat,
)
    requires
        n <= peers.len(),
    ensures
        long_list(peers + more, n) == long_list(peers, n),
    decreases n,
{
    if n > 0 {
        lemma_long_list_front(peers, more, (n - 1) as nat);
    }
}

/// A request to dial a peer is reported with its address, and with all that is known of
/// the peer, where the node says so.
pub proof fn dial_is_reported(multiaddr: Seq<char>, p: PeerDiagnostics)
    ensures
        add_lines(true, multiaddr, None) == seq!["Dial queued for "@ + multiaddr],
        add_lines(false, multiaddr, None) == seq!["Dial rejected for "@ + multiaddr],
        add_lines(true, multiaddr, Some(p)) == add_lines(true, multiaddr, None) + long_lines(p),
        add_lines(false, multiaddr, Some(p)) == add_lines(false, multiaddr, None) + long_lines(p),
{
    assert(add_lines(true, multiaddr, None) =~= seq!["Dial queued for "@ + multiaddr]);
    assert(add_lines(false, multiaddr, None) =~= seq!["Dial rejected for "@ + multiaddr]);
}

/// What the node shows is shown in full: the lines of a status, of the network, of a peer,
/// of a list of peers and of a dial are those described for them; and a request to
/// disconnect a peer is reported with the peer.
pub proof fn reports_are_shown(
    s: Status,
    status_shown: Vec<String>,
    t: Topology,
    topology_shown: Vec<String>,
    p: PeerDiagnostics,
    peer_shown: Vec<String>,
    peers: Vec<PeerDiagnostics>,
    long: bool,
    listed: Vec<String>,
    accepted: bool,
    overlay: &str,
    removed: String,
    i: int,
)
    requires
        call_ensures(status, (&s,), status_shown),
        call_ensures(topology, (&t,), topology_shown),
        call_ensures(print_long, (&p,), peer_shown),
        call_ensures(list, (&peers, long), listed),
        call_ensures(remove_report, (accepted, overlay), removed),
    ensures
        lines_of(status_shown@) == status_lines(s),
        lines_of(topology_shown@) == topology_lines(t),
        lines_of(peer_shown@) == long_lines(p),
        lines_of(listed@) == list_lines(peers@, long),
        accepted ==> removed@ == "Disconnect queued for "@ + overlay@,
        !accepted ==> removed@ == "Disconnect rejected for "@ + overlay@,
        status_shown@.len() == 6,
        0 <= i < 6 ==> status_shown@[i]@ == status_lines(s)[i],
        peers@.len() == 0 ==> listed@.len() == 1,
        peers@.len() > 0 && !long ==> listed@.len() == peers@.len() + 1,
        peers@.len() > 0 && !long && 0 <= i < peers@.len() ==> listed@[i + 1]@ == short_line(
            peers@[i],
        ),
{
    assert(lines_of(status_shown@).len() == status_shown@.len());
    assert(lines_of(listed@).len() == listed@.len());
    if 0 <= i < 6 {
        assert(lines_of(status_shown@)[i] == status_shown@[i]@);
    }
    lemma_short_list(peers@, peers@.len());
    if peers@.len() > 0 && !long && 0 <= i < peers@.len() {
        assert(lines_of(listed@)[i + 1] == listed@[i + 1]@);
        assert(short_list(peers@, peers@.len())[i] == short_line(peers@[i]));
    }
}

/// The words for a connection's direction and for a level of trust; and a dial is reported
/// in one line, with all that is known of the peer under it.
pub proof fn words_are_shown(
    direction: i32,
    way: &'static str,
    trust: i32,
    level: &'static str,
    accepted: bool,
    multiaddr: &str,
    p: PeerDiagnostics,
    alone: Vec<String>,
    with_peer: Vec<String>,
)
    requires
        call_ensures(direction_str, (direction,), way),
        call_ensures(trust_str, (trust,), level),
        call_ensures(add_report, (accepted, multiaddr, None), alone),
        call_ensures(add_report, (accepted, multiaddr, Some(&p)), with_peer),
    ensures
        direction == 1 ==> way@ == "inbound"@,
        direction == 2 ==> way@ == "outbound"@,
        direction != 1 && direction != 2 ==> way@ == "-"@,
        trust == 0 ==> level@ == "normal"@,
        trust == 1 ==> level@ == "local"@,
        trust == 2 ==> level@ == "trusted"@,
        trust < 0 || trust > 2 ==> level@ == "-"@,
        accepted ==> lines_of(alone@) == seq!["Dial queued for "@ + multiaddr@],
        !accepted ==> lines_of(alone@) == seq!["Dial rejected for "@ + multiaddr@],
        lines_of(with_peer@) == lines_of(alone@) + long_lines(p),
{
    dial_is_reported(multiaddr@, p);
}

} // verus!
