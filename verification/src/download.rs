//! File downloads: a walk of the chunk tree below a root, one level of
//! addresses at a time, each level fetched in rounds over one stream.
//!
//! The walk keeps the file as a list of pieces in file order. A piece is data
//! that has been fetched or the address of a subtree that has not; fetching a
//! level replaces every address by what its chunk holds, where it stands.

use vstd::prelude::*;

use crate::bytes::{copy_bytes, read32, read_le64, Bytes32};
use crate::hexes::{address_hex, hex_text};
use crate::table::ByteTable;
use crate::text::{dec, decimal};

verus! {

/// The largest payload of a chunk.
pub const BODY_SIZE: u64 = 4096;

/// The length of the span that precedes a chunk's payload.
pub const SPAN_SIZE: usize = 8;

/// The length of a child's address in an intermediate chunk.
pub const REF_SIZE: usize = 32;

/// The number of levels that a walk visits before it gives up.
pub const MAX_LEVELS: usize = 64;

/// The number of rounds in which a level is asked for.
pub const LEVEL_ROUNDS: usize = 15;

/// What a chunk's wire body stands for in a file's tree.
pub enum NodeView {
    /// The body is shorter than a span.
    Short,
    /// A leaf, with its part of the file.
    Leaf(Seq<u8>),
    /// An intermediate chunk whose payload is no list of addresses.
    Ragged,
    /// An intermediate chunk, with its children in file order.
    Inner(Seq<Seq<u8>>),
}

/// The addresses that an intermediate chunk's payload lists.
pub open spec fn refs(data: Seq<u8>) -> Seq<Seq<u8>> {
    Seq::new(data.len() / 32, |i: int| data.subrange(32 * i, 32 * i + 32))
}

/// The number of bytes of the file below a chunk, as its body states it.
pub open spec fn span_of(body: Seq<u8>) -> nat {
    crate::bytes::le_value(body.take(8))
}

/// What `body` stands for: a leaf where its span fits in one chunk.
pub open spec fn node_of(body: Seq<u8>) -> NodeView {
    if body.len() < 8 {
        NodeView::Short
    } else if span_of(body) <= BODY_SIZE {
        NodeView::Leaf(body.skip(8))
    } else if (body.len() - 8) % 32 != 0 {
        NodeView::Ragged
    } else {
        NodeView::Inner(refs(body.skip(8)))
    }
}

/// A piece of a file, as contracts see it.
pub enum PieceView {
    /// A stretch of the file.
    Data(Seq<u8>),
    /// The subtree at an address.
    Node(Seq<u8>),
}

/// A piece of a file: data that has arrived, or a subtree still to be fetched.
pub enum Piece {
    /// A stretch of the file.
    Data(Vec<u8>),
    /// The subtree at an address.
    Node(Bytes32),
}

impl View for Piece {
    type V = PieceView;

    open spec fn view(&self) -> PieceView {
        match *self {
            Piece::Data(d) => PieceView::Data(d@),
            Piece::Node(a) => PieceView::Node(a@),
        }
    }
}

/// The views of a list of pieces.
pub open spec fn pieces_of(v: Seq<Piece>) -> Seq<PieceView> {
    v.map_values(|p: Piece| p@)
}

/// Subtrees at the given addresses.
pub open spec fn nodes(addresses: Seq<Seq<u8>>) -> Seq<PieceView> {
    addresses.map_values(|a: Seq<u8>| PieceView::Node(a))
}

/// The views of a list of addresses.
pub open spec fn addresses_of(v: Seq<Bytes32>) -> Seq<Seq<u8>> {
    v.map_values(|a: Bytes32| a@)
}

/// What chunks a network holds: wire bodies by address.
pub type Store = Map<Seq<u8>, Seq<u8>>;

/// The part of a file that `pieces` stand for in `store`, in file order, where
/// no subtree is deeper than `levels`; nothing where a chunk is missing or
/// malformed, or the tree is too deep.
pub open spec fn content(store: Store, pieces: Seq<PieceView>, levels: nat) -> Option<Seq<u8>>
    decreases levels, pieces.len(),
{
    if pieces.len() == 0 {
        Some(Seq::empty())
    } else {
        let before = content(store, pieces.drop_last(), levels);
        let last = match pieces.last() {
            PieceView::Data(d) => Some(d),
            PieceView::Node(a) => if levels == 0 || !store.contains_key(a) {
                None
            } else {
                match node_of(store[a]) {
                    NodeView::Leaf(d) => Some(d),
                    NodeView::Inner(children) => content(
                        store,
                        nodes(children),
                        (levels - 1) as nat,
                    ),
                    _ => None,
                }
            },
        };
        both(before, last)
    }
}

/// The file at `root` in `store`.
pub open spec fn file_at(store: Store, root: Seq<u8>) -> Option<Seq<u8>> {
    content(store, seq![PieceView::Node(root)], MAX_LEVELS as nat)
}

/// One stretch after another, where both are there.
pub open spec fn both(a: Option<Seq<u8>>, b: Option<Seq<u8>>) -> Option<Seq<u8>> {
    match (a, b) {
        (Some(x), Some(y)) => Some(x + y),
        _ => None,
    }
}

/// Why a download failed, as contracts see it.
pub enum Fault {
    /// The node did not return the chunk at an address.
    NotReturned(Seq<u8>),
    /// The chunk at an address is shorter than a span.
    ShortBody(Seq<u8>, nat),
    /// The intermediate chunk at an address holds no list of addresses.
    RaggedBody(Seq<u8>),
    /// The tree is too deep.
    TooDeep,
    /// Some chunks of a level failed in its last round.
    Stragglers { failed: nat, of: nat, round: nat },
}

/// Why a download failed.
#[derive(Clone, Debug)]
pub enum DownloadError {
    /// The node did not return a chunk.
    NotReturned { address: Bytes32 },
    /// A chunk is shorter than a span.
    ShortBody { address: Bytes32, len: usize },
    /// An intermediate chunk holds no list of addresses.
    RaggedBody { address: Bytes32 },
    /// The tree is too deep.
    TooDeep,
    /// Some chunks of a level failed in its last round.
    Stragglers { failed: usize, of: usize, round: usize },
}

impl View for DownloadError {
    type V = Fault;

    open spec fn view(&self) -> Fault {
        match *self {
            DownloadError::NotReturned { address } => Fault::NotReturned(address@),
            DownloadError::ShortBody { address, len } => Fault::ShortBody(address@, len as nat),
            DownloadError::RaggedBody { address } => Fault::RaggedBody(address@),
            DownloadError::TooDeep => Fault::TooDeep,
            DownloadError::Stragglers { failed, of, round } => Fault::Stragglers {
                failed: failed as nat,
                of: of as nat,
                round: round as nat,
            },
        }
    }
}

/// What takes the place of one piece once `bodies` have arrived.
pub open spec fn expanded_piece(bodies: Store, p: PieceView) -> Result<Seq<PieceView>, Fault> {
    match p {
        PieceView::Data(d) => Ok(seq![p]),
        PieceView::Node(a) => if !bodies.contains_key(a) {
            Err(Fault::NotReturned(a))
        } else {
            match node_of(bodies[a]) {
                NodeView::Short => Err(Fault::ShortBody(a, bodies[a].len())),
                NodeView::Leaf(d) => Ok(seq![PieceView::Data(d)]),
                NodeView::Ragged => Err(Fault::RaggedBody(a)),
                NodeView::Inner(children) => Ok(nodes(children)),
            }
        },
    }
}

/// What takes the place of `pieces` once `bodies` have arrived, or what is
/// wrong with the first piece that cannot be replaced.
pub open spec fn expanded(bodies: Store, pieces: Seq<PieceView>) -> Result<Seq<PieceView>, Fault>
    decreases pieces.len(),
{
    if pieces.len() == 0 {
        Ok(Seq::empty())
    } else {
        match expanded(bodies, pieces.drop_last()) {
            Err(e) => Err(e),
            Ok(done) => match expanded_piece(bodies, pieces.last()) {
                Err(e) => Err(e),
                Ok(next) => Ok(done + next),
            },
        }
    }
}

/// The addresses among `pieces`, in file order.
pub open spec fn pending(pieces: Seq<PieceView>) -> Seq<Seq<u8>>
    decreases pieces.len(),
{
    if pieces.len() == 0 {
        Seq::empty()
    } else {
        match pieces.last() {
            PieceView::Data(_) => pending(pieces.drop_last()),
            PieceView::Node(a) => pending(pieces.drop_last()).push(a),
        }
    }
}

/// The data among `pieces`, in file order.
pub open spec fn gathered(pieces: Seq<PieceView>) -> Seq<u8>
    decreases pieces.len(),
{
    if pieces.len() == 0 {
        Seq::empty()
    } else {
        match pieces.last() {
            PieceView::Data(d) => gathered(pieces.drop_last()) + d,
            PieceView::Node(_) => gathered(pieces.drop_last()),
        }
    }
}

/// `store` holds everything that `bodies` hold.
pub open spec fn agrees(store: Store, bodies: Store) -> bool {
    forall|a: Seq<u8>| #[trigger]
        bodies.contains_key(a) ==> store.contains_key(a) && store[a] == bodies[a]
}

proof fn lemma_content_concat(store: Store, f: Seq<PieceView>, g: Seq<PieceView>, levels: nat)
    ensures
        content(store, f + g, levels) == both(
            content(store, f, levels),
            content(store, g, levels),
        ),
    decreases g.len(),
{
    if g.len() == 0 {
        assert(f + g =~= f);
        if content(store, f, levels) is Some {
            assert(content(store, f, levels)->0 + Seq::<u8>::empty() =~= content(
                store,
                f,
                levels,
            )->0);
        }
    } else {
        assert((f + g).drop_last() =~= f + g.drop_last());
        assert((f + g).last() == g.last());
        lemma_content_concat(store, f, g.drop_last(), levels);
        let a = content(store, f, levels);
        let b = content(store, g.drop_last(), levels);
        let c = match g.last() {
            PieceView::Data(d) => Some(d),
            PieceView::Node(x) => if levels == 0 || !store.contains_key(x) {
                None
            } else {
                match node_of(store[x]) {
                    NodeView::Leaf(d) => Some(d),
                    NodeView::Inner(children) => content(
                        store,
                        nodes(children),
                        (levels - 1) as nat,
                    ),
                    _ => None,
                }
            },
        };
        assert(content(store, g, levels) == both(b, c));
        assert(content(store, f + g, levels) == both(both(a, b), c));
        if a is Some && b is Some && c is Some {
            assert(a->0 + b->0 + c->0 =~= a->0 + (b->0 + c->0));
        }
    }
}

proof fn lemma_content_of_one(store: Store, p: PieceView, levels: nat)
    ensures
        p matches PieceView::Data(d) ==> content(store, seq![p], levels) == Some(d),
        p matches PieceView::Node(a) ==> levels > 0 ==> store.contains_key(a) ==> content(
            store,
            seq![p],
            levels,
        ) == (match node_of(store[a]) {
            NodeView::Leaf(d) => Some(d),
            NodeView::Inner(children) => content(store, nodes(children), (levels - 1) as nat),
            _ => None,
        }),
        p is Node && levels == 0 ==> content(store, seq![p], levels) is None,
{
    let one = seq![p];
    assert(one.drop_last() =~= Seq::<PieceView>::empty());
    assert(one.last() == p);
    assert(content(store, one.drop_last(), levels) == Some(Seq::<u8>::empty()));
    let whole = content(store, one, levels);
    if whole is Some {
        match p {
            PieceView::Data(d) => {
                assert(Seq::<u8>::empty() + d =~= d);
            },
            PieceView::Node(a) => {
                match node_of(store[a]) {
                    NodeView::Leaf(d) => {
                        assert(Seq::<u8>::empty() + d =~= d);
                    },
                    NodeView::Inner(children) => {
                        let inner = content(store, nodes(children), (levels - 1) as nat);
                        assert(Seq::<u8>::empty() + inner->0 =~= inner->0);
                    },
                    _ => {},
                }
            },
        }
    }
}

/// Fetching a level keeps the file: the pieces before it and the pieces after
/// it stand for the same bytes, in every store that holds the fetched bodies.
pub proof fn expansion_keeps_the_file(
    store: Store,
    bodies: Store,
    pieces: Seq<PieceView>,
    levels: nat,
)
    requires
        agrees(store, bodies),
        levels > 0,
        expanded(bodies, pieces) is Ok,
    ensures
        content(store, pieces, levels) == content(
            store,
            expanded(bodies, pieces)->Ok_0,
            (levels - 1) as nat,
        ),
    decreases pieces.len(),
{
    let less = (levels - 1) as nat;
    if pieces.len() > 0 {
        let front = pieces.drop_last();
        let p = pieces.last();
        expansion_keeps_the_file(store, bodies, front, levels);
        let done = expanded(bodies, front)->Ok_0;
        let next = expanded_piece(bodies, p)->Ok_0;
        assert(pieces =~= front + seq![p]);
        lemma_content_concat(store, front, seq![p], levels);
        lemma_content_concat(store, done, next, less);
        lemma_content_of_one(store, p, levels);
        assert(content(store, seq![p], levels) == content(store, next, less)) by {
            match p {
                PieceView::Data(d) => {
                    lemma_content_of_one(store, p, less);
                },
                PieceView::Node(a) => {
                    assert(bodies.contains_key(a));
                    match node_of(store[a]) {
                        NodeView::Leaf(d) => {
                            lemma_content_of_one(store, PieceView::Data(d), less);
                        },
                        _ => {},
                    }
                },
            }
        }
    }
}

/// A malformed chunk on a level leaves no file: where a level is refused for a
/// short or a ragged body, the root stands for nothing in any store that holds
/// the fetched bodies.
pub proof fn malformed_chunk_is_no_file(
    store: Store,
    bodies: Store,
    pieces: Seq<PieceView>,
    levels: nat,
)
    requires
        agrees(store, bodies),
        levels > 0,
        expanded(bodies, pieces) is Err,
        !(expanded(bodies, pieces)->Err_0 is NotReturned),
    ensures
        content(store, pieces, levels) is None,
    decreases pieces.len(),
{
    if pieces.len() > 0 {
        let front = pieces.drop_last();
        let p = pieces.last();
        assert(pieces =~= front + seq![p]);
        lemma_content_concat(store, front, seq![p], levels);
        match expanded(bodies, front) {
            Err(_) => {
                malformed_chunk_is_no_file(store, bodies, front, levels);
            },
            Ok(_) => {
                lemma_content_of_one(store, p, levels);
            },
        }
    }
}

proof fn lemma_no_levels_left(store: Store, pieces: Seq<PieceView>)
    requires
        pending(pieces).len() > 0,
    ensures
        content(store, pieces, 0) is None,
    decreases pieces.len(),
{
    if pieces.len() > 0 {
        match pieces.last() {
            PieceView::Node(_) => {},
            PieceView::Data(_) => {
                lemma_no_levels_left(store, pieces.drop_last());
            },
        }
    }
}

proof fn lemma_all_data(store: Store, pieces: Seq<PieceView>, levels: nat)
    requires
        pending(pieces).len() == 0,
    ensures
        content(store, pieces, levels) == Some(gathered(pieces)),
    decreases pieces.len(),
{
    if pieces.len() > 0 {
        match pieces.last() {
            PieceView::Node(_) => {
                assert(pending(pieces).len() == pending(pieces.drop_last()).len() + 1);
            },
            PieceView::Data(_) => {
                lemma_all_data(store, pieces.drop_last(), levels);
            },
        }
    }
}

/// A store that holds everything that was fetched so far.
pub open spec fn agrees_all(store: Store, fetched: Seq<Store>) -> bool {
    forall|i: int| 0 <= i < fetched.len() ==> agrees(store, #[trigger] fetched[i])
}

/// What a walk does next.
pub enum Next {
    /// Fetch the chunks at these addresses.
    Fetch(Vec<Bytes32>),
    /// Nothing is left to fetch.
    Complete,
}

/// A walk below a root: the file's pieces in file order, and the number of
/// levels that were fetched.
pub struct Walk {
    pieces: Vec<Piece>,
    depth: usize,
    root: Ghost<Seq<u8>>,
    fetched: Ghost<Seq<Store>>,
}

impl Walk {
    /// The pieces, in file order.
    pub closed spec fn pieces(self) -> Seq<PieceView> {
        pieces_of(self.pieces@)
    }

    /// The number of levels fetched.
    pub closed spec fn depth(self) -> nat {
        self.depth as nat
    }

    /// The root of the walk.
    pub closed spec fn root(self) -> Seq<u8> {
        self.root@
    }

    /// The bodies of each level fetched.
    pub closed spec fn fetched(self) -> Seq<Store> {
        self.fetched@
    }

    /// The pieces stand for the file at the root, in every store that holds
    /// what was fetched.
    pub open spec fn wf(self) -> bool {
        &&& self.depth() <= MAX_LEVELS
        &&& forall|store: Store| #[trigger]
            agrees_all(store, self.fetched()) ==> file_at(store, self.root()) == content(
                store,
                self.pieces(),
                (MAX_LEVELS - self.depth()) as nat,
            )
    }

    /// A walk that starts at `root`.
    pub fn new(root: Bytes32) -> (w: Walk)
        ensures
            w.wf(),
            w.root() == root@,
            w.depth() == 0,
            w.fetched() == Seq::<Store>::empty(),
            w.pieces() == seq![PieceView::Node(root@)],
    {
        let mut pieces: Vec<Piece> = Vec::new();
        pieces.push(Piece::Node(root));
        let w = Walk { pieces, depth: 0, root: Ghost(root@), fetched: Ghost(Seq::empty()) };
        assert(w.pieces() =~= seq![PieceView::Node(root@)]);
        w
    }

    /// What to do next: fetch the addresses among the pieces, or nothing where
    /// there are none. A tree of too many levels is refused.
    pub fn next_level(&self) -> (r: Result<Next, DownloadError>)
        requires
            self.wf(),
        ensures
            match r {
                Ok(Next::Complete) => pending(self.pieces()).len() == 0,
                Ok(Next::Fetch(v)) => pending(self.pieces()).len() > 0 && self.depth() < MAX_LEVELS
                    && addresses_of(v@) == pending(self.pieces()),
                Err(e) => e@ == Fault::TooDeep && pending(self.pieces()).len() > 0 && self.depth()
                    == MAX_LEVELS && forall|store: Store| #[trigger]
                    agrees_all(store, self.fetched()) ==> file_at(store, self.root()) is None,
            },
    {
        let mut v: Vec<Bytes32> = Vec::new();
        let mut i: usize = 0;
        while i < self.pieces.len()
            invariant
                i <= self.pieces.len(),
                addresses_of(v@) == pending(pieces_of(self.pieces@.take(i as int))),
            decreases self.pieces.len() - i,
        {
            let ghost before = v@;
            let ghost upto = pieces_of(self.pieces@.take(i + 1));
            proof {
                assert(upto.drop_last() =~= pieces_of(self.pieces@.take(i as int)));
                assert(upto.last() == self.pieces@[i as int]@);
            }
            if let Piece::Node(a) = &self.pieces[i] {
                v.push(*a);
                assert(addresses_of(v@) =~= addresses_of(before).push(a@));
            }
            i = i + 1;
        }
        assert(self.pieces@.take(i as int) =~= self.pieces@);
        assert(addresses_of(v@).len() == v@.len());
        if v.len() == 0 {
            return Ok(Next::Complete);
        }
        if self.depth >= MAX_LEVELS {
            proof {
                assert forall|store: Store| #[trigger] agrees_all(store, self.fetched()) implies file_at(
                    store,
                    self.root(),
                ) is None by {
                    lemma_no_levels_left(store, self.pieces());
                }
            }
            return Err(DownloadError::TooDeep);
        }
        Ok(Next::Fetch(v))
    }

    /// Puts the fetched chunks in the place of their addresses. Where a chunk
    /// is not among them, or is malformed, the first such chunk in file order
    /// is the error.
    pub fn expand(self, bodies: &ByteTable) -> (r: Result<Walk, DownloadError>)
        requires
            self.wf(),
            self.depth() < MAX_LEVELS,
            bodies.wf(),
        ensures
            match r {
                Ok(w) => w.wf() && w.root() == self.root() && w.depth() == self.depth() + 1
                    && w.fetched() == self.fetched().push(bodies@) && expanded(
                    bodies@,
                    self.pieces(),
                ) == Ok::<Seq<PieceView>, Fault>(w.pieces()),
                Err(e) => expanded(bodies@, self.pieces()) == Err::<Seq<PieceView>, Fault>(e@) && (
                !(e@ is NotReturned) ==> forall|store: Store|
                    agrees_all(store, self.fetched()) && #[trigger] agrees(store, bodies@)
                        ==> file_at(store, self.root()) is None),
            },
    {
        let ghost before = self;
        let ghost all = self.pieces();
        let Walk { pieces, depth, root, fetched } = self;
        let ghost raw = pieces@;
        let mut next: Vec<Piece> = Vec::new();
        assert(all.take(0) =~= Seq::empty());
        assert(pieces_of(next@) =~= Seq::empty());
        for p in it: pieces
            invariant
                before == self,
                bodies.wf(),
                it.seq() == raw,
                all == pieces_of(raw),
                before.wf(),
                before.pieces() == all,
                before.depth() < MAX_LEVELS,
                expanded(bodies@, all.take(it.index() as int)) == Ok::<Seq<PieceView>, Fault>(
                    pieces_of(next@),
                ),
        {
            let ghost i = it.index() as int;
            proof {
                assert(all.take(i + 1).drop_last() =~= all.take(i));
                assert(all.take(i + 1).last() == p@);
            }
            match open_piece(p, bodies, &mut next) {
                Ok(()) => {},
                Err(e) => {
                    proof {
                        lemma_error_stands(bodies@, all, i + 1);
                        if !(e@ is NotReturned) {
                            assert forall|store: Store|
                                agrees_all(store, before.fetched()) && #[trigger] agrees(
                                    store,
                                    bodies@,
                                ) implies file_at(store, before.root()) is None by {
                                malformed_chunk_is_no_file(
                                    store,
                                    bodies@,
                                    all,
                                    (MAX_LEVELS - before.depth()) as nat,
                                );
                            }
                        }
                    }
                    return Err(e);
                },
            }
        }
        assert(all.take(all.len() as int) =~= all);
        let w = Walk {
            pieces: next,
            depth: depth + 1,
            root,
            fetched: Ghost(fetched@.push(bodies@)),
        };
        proof {
            assert forall|store: Store| #[trigger] agrees_all(store, w.fetched()) implies file_at(
                store,
                w.root(),
            ) == content(store, w.pieces(), (MAX_LEVELS - w.depth()) as nat) by {
                assert(w.fetched()[before.fetched().len() as int] == bodies@);
                assert forall|i: int| 0 <= i < before.fetched().len() implies agrees(
                    store,
                    #[trigger] before.fetched()[i],
                ) by {
                    assert(w.fetched()[i] == before.fetched()[i]);
                }
                assert(agrees_all(store, before.fetched()));
                expansion_keeps_the_file(
                    store,
                    bodies@,
                    all,
                    (MAX_LEVELS - before.depth()) as nat,
                );
            }
        }
        Ok(w)
    }

    /// The file, once nothing is left to fetch: what the root stands for in
    /// every store that holds what was fetched.
    pub fn finish(self) -> (out: Vec<u8>)
        requires
            self.wf(),
            pending(self.pieces()).len() == 0,
        ensures
            out@ == gathered(self.pieces()),
            forall|store: Store| #[trigger]
                agrees_all(store, self.fetched()) ==> file_at(store, self.root()) == Some(out@),
    {
        let ghost all = self.pieces();
        proof {
            assert forall|store: Store| #[trigger] agrees_all(store, self.fetched()) implies file_at(
                store,
                self.root(),
            ) == Some(gathered(all)) by {
                lemma_all_data(store, all, (MAX_LEVELS - self.depth()) as nat);
            }
        }
        let mut out: Vec<u8> = Vec::new();
        let mut i: usize = 0;
        while i < self.pieces.len()
            invariant
                i <= self.pieces.len(),
                all == pieces_of(self.pieces@),
                out@ == gathered(all.take(i as int)),
            decreases self.pieces.len() - i,
        {
            proof {
                assert(all.take(i + 1).drop_last() =~= all.take(i as int));
                assert(all.take(i + 1).last() == self.pieces@[i as int]@);
            }
            if let Piece::Data(d) = &self.pieces[i] {
                let ghost start = out@;
                out.extend_from_slice(d.as_slice());
                assert(out@ =~= start + d@);
            }
            i = i + 1;
        }
        assert(all.take(i as int) =~= all);
        out
    }
}

proof fn lemma_error_stands(bodies: Store, pieces: Seq<PieceView>, i: int)
    requires
        0 <= i <= pieces.len(),
        expanded(bodies, pieces.take(i)) is Err,
    ensures
        expanded(bodies, pieces) == expanded(bodies, pieces.take(i)),
    decreases pieces.len() - i,
{
    if i == pieces.len() {
        assert(pieces.take(i) =~= pieces);
    } else {
        assert(pieces.take(i + 1).drop_last() =~= pieces.take(i));
        lemma_error_stands(bodies, pieces, i + 1);
    }
}

/// Appends what takes the place of `p`.
fn open_piece(p: Piece, bodies: &ByteTable, out: &mut Vec<Piece>) -> (r: Result<(), DownloadError>)
    requires
        bodies.wf(),
    ensures
        match r {
            Ok(()) => expanded_piece(bodies@, p@) is Ok && pieces_of(final(out)@) == pieces_of(
                old(out)@,
            ) + expanded_piece(bodies@, p@)->Ok_0,
            Err(e) => expanded_piece(bodies@, p@) == Err::<Seq<PieceView>, Fault>(e@),
        },
{
    let ghost start = out@;
    let address = match p {
        Piece::Data(d) => {
            out.push(Piece::Data(d));
            assert(pieces_of(out@) =~= pieces_of(start) + seq![p@]);
            return Ok(());
        },
        Piece::Node(a) => a,
    };
    let body = match bodies.get(address.bytes.as_slice()) {
        None => {
            return Err(DownloadError::NotReturned { address });
        },
        Some(b) => b,
    };
    if body.len() < SPAN_SIZE {
        return Err(DownloadError::ShortBody { address, len: body.len() });
    }
    let span: u64 = read_le64(body.as_slice());
    let data = vstd::slice::slice_subrange(body.as_slice(), SPAN_SIZE, body.len());
    assert(data@ =~= body@.skip(8));
    if span <= BODY_SIZE {
        out.push(Piece::Data(copy_bytes(data)));
        assert(pieces_of(out@) =~= pieces_of(start) + seq![PieceView::Data(body@.skip(8))]);
        return Ok(());
    }
    if data.len() % REF_SIZE != 0 {
        return Err(DownloadError::RaggedBody { address });
    }
    let count: usize = data.len() / REF_SIZE;
    let mut k: usize = 0;
    while k < count
        invariant
            k <= count,
            data.len() == count * 32,
            pieces_of(out@) == pieces_of(start) + nodes(refs(data@)).take(k as int),
        decreases count - k,
    {
        let ghost before = out@;
        out.push(Piece::Node(read32(data, k * REF_SIZE)));
        proof {
            let child = PieceView::Node(refs(data@)[k as int]);
            assert(nodes(refs(data@)).take(k + 1) =~= nodes(refs(data@)).take(k as int).push(child));
            assert(pieces_of(out@) =~= pieces_of(before).push(child));
        }
        k = k + 1;
    }
    assert(nodes(refs(data@)).take(k as int) =~= nodes(refs(data@)));
    Ok(())
}

/// One item of a response stream.
pub enum Item {
    /// A response with its data, empty where the chunk was not retrieved.
    Response(Vec<u8>),
    /// The stream broke.
    Error,
    /// The stream ended.
    End,
}

/// A response's data, or nothing where the stream is over.
pub open spec fn item_data(item: Item) -> Option<Seq<u8>> {
    match item {
        Item::Response(d) => Some(d@),
        _ => None,
    }
}

/// One round, as contracts see it: the addresses asked for, how many of them
/// are accounted for, and those that failed.
pub struct RoundView {
    pub wanted: Seq<Seq<u8>>,
    pub at: nat,
    pub failed: Seq<Seq<u8>>,
}

/// What one item of the stream does to a round and to the bodies. Responses
/// come in the order of the requests. One without data marks its address as
/// failed; the end of the stream marks all that are left.
pub open spec fn round_step(r: RoundView, bodies: Store, item: Option<Seq<u8>>) -> (
    RoundView,
    Store,
) {
    let address = r.wanted[r.at as int];
    match item {
        Some(data) => if data.len() == 0 {
            (RoundView { at: r.at + 1, failed: r.failed.push(address), ..r }, bodies)
        } else {
            (RoundView { at: r.at + 1, ..r }, bodies.insert(address, data))
        },
        None => (
            RoundView { at: r.wanted.len(), failed: r.failed + r.wanted.skip(r.at as int), ..r },
            bodies,
        ),
    }
}

/// One round of a level: the addresses asked for over one stream, of which
/// some may fail.
pub struct Round {
    wanted: Vec<Bytes32>,
    at: usize,
    failed: Vec<Bytes32>,
}

impl View for Round {
    type V = RoundView;

    closed spec fn view(&self) -> RoundView {
        RoundView {
            wanted: addresses_of(self.wanted@),
            at: self.at as nat,
            failed: addresses_of(self.failed@),
        }
    }
}

fn copy_addresses(v: &Vec<Bytes32>) -> (r: Vec<Bytes32>)
    ensures
        r@ == v@,
{
    let mut r: Vec<Bytes32> = Vec::new();
    let mut i: usize = 0;
    while i < v.len()
        invariant
            i <= v.len(),
            r@ == v@.take(i as int),
        decreases v.len() - i,
    {
        r.push(v[i]);
        assert(v@.take(i + 1) =~= v@.take(i as int).push(v@[i as int]));
        i = i + 1;
    }
    assert(v@.take(i as int) =~= v@);
    r
}

impl Round {
    /// Whether every address of the round is accounted for.
    pub fn is_over(&self) -> (over: bool)
        requires
            self@.at <= self@.wanted.len(),
        ensures
            over == (self@.at == self@.wanted.len()),
    {
        assert(addresses_of(self.wanted@).len() == self.wanted@.len());
        self.at >= self.wanted.len()
    }

    /// Takes one item of the stream.
    fn absorb(&mut self, item: Item, bodies: &mut ByteTable)
        requires
            old(self)@.at < old(self)@.wanted.len(),
            old(bodies).wf(),
        ensures
            final(bodies).wf(),
            (final(self)@, final(bodies)@) == round_step(
                old(self)@,
                old(bodies)@,
                item_data(item),
            ),
    {
        let ghost before = *self;
        proof {
            assert(addresses_of(self.wanted@).len() == self.wanted@.len());
        }
        match item {
            Item::Response(data) => {
                let address = self.wanted[self.at];
                if data.len() == 0 {
                    self.failed.push(address);
                    assert(addresses_of(self.failed@) =~= addresses_of(before.failed@).push(
                        address@,
                    ));
                } else {
                    bodies.insert(copy_bytes(address.bytes.as_slice()), data);
                }
                self.at = self.at + 1;
            },
            Item::Error | Item::End => {
                let ghost all = before@.wanted;
                while self.at < self.wanted.len()
                    invariant
                        before.at <= self.at <= self.wanted.len(),
                        self.wanted == before.wanted,
                        all == addresses_of(self.wanted@),
                        all.len() == self.wanted@.len(),
                        addresses_of(self.failed@) == addresses_of(before.failed@) + all.subrange(
                            before.at as int,
                            self.at as int,
                        ),
                    decreases self.wanted.len() - self.at,
                {
                    let ghost mid = self.failed@;
                    let address = self.wanted[self.at];
                    self.failed.push(address);
                    self.at = self.at + 1;
                    proof {
                        assert(addresses_of(self.failed@) =~= addresses_of(mid).push(address@));
                        assert(all.subrange(before.at as int, self.at as int) =~= all.subrange(
                            before.at as int,
                            self.at - 1,
                        ).push(address@));
                    }
                }
                assert(all.subrange(before.at as int, self.at as int) =~= all.skip(
                    before.at as int,
                ));
            },
        }
    }
}

/// The pause after a failed round, in milliseconds: half a second for each
/// round so far, and two seconds at most.
pub open spec fn pause_after(round: nat) -> nat {
    if 500 * (round + 1) <= 2000 {
        500 * (round + 1)
    } else {
        2000
    }
}

/// A level being fetched, as contracts see it.
pub struct LevelView {
    /// The level's addresses, in file order.
    pub level: Seq<Seq<u8>>,
    /// The addresses to ask for in the next round.
    pub wanted: Seq<Seq<u8>>,
    /// The number of rounds behind it.
    pub round: nat,
    /// Of the last round: how many failed, of how many, and its number.
    pub last: Option<(nat, nat, nat)>,
    /// What has arrived.
    pub bodies: Store,
}

/// What holds of a level between rounds: what is not wanted has arrived,
/// nothing has arrived that is empty or not of the level, and an address that stands
/// once in the level is not both wanted and there.
pub open spec fn level_holds(l: LevelView) -> bool {
    &&& l.round <= LEVEL_ROUNDS
    &&& l.round == 0 ==> l.wanted == l.level
    &&& l.round > 0 ==> l.last is Some && l.wanted.len() > 0
    &&& forall|a: Seq<u8>| #[trigger] l.level.contains(a) ==> l.bodies.contains_key(a) || l.wanted.contains(a)
    &&& forall|a: Seq<u8>| #[trigger] l.wanted.contains(a) ==> l.level.contains(a)
    &&& forall|a: Seq<u8>| #[trigger]
        l.bodies.contains_key(a) ==> l.level.contains(a) && l.bodies[a].len() > 0
    &&& l.level.no_duplicates() ==> l.wanted.no_duplicates() && forall|a: Seq<u8>| #[trigger]
        l.wanted.contains(a) ==> !l.bodies.contains_key(a)
}

/// What holds of a level and its current round.
pub open spec fn round_holds(l: LevelView, r: RoundView) -> bool {
    &&& r.wanted == l.wanted
    &&& r.at <= r.wanted.len()
    &&& l.round < LEVEL_ROUNDS
    &&& l.wanted.len() > 0
    &&& forall|i: int|
        0 <= i < r.at ==> l.bodies.contains_key(#[trigger] r.wanted[i]) || r.failed.contains(
            r.wanted[i],
        )
    &&& forall|a: Seq<u8>| #[trigger] r.failed.contains(a) ==> r.wanted.contains(a)
    &&& forall|a: Seq<u8>| #[trigger] l.level.contains(a) ==> l.bodies.contains_key(a) || l.wanted.contains(a)
    &&& forall|a: Seq<u8>| #[trigger] l.wanted.contains(a) ==> l.level.contains(a)
    &&& forall|a: Seq<u8>| #[trigger]
        l.bodies.contains_key(a) ==> l.level.contains(a) && l.bodies[a].len() > 0
    &&& l.level.no_duplicates() ==> {
        &&& r.wanted.no_duplicates()
        &&& r.failed.no_duplicates()
        &&& forall|i: int| r.at <= i < r.wanted.len() ==> !l.bodies.contains_key(
            #[trigger] r.wanted[i],
        )
        &&& forall|a: Seq<u8>| #[trigger] r.failed.contains(a) ==> !l.bodies.contains_key(a)
        &&& forall|a: Seq<u8>| #[trigger] r.failed.contains(a) ==> r.wanted.take(r.at as int).contains(a)
    }
}

/// A round stays accounted for, whatever its stream brings.
pub proof fn round_keeps_account(l: LevelView, r: RoundView, item: Option<Seq<u8>>)
    requires
        round_holds(l, r),
        r.at < r.wanted.len(),
    ensures
        ({
            let (r2, bodies) = round_step(r, l.bodies, item);
            round_holds(LevelView { bodies, ..l }, r2)
        }),
{
    let (r2, bodies) = round_step(r, l.bodies, item);
    let l2 = LevelView { bodies, ..l };
    let address = r.wanted[r.at as int];
    let rest = r.wanted.skip(r.at as int);
    assert(r.wanted.contains(address));
    assert forall|i: int| 0 <= i < r2.at implies bodies.contains_key(#[trigger] r2.wanted[i])
        || r2.failed.contains(r2.wanted[i]) by {
        if i < r.at {
            if r.failed.contains(r.wanted[i]) {
                let j = choose|j: int| 0 <= j < r.failed.len() && r.failed[j] == r.wanted[i];
                assert(r2.failed[j] == r.wanted[i]);
            }
        } else if item is Some {
            if item->0.len() == 0 {
                assert(r2.failed[r.failed.len() as int] == address);
            }
        } else {
            assert(r2.failed[r.failed.len() + (i - r.at)] == r.wanted[i]);
        }
    }
    assert forall|a: Seq<u8>| #[trigger] r2.failed.contains(a) implies r2.wanted.contains(a) by {
        let j = choose|j: int| 0 <= j < r2.failed.len() && r2.failed[j] == a;
        if j < r.failed.len() {
            assert(r.failed.contains(r.failed[j]));
        } else if item is None {
            assert(r2.failed[j] == r.wanted[r.at + (j - r.failed.len())]);
        }
    }
    if l.level.no_duplicates() {
        assert forall|a: Seq<u8>| #[trigger] r2.failed.contains(a) implies {
            &&& !bodies.contains_key(a)
            &&& r2.wanted.take(r2.at as int).contains(a)
        } by {
            let j = choose|j: int| 0 <= j < r2.failed.len() && r2.failed[j] == a;
            if j < r.failed.len() {
                assert(r.failed.contains(r.failed[j]));
                assert(r.wanted.take(r.at as int).contains(a));
                let m = choose|m: int|
                    0 <= m < r.wanted.take(r.at as int).len() && r.wanted.take(r.at as int)[m] == a;
                assert(r.wanted[m] == a && m < r.at);
                assert(a != address);
                assert(r2.wanted.take(r2.at as int)[m] == a);
            } else if item is None {
                assert(r2.failed[j] == r.wanted[r.at + (j - r.failed.len())]);
                assert(r2.wanted.take(r2.at as int)[r.at + (j - r.failed.len())] == a);
            } else {
                assert(r2.wanted.take(r2.at as int)[r.at as int] == a);
            }
        }
        assert forall|i: int, j: int| 0 <= i < j < r2.failed.len() implies r2.failed[i]
            != r2.failed[j] by {
            if j >= r.failed.len() {
                if i < r.failed.len() {
                    assert(r.failed.contains(r.failed[i]));
                    let m = choose|m: int|
                        0 <= m < r.wanted.take(r.at as int).len() && r.wanted.take(r.at as int)[m]
                            == r.failed[i];
                    assert(r.wanted[m] == r.failed[i] && m < r.at);
                    if item is None {
                        assert(r2.failed[j] == r.wanted[r.at + (j - r.failed.len())]);
                    }
                } else {
                    assert(r2.failed[i] == r.wanted[r.at + (i - r.failed.len())]);
                    assert(r2.failed[j] == r.wanted[r.at + (j - r.failed.len())]);
                }
            }
        }
    }
}

/// How a round ends.
pub enum RoundEnd {
    /// Every chunk of the level has arrived.
    Complete(ByteTable),
    /// Some failed: pause, then go on with them.
    Again { fetch: LevelFetch, pause_millis: u64, notice: String },
}

/// A level of addresses being fetched, round by round.
pub struct LevelFetch {
    level: Vec<Bytes32>,
    wanted: Vec<Bytes32>,
    round: usize,
    last: Option<(usize, usize, usize)>,
    bodies: ByteTable,
}

/// The line for a round in which chunks failed.
pub open spec fn retry_notice(failed: nat, round: nat) -> Seq<char> {
    "retrying "@ + dec(failed) + " chunk(s) that failed in round "@ + dec(round)
}

impl View for LevelFetch {
    type V = LevelView;

    closed spec fn view(&self) -> LevelView {
        LevelView {
            level: addresses_of(self.level@),
            wanted: addresses_of(self.wanted@),
            round: self.round as nat,
            last: match self.last {
                Some((f, w, r)) => Some((f as nat, w as nat, r as nat)),
                None => None,
            },
            bodies: self.bodies@,
        }
    }
}

impl LevelFetch {
    /// What has arrived is a well-formed table.
    pub closed spec fn table_ok(self) -> bool {
        self.bodies.wf()
    }

    /// The invariant between rounds.
    pub open spec fn wf(self) -> bool {
        self.table_ok() && level_holds(self@)
    }

    /// The invariant within a round.
    pub open spec fn in_round(self, round: Round) -> bool {
        self.table_ok() && round_holds(self@, round@)
    }

    /// Everything of `level` is to be fetched.
    pub fn new(level: Vec<Bytes32>) -> (f: LevelFetch)
        ensures
            f.wf(),
            f@ == (LevelView {
                level: addresses_of(level@),
                wanted: addresses_of(level@),
                round: 0,
                last: None,
                bodies: Map::empty(),
            }),
    {
        let wanted = copy_addresses(&level);
        LevelFetch { level, wanted, round: 0, last: None, bodies: ByteTable::new() }
    }

    /// The next round, where one is due: rounds are left and addresses are
    /// wanted.
    pub fn start_round(&self) -> (r: Option<Round>)
        requires
            self.wf(),
        ensures
            r is Some <==> self@.round < LEVEL_ROUNDS && self@.wanted.len() > 0,
            r matches Some(round) ==> self.in_round(round) && round@ == (RoundView {
                wanted: self@.wanted,
                at: 0,
                failed: Seq::empty(),
            }),
    {
        assert(addresses_of(self.wanted@).len() == self.wanted@.len());
        if self.round >= LEVEL_ROUNDS || self.wanted.len() == 0 {
            return None;
        }
        let round = Round { wanted: copy_addresses(&self.wanted), at: 0, failed: Vec::new() };
        proof {
            assert(round@.failed =~= Seq::empty());
            assert forall|i: int| 0 <= i < self@.wanted.len() implies self@.wanted.contains(
                #[trigger] self@.wanted[i],
            ) by {}
        }
        Some(round)
    }

    /// The addresses that a round asks for, in order.
    pub fn requests(&self, round: &Round) -> (v: Vec<Bytes32>)
        ensures
            addresses_of(v@) == round@.wanted,
    {
        copy_addresses(&round.wanted)
    }

    /// Takes one item of a round's stream.
    pub fn absorb(&mut self, round: &mut Round, item: Item)
        requires
            old(self).in_round(*old(round)),
            old(round)@.at < old(round)@.wanted.len(),
        ensures
            final(self).in_round(*final(round)),
            ({
                let (r2, bodies) = round_step(old(round)@, old(self)@.bodies, item_data(item));
                final(round)@ == r2 && final(self)@ == (LevelView { bodies, ..old(self)@ })
            }),
    {
        proof {
            round_keeps_account(self@, round@, item_data(item));
        }
        round.absorb(item, &mut self.bodies);
    }

    /// Closes a round. Where nothing failed the level is complete; else its
    /// stragglers are wanted again, after a pause.
    pub fn end_round(self, round: Round) -> (e: RoundEnd)
        requires
            self.in_round(round),
            round@.at == round@.wanted.len(),
        ensures
            match e {
                RoundEnd::Complete(bodies) => {
                    &&& round@.failed.len() == 0
                    &&& bodies.wf()
                    &&& bodies@ == self@.bodies
                    &&& forall|a: Seq<u8>| #[trigger]
                        self@.level.contains(a) ==> bodies@.contains_key(a)
                },
                RoundEnd::Again { fetch, pause_millis, notice } => {
                    &&& round@.failed.len() > 0
                    &&& fetch.wf()
                    &&& fetch@ == (LevelView {
                        wanted: round@.failed,
                        round: self@.round + 1,
                        last: Some((round@.failed.len(), self@.wanted.len(), self@.round)),
                        ..self@
                    })
                    &&& pause_millis == pause_after(self@.round)
                    &&& notice@ == retry_notice(round@.failed.len(), self@.round)
                },
            },
    {
        let ghost l = self@;
        let ghost r = round@;
        proof {
            assert(addresses_of(round.failed@).len() == round.failed@.len());
            assert(addresses_of(self.wanted@).len() == self.wanted@.len());
        }
        let failed: usize = round.failed.len();
        if failed == 0 {
            proof {
                assert forall|a: Seq<u8>| #[trigger] l.level.contains(a) implies l.bodies.contains_key(
                    a,
                ) by {
                    if l.wanted.contains(a) {
                        let i = choose|i: int| 0 <= i < l.wanted.len() && l.wanted[i] == a;
                        assert(r.wanted[i] == a);
                    }
                }
            }
            return RoundEnd::Complete(self.bodies);
        }
        let n: u64 = self.round as u64;
        let pause_millis: u64 = if 500 * (n + 1) <= 2000 {
            500 * (n + 1)
        } else {
            2000
        };
        let mut notice = String::from_str("retrying ");
        notice.append(decimal(failed as u64).as_str());
        notice.append(" chunk(s) that failed in round ");
        notice.append(decimal(n).as_str());
        let fetch = LevelFetch {
            level: self.level,
            last: Some((failed, self.wanted.len(), self.round)),
            round: self.round + 1,
            wanted: round.failed,
            bodies: self.bodies,
        };
        proof {
            assert forall|a: Seq<u8>| #[trigger] l.level.contains(a) implies l.bodies.contains_key(a)
                || r.failed.contains(a) by {
                if l.wanted.contains(a) {
                    let i = choose|i: int| 0 <= i < l.wanted.len() && l.wanted[i] == a;
                    assert(r.wanted[i] == a);
                }
            }
        }
        RoundEnd::Again { fetch, pause_millis, notice }
    }

    /// The level once no round is due: its bodies where there is one for each
    /// place of the level, and else what its last round left behind. A level
    /// that still wants an address fails.
    pub fn finish(self) -> (r: Result<ByteTable, DownloadError>)
        requires
            self.wf(),
            self@.round == LEVEL_ROUNDS || self@.wanted.len() == 0,
        ensures
            match r {
                Ok(bodies) => bodies.wf() && bodies@ == self@.bodies && self@.wanted.len() == 0
                    && self@.bodies.dom().len() == self@.level.len(),
                Err(e) => self@.wanted.len() > 0 && match self@.last {
                    Some((failed, of, round)) => e@ == (Fault::Stragglers { failed, of, round }),
                    None => false,
                },
            },
    {
        let ghost l = self@;
        proof {
            assert(addresses_of(self.level@).len() == self.level@.len());
            if l.wanted.len() > 0 {
                lemma_stragglers_leave_gaps(l, self.bodies@.dom());
            } else {
                assert(l.round == 0);
                assert(l.level.len() == 0);
                assert(l.bodies.dom() =~= Set::empty()) by {
                    assert forall|a: Seq<u8>| !l.bodies.contains_key(a) by {
                        if l.bodies.contains_key(a) {
                            assert(l.level.contains(a));
                        }
                    }
                }
            }
        }
        if self.bodies.len() == self.level.len() {
            return Ok(self.bodies);
        }
        match self.last {
            Some((failed, of, round)) => Err(DownloadError::Stragglers { failed, of, round }),
            None => {
                assert(false);
                Err(DownloadError::TooDeep)
            },
        }
    }
}

/// While an address of a level is wanted, fewer bodies have arrived than the
/// level has places.
proof fn lemma_stragglers_leave_gaps(l: LevelView, dom: Set<Seq<u8>>)
    requires
        level_holds(l),
        l.wanted.len() > 0,
        dom == l.bodies.dom(),
    ensures
        dom.len() < l.level.len(),
{
    let places = l.level.to_set();
    l.level.lemma_cardinality_of_set();
    vstd::seq_lib::seq_to_set_is_finite(l.level);
    assert forall|a: Seq<u8>| dom.contains(a) implies places.contains(a) by {
        assert(l.bodies.contains_key(a));
        assert(l.level.contains(a));
    }
    let x = l.wanted[0];
    assert(l.wanted.contains(x));
    if l.level.no_duplicates() {
        l.level.unique_seq_to_set();
        assert(!dom.contains(x));
        assert(places.contains(x)) by {
            assert(l.level.contains(x));
        }
        assert(dom.subset_of(places.remove(x)));
        vstd::set_lib::lemma_len_subset(dom, places.remove(x));
    } else {
        if places.len() == l.level.len() {
            l.level.lemma_no_dup_set_cardinality();
        }
        vstd::set_lib::lemma_len_subset(dom, places);
    }
}

/// The words for a failed download.
pub open spec fn fault_message(f: Fault) -> Seq<char> {
    match f {
        Fault::NotReturned(a) => "node did not return chunk "@ + hex_text(a),
        Fault::ShortBody(a, n) => "chunk "@ + hex_text(a) + " body shorter than span header ("@
            + dec(n) + " bytes)"@,
        Fault::RaggedBody(a) => "intermediate chunk "@ + hex_text(a)
            + " body is not a multiple of 32 bytes"@,
        Fault::TooDeep => "file tree deeper than 64 levels; refusing to recurse further"@,
        Fault::Stragglers { failed, of, round } => dec(failed) + " of "@ + dec(of)
            + " chunks failed in round "@ + dec(round) + "; retrying"@,
    }
}

impl DownloadError {
    /// The words for the error.
    pub fn message(&self) -> (s: String)
        ensures
            s@ == fault_message(self@),
    {
        let mut s = String::new();
        match self {
            DownloadError::NotReturned { address } => {
                s.append("node did not return chunk ");
                s.append(address_hex(address).as_str());
            },
            DownloadError::ShortBody { address, len } => {
                s.append("chunk ");
                s.append(address_hex(address).as_str());
                s.append(" body shorter than span header (");
                s.append(decimal(*len as u64).as_str());
                s.append(" bytes)");
            },
            DownloadError::RaggedBody { address } => {
                s.append("intermediate chunk ");
                s.append(address_hex(address).as_str());
                s.append(" body is not a multiple of 32 bytes");
            },
            DownloadError::TooDeep => {
                s.append("file tree deeper than 64 levels; refusing to recurse further");
            },
            DownloadError::Stragglers { failed, of, round } => {
                s.append(decimal(*failed as u64).as_str());
                s.append(" of ");
                s.append(decimal(*of as u64).as_str());
                s.append(" chunks failed in round ");
                s.append(decimal(*round as u64).as_str());
                s.append("; retrying");
            },
        }
        assert(s@ =~= fault_message(self@));
        s
    }
}

/// The number that a body's first eight bytes state, the least significant first.
pub open spec fn stated_span(body: Seq<u8>) -> nat {
    body[0] as nat + 0x100 * (body[1] as nat) + 0x1_0000 * (body[2] as nat) + 0x100_0000 * (
    body[3] as nat) + 0x1_0000_0000 * (body[4] as nat) + 0x100_0000_0000 * (body[5] as nat)
        + 0x1_0000_0000_0000 * (body[6] as nat) + 0x100_0000_0000_0000 * (body[7] as nat)
}

proof fn lemma_stated_span(body: Seq<u8>)
    requires
        body.len() >= 8,
    ensures
        span_of(body) == stated_span(body),
{
    let head = body.take(8);
    reveal_with_fuel(crate::bytes::le_value, 9);
    assert(head.skip(1).skip(1) =~= head.skip(2));
    assert(head.skip(2).skip(1) =~= head.skip(3));
    assert(head.skip(3).skip(1) =~= head.skip(4));
    assert(head.skip(4).skip(1) =~= head.skip(5));
    assert(head.skip(5).skip(1) =~= head.skip(6));
    assert(head.skip(6).skip(1) =~= head.skip(7));
    assert(head.skip(7).skip(1) =~= head.skip(8));
}

proof fn lemma_expanded_one(bodies: Store, p: PieceView)
    ensures
        expanded(bodies, seq![p]) == expanded_piece(bodies, p),
{
    reveal_with_fuel(expanded, 2);
    assert(seq![p].drop_last() =~= Seq::empty());
    assert(seq![p].last() == p);
    if expanded_piece(bodies, p) is Ok {
        let next = expanded_piece(bodies, p)->Ok_0;
        assert(Seq::<PieceView>::empty() + next =~= next);
    }
}

/// The addresses of the subtrees among `pieces`, strung together.
pub open spec fn strung(pieces: Seq<PieceView>) -> Seq<u8>
    decreases pieces.len(),
{
    if pieces.len() == 0 {
        Seq::empty()
    } else {
        strung(pieces.drop_last()) + (match pieces.last() {
            PieceView::Node(a) => a,
            PieceView::Data(_) => Seq::empty(),
        })
    }
}

proof fn lemma_strung(pieces: Seq<PieceView>, data: Seq<u8>, k: nat)
    requires
        k <= pieces.len(),
        data.len() == 32 * pieces.len(),
        forall|i: int|
            0 <= i < pieces.len() ==> #[trigger] pieces[i] == PieceView::Node(
                data.subrange(32 * i, 32 * i + 32),
            ),
    ensures
        strung(pieces.take(k as int)) == data.take(32 * k as int),
    decreases k,
{
    if k == 0 {
        assert(data.take(0) =~= Seq::empty());
    } else {
        lemma_strung(pieces, data, (k - 1) as nat);
        let upto = pieces.take(k as int);
        assert(upto.drop_last() =~= pieces.take(k - 1));
        assert(upto.last() == pieces[k - 1]);
        assert(data.take(32 * k as int) =~= data.take(32 * (k - 1)) + data.subrange(
            32 * (k - 1),
            32 * (k - 1) + 32,
        ));
    }
}

/// No child is dropped: where a chunk states more than 4096 bytes and its payload
/// is as long as `n` addresses, `n` subtrees take its place, and their addresses,
/// one after another, are the payload.
pub proof fn every_child_takes_its_place(bodies: Store, a: Seq<u8>, n: nat)
    requires
        bodies.contains_key(a),
        bodies[a].len() == 8 + 32 * n,
        stated_span(bodies[a]) > 4096,
    ensures
        match expanded(bodies, seq![PieceView::Node(a)]) {
            Ok(v) => {
                &&& v.len() == n
                &&& forall|i: int| 0 <= i < n ==> (#[trigger] v[i]) is Node && v[i]->Node_0.len() == 32
                &&& strung(v) == bodies[a].skip(8)
            },
            Err(_) => false,
        },
{
    let body = bodies[a];
    let data = body.skip(8);
    lemma_stated_span(body);
    lemma_expanded_one(bodies, PieceView::Node(a));
    let v = nodes(refs(data));
    assert(data.len() / 32 == n);
    assert(v.len() == n);
    assert forall|i: int| 0 <= i < v.len() implies #[trigger] v[i] == PieceView::Node(
        data.subrange(32 * i, 32 * i + 32),
    ) by {}
    lemma_strung(v, data, n);
    assert(v.take(n as int) =~= v);
    assert(data.take(32 * n as int) =~= data);
}

/// What takes the place of a piece that is no list of subtrees: data stays as it
/// is; a chunk that states at most 4096 bytes gives what follows its eight bytes;
/// a chunk that has not arrived, one shorter than eight bytes, and one whose
/// addresses are cut short are errors that name it.
#[verifier::spinoff_prover]
#[verifier::rlimit(40)]
pub proof fn other_pieces_open_as_they_are(bodies: Store, d: Seq<u8>, a: Seq<u8>)
    ensures
        expanded(bodies, seq![PieceView::Data(d)]) == Ok::<Seq<PieceView>, Fault>(
            seq![PieceView::Data(d)],
        ),
        !bodies.contains_key(a) ==> expanded(bodies, seq![PieceView::Node(a)]) == Err::<
            Seq<PieceView>,
            Fault,
        >(Fault::NotReturned(a)),
        bodies.contains_key(a) && bodies[a].len() < 8 ==> expanded(bodies, seq![PieceView::Node(a)])
            == Err::<Seq<PieceView>, Fault>(Fault::ShortBody(a, bodies[a].len())),
        bodies.contains_key(a) && bodies[a].len() >= 8 && stated_span(bodies[a]) <= 4096
            ==> expanded(bodies, seq![PieceView::Node(a)]) == Ok::<Seq<PieceView>, Fault>(
            seq![PieceView::Data(bodies[a].subrange(8, bodies[a].len() as int))],
        ),
        bodies.contains_key(a) && bodies[a].len() >= 8 && stated_span(bodies[a]) > 4096 && bodies[a].len()
            % 32 != 8 ==> expanded(bodies, seq![PieceView::Node(a)]) == Err::<
            Seq<PieceView>,
            Fault,
        >(Fault::RaggedBody(a)),
{
    lemma_expanded_one(bodies, PieceView::Data(d));
    lemma_expanded_one(bodies, PieceView::Node(a));
    if bodies.contains_key(a) && bodies[a].len() >= 8 {
        lemma_stated_span(bodies[a]);
        assert(bodies[a].skip(8) =~= bodies[a].subrange(8, bodies[a].len() as int));
    }
}

/// Pieces are opened where they stand: what takes the place of a list is what
/// takes the place of its first part, and behind it what takes the place of the
/// rest; what is wrong with the first part comes first.
pub proof fn pieces_open_in_place(bodies: Store, f: Seq<PieceView>, g: Seq<PieceView>)
    ensures
        expanded(bodies, f + g) == (match (expanded(bodies, f), expanded(bodies, g)) {
            (Err(e), _) => Err(e),
            (Ok(_), Err(e)) => Err(e),
            (Ok(x), Ok(y)) => Ok(x + y),
        }),
    decreases g.len(),
{
    if g.len() == 0 {
        assert(f + g =~= f);
        if expanded(bodies, f) is Ok {
            let x = expanded(bodies, f)->Ok_0;
            assert(x + Seq::<PieceView>::empty() =~= x);
        }
    } else {
        assert((f + g).drop_last() =~= f + g.drop_last());
        assert((f + g).last() == g.last());
        pieces_open_in_place(bodies, f, g.drop_last());
        if expanded(bodies, f) is Ok && expanded(bodies, g) is Ok {
            let x = expanded(bodies, f)->Ok_0;
            let y = expanded(bodies, g.drop_last())->Ok_0;
            let z = expanded_piece(bodies, g.last())->Ok_0;
            assert(x + y + z =~= x + (y + z));
        }
    }
}

/// A walk asks for every address and gathers every stretch, in file order: of two
/// lists one after the other it asks for the addresses of the first and then for
/// those of the second, and so with the data; of a single piece it asks for its
/// address or takes its data.
pub proof fn nothing_is_passed_over(f: Seq<PieceView>, g: Seq<PieceView>, a: Seq<u8>)
    ensures
        pending(f + g) == pending(f) + pending(g),
        gathered(f + g) == gathered(f) + gathered(g),
        pending(Seq::empty()) == Seq::<Seq<u8>>::empty(),
        gathered(Seq::empty()) == Seq::<u8>::empty(),
        pending(seq![PieceView::Node(a)]) == seq![a],
        pending(seq![PieceView::Data(a)]) == Seq::<Seq<u8>>::empty(),
        gathered(seq![PieceView::Node(a)]) == Seq::<u8>::empty(),
        gathered(seq![PieceView::Data(a)]) == a,
    decreases g.len(),
{
    let one = seq![PieceView::Node(a)];
    let other = seq![PieceView::Data(a)];
    reveal_with_fuel(pending, 2);
    reveal_with_fuel(gathered, 2);
    assert(one.drop_last() =~= Seq::empty());
    assert(other.drop_last() =~= Seq::empty());
    assert(pending(one) =~= seq![a]);
    assert(gathered(other) =~= a);
    if g.len() == 0 {
        assert(f + g =~= f);
        assert(pending(f) + pending(g) =~= pending(f));
        assert(gathered(f) + gathered(g) =~= gathered(f));
    } else {
        assert((f + g).drop_last() =~= f + g.drop_last());
        assert((f + g).last() == g.last());
        nothing_is_passed_over(f, g.drop_last(), a);
        match g.last() {
            PieceView::Data(d) => {
                assert(gathered(f) + gathered(g.drop_last()) + d =~= gathered(f) + gathered(g));
            },
            PieceView::Node(x) => {
                assert((pending(f) + pending(g.drop_last())).push(x) =~= pending(f) + pending(g));
            },
        }
    }
}

/// A file's tree: a leaf with its stretch of the file, or subtrees with their
/// addresses, in file order.
pub enum FileTree {
    Leaf(Seq<u8>),
    Inner(Seq<(Seq<u8>, FileTree)>),
}

/// The file that trees hold together, one after another.
pub open spec fn file_of(trees: Seq<(Seq<u8>, FileTree)>) -> Seq<u8>
    decreases trees,
{
    if trees.len() == 0 {
        Seq::empty()
    } else {
        file_of(trees.drop_last()) + (match trees.last().1 {
            FileTree::Leaf(d) => d,
            FileTree::Inner(kids) => file_of(kids),
        })
    }
}

/// Whether a store holds trees of at most `levels` levels, each at its address. A
/// leaf's body is its length in eight bytes and its stretch, of at most 4096
/// bytes. That of any other chunk is the length of its part of the file and the
/// addresses of its subtrees.
pub open spec fn holds_trees(store: Store, trees: Seq<(Seq<u8>, FileTree)>, levels: nat) -> bool
    decreases trees,
{
    trees.len() > 0 ==> {
        let (a, tree) = trees.last();
        let body = store[a];
        &&& holds_trees(store, trees.drop_last(), levels)
        &&& levels > 0
        &&& store.contains_key(a)
        &&& body.len() >= 8
        &&& match tree {
            FileTree::Leaf(d) => {
                &&& d.len() <= 4096
                &&& stated_span(body) == d.len()
                &&& body.skip(8) == d
            },
            FileTree::Inner(kids) => {
                &&& file_of(kids).len() > 4096
                &&& stated_span(body) == file_of(kids).len()
                &&& body.len() == 8 + 32 * kids.len()
                &&& forall|i: int|
                    0 <= i < kids.len() ==> (#[trigger] kids[i]).0 == body.subrange(
                        8 + 32 * i,
                        40 + 32 * i,
                    )
                &&& holds_trees(store, kids, (levels - 1) as nat)
            },
        }
    }
}

proof fn lemma_trees_read_back(store: Store, trees: Seq<(Seq<u8>, FileTree)>, levels: nat)
    requires
        holds_trees(store, trees, levels),
    ensures
        content(
            store,
            Seq::new(trees.len(), |i: int| PieceView::Node(trees[i].0)),
            levels,
        ) == Some(file_of(trees)),
    decreases trees,
{
    let pieces = Seq::new(trees.len(), |i: int| PieceView::Node(trees[i].0));
    if trees.len() > 0 {
        let front = trees.drop_last();
        let (a, tree) = trees.last();
        let body = store[a];
        lemma_trees_read_back(store, front, levels);
        assert(pieces.drop_last() =~= Seq::new(
            front.len(),
            |i: int| PieceView::Node(front[i].0),
        ));
        assert(pieces.last() == PieceView::Node(a));
        lemma_stated_span(body);
        match tree {
            FileTree::Leaf(d) => {},
            FileTree::Inner(kids) => {
                lemma_trees_read_back(store, kids, (levels - 1) as nat);
                let data = body.skip(8);
                let below = Seq::new(kids.len(), |i: int| PieceView::Node(kids[i].0));
                assert(nodes(refs(data)) =~= below) by {
                    assert(data.len() / 32 == kids.len());
                    assert forall|i: int| 0 <= i < kids.len() implies nodes(refs(data))[i] == below[i] by {
                        assert(data.subrange(32 * i, 32 * i + 32) =~= body.subrange(
                            8 + 32 * i,
                            40 + 32 * i,
                        ));
                        assert(kids[i].0 == body.subrange(8 + 32 * i, 40 + 32 * i));
                    }
                }
            },
        }
    }
}

/// A file that was cut into a tree of at most 64 levels reads back whole, however
/// it was cut: the file at the tree's root is the file.
pub proof fn cut_file_reads_back(store: Store, root: Seq<u8>, tree: FileTree)
    requires
        holds_trees(store, seq![(root, tree)], 64),
    ensures
        file_at(store, root) == Some(file_of(seq![(root, tree)])),
{
    let trees = seq![(root, tree)];
    lemma_trees_read_back(store, trees, 64);
    assert(Seq::new(trees.len(), |i: int| PieceView::Node(trees[i].0)) =~= seq![
        PieceView::Node(root),
    ]);
}

/// The number of levels of trees.
pub open spec fn levels_of(trees: Seq<(Seq<u8>, FileTree)>) -> nat
    decreases trees,
{
    if trees.len() == 0 {
        0
    } else {
        let before = levels_of(trees.drop_last());
        let last: nat = match trees.last().1 {
            FileTree::Leaf(_) => 1,
            FileTree::Inner(kids) => 1 + levels_of(kids),
        };
        if before < last {
            last
        } else {
            before
        }
    }
}

proof fn lemma_deep_trees(store: Store, trees: Seq<(Seq<u8>, FileTree)>, held: nat, levels: nat)
    requires
        holds_trees(store, trees, held),
        levels_of(trees) > levels,
    ensures
        content(
            store,
            Seq::new(trees.len(), |i: int| PieceView::Node(trees[i].0)),
            levels,
        ) is None,
    decreases trees,
{
    let pieces = Seq::new(trees.len(), |i: int| PieceView::Node(trees[i].0));
    let front = trees.drop_last();
    let (a, tree) = trees.last();
    let body = store[a];
    assert(pieces.drop_last() =~= Seq::new(front.len(), |i: int| PieceView::Node(front[i].0)));
    assert(pieces.last() == PieceView::Node(a));
    if levels_of(front) > levels {
        lemma_deep_trees(store, front, held, levels);
    } else if levels > 0 {
        lemma_stated_span(body);
        match tree {
            FileTree::Leaf(_) => {},
            FileTree::Inner(kids) => {
                lemma_deep_trees(store, kids, (held - 1) as nat, (levels - 1) as nat);
                let data = body.skip(8);
                let below = Seq::new(kids.len(), |i: int| PieceView::Node(kids[i].0));
                assert(nodes(refs(data)) =~= below) by {
                    assert(data.len() / 32 == kids.len());
                    assert forall|i: int| 0 <= i < kids.len() implies nodes(refs(data))[i] == below[i] by {
                        assert(data.subrange(32 * i, 32 * i + 32) =~= body.subrange(
                            8 + 32 * i,
                            40 + 32 * i,
                        ));
                        assert(kids[i].0 == body.subrange(8 + 32 * i, 40 + 32 * i));
                    }
                }
            },
        }
    }
}

/// A tree of more than 64 levels is no file.
pub proof fn deeper_tree_is_no_file(store: Store, root: Seq<u8>, tree: FileTree, held: nat)
    requires
        holds_trees(store, seq![(root, tree)], held),
        levels_of(seq![(root, tree)]) > 64,
    ensures
        file_at(store, root) is None,
{
    let trees = seq![(root, tree)];
    lemma_deep_trees(store, trees, held, 64);
    assert(Seq::new(trees.len(), |i: int| PieceView::Node(trees[i].0)) =~= seq![
        PieceView::Node(root),
    ]);
}

/// A round and its bodies after a run of items.
pub open spec fn round_run(r: RoundView, bodies: Store, items: Seq<Option<Seq<u8>>>) -> (
    RoundView,
    Store,
)
    decreases items.len(),
{
    if items.len() == 0 {
        (r, bodies)
    } else {
        let (before, held) = round_run(r, bodies, items.drop_last());
        round_step(before, held, items.last())
    }
}

/// Responses answer requests in order: after a response to each of the first
/// addresses of a round, every address whose response had data is there with that
/// data, every address whose response had none has failed, and no other has.
pub proof fn responses_answer_in_order(
    wanted: Seq<Seq<u8>>,
    bodies: Store,
    items: Seq<Option<Seq<u8>>>,
    i: int,
)
    requires
        wanted.no_duplicates(),
        items.len() <= wanted.len(),
        forall|k: int| 0 <= k < items.len() ==> (#[trigger] items[k]) is Some,
        0 <= i < wanted.len(),
    ensures
        ({
            let (r, held) = round_run(
                RoundView { wanted, at: 0, failed: Seq::empty() },
                bodies,
                items,
            );
            &&& r.wanted == wanted
            &&& r.at == items.len()
            &&& i < items.len() && items[i]->0.len() > 0 ==> held.contains_key(wanted[i])
                && held[wanted[i]] == items[i]->0
            &&& r.failed.contains(wanted[i]) <==> i < items.len() && items[i]->0.len() == 0
            &&& forall|a: Seq<u8>|
                (#[trigger] held.contains_key(a)) ==> bodies.contains_key(a) || exists|k: int|
                    0 <= k < items.len() && #[trigger] wanted[k] == a
        }),
    decreases items.len(),
{
    let start = RoundView { wanted, at: 0, failed: Seq::empty() };
    let (r, held) = round_run(start, bodies, items);
    if items.len() > 0 {
        let front = items.drop_last();
        responses_answer_in_order(wanted, bodies, front, i);
        let (before, had) = round_run(start, bodies, front);
        let at = front.len() as int;
        assert(items.last() == items[at]);
        assert forall|a: Seq<u8>| (#[trigger] held.contains_key(a)) implies bodies.contains_key(a)
            || exists|k: int| 0 <= k < items.len() && #[trigger] wanted[k] == a by {
            if !had.contains_key(a) {
                assert(wanted[at] == a);
            }
        }
        if items.last()->0.len() == 0 {
            assert(r.failed == before.failed.push(wanted[at]));
            assert(r.failed[before.failed.len() as int] == wanted[at]);
            if before.failed.contains(wanted[i]) {
                let j = choose|j: int| 0 <= j < before.failed.len() && before.failed[j] == wanted[i];
                assert(r.failed[j] == wanted[i]);
            }
            if r.failed.contains(wanted[i]) && i != at {
                let j = choose|j: int| 0 <= j < r.failed.len() && r.failed[j] == wanted[i];
                assert(before.failed[j] == wanted[i]);
            }
        }
    }
}

/// A stream that ends or breaks fails all that it still owes, in order, and
/// nothing else changes: what has arrived stays.
pub proof fn broken_stream_fails_the_rest(r: RoundView, bodies: Store, j: int)
    requires
        r.at < r.wanted.len(),
        0 <= j < r.wanted.len() - r.at,
    ensures
        round_step(r, bodies, None).1 == bodies,
        round_step(r, bodies, None).0.wanted == r.wanted,
        round_step(r, bodies, None).0.at == r.wanted.len(),
        round_step(r, bodies, None).0.failed.len() == r.failed.len() + r.wanted.len() - r.at,
        round_step(r, bodies, None).0.failed.take(r.failed.len() as int) == r.failed,
        round_step(r, bodies, None).0.failed[r.failed.len() + j] == r.wanted[r.at + j],
        item_data(Item::Error) is None,
        item_data(Item::End) is None,
{
    assert(round_step(r, bodies, None).0.failed.take(r.failed.len() as int) =~= r.failed);
}

/// A level is asked for in at most fifteen rounds. The pauses between them are
/// half a second, one, one and a half, and then two seconds each.
pub proof fn rounds_are_paced(l: LevelView, round: nat)
    requires
        level_holds(l),
    ensures
        l.round <= 15,
        LEVEL_ROUNDS == 15,
        pause_after(0) == 500,
        pause_after(round + 1) == (if round < 3 {
            pause_after(round) + 500
        } else {
            2000
        }),
{
}

/// A response's data is taken as it came.
pub proof fn response_data_is_taken(data: Vec<u8>)
    ensures
        item_data(Item::Response(data)) == Some(data@),
{
}

/// A level of a file's tree can be opened: where the bodies of its chunks have
/// arrived as the store holds them, every address is replaced, and nothing is in
/// the way.
pub proof fn levels_of_a_file_open(
    store: Store,
    bodies: Store,
    trees: Seq<(Seq<u8>, FileTree)>,
    levels: nat,
)
    requires
        holds_trees(store, trees, levels),
        forall|i: int|
            0 <= i < trees.len() ==> bodies.contains_key((#[trigger] trees[i]).0)
                && bodies[trees[i].0] == store[trees[i].0],
    ensures
        expanded(bodies, Seq::new(trees.len(), |i: int| PieceView::Node(trees[i].0))) is Ok,
    decreases trees.len(),
{
    let pieces = Seq::new(trees.len(), |i: int| PieceView::Node(trees[i].0));
    if trees.len() > 0 {
        let front = trees.drop_last();
        assert forall|i: int| 0 <= i < front.len() implies bodies.contains_key(
            (#[trigger] front[i]).0,
        ) && bodies[front[i].0] == store[front[i].0] by {
            assert(front[i] == trees[i]);
        }
        levels_of_a_file_open(store, bodies, front, levels);
        let a = trees.last().0;
        assert(trees.last() == trees[trees.len() - 1]);
        assert(pieces.drop_last() =~= Seq::new(
            front.len(),
            |i: int| PieceView::Node(front[i].0),
        ));
        assert(pieces.last() == PieceView::Node(a));
        lemma_stated_span(store[a]);
    }
}

/// The words for a failed download name the chunk and its size, or count what failed;
/// so does the line for a round in which chunks failed.
pub proof fn download_errors_say_why(a: Seq<u8>, n: nat, of: nat, round: nat)
    ensures
        fault_message(Fault::NotReturned(a)) == "node did not return chunk "@ + hex_text(a),
        fault_message(Fault::ShortBody(a, n)) == "chunk "@ + hex_text(a)
            + " body shorter than span header ("@ + dec(n) + " bytes)"@,
        fault_message(Fault::RaggedBody(a)) == "intermediate chunk "@ + hex_text(a)
            + " body is not a multiple of 32 bytes"@,
        fault_message(Fault::TooDeep)
            == "file tree deeper than 64 levels; refusing to recurse further"@,
        fault_message(Fault::Stragglers { failed: n, of, round }) == dec(n) + " of "@ + dec(of)
            + " chunks failed in round "@ + dec(round) + "; retrying"@,
        retry_notice(n, round) == "retrying "@ + dec(n) + " chunk(s) that failed in round "@ + dec(
            round,
        ),
{
}

/// A walk that is finished has read the file, whatever the tree: where a store holds the
/// bodies that were fetched and a tree of at most 64 levels at the walk's root, what
/// comes out is the file that the tree was cut from.
pub proof fn walk_reads_the_file(w: Walk, out: Vec<u8>, store: Store, tree: FileTree)
    requires
        call_ensures(Walk::finish, (w,), out),
        agrees_all(store, w.fetched()),
        holds_trees(store, seq![(w.root(), tree)], 64),
    ensures
        out@ == file_of(seq![(w.root(), tree)]),
{
    cut_file_reads_back(store, w.root(), tree);
}

/// A walk starts at its root with nothing fetched, asks for all that is pending, goes down
/// one level with the bodies of a level, and ends where nothing is pending. Below level
/// 64 it asks for nothing.
pub proof fn walk_goes_level_by_level(
    root: Bytes32,
    start: Walk,
    w: Walk,
    next: Result<Next, DownloadError>,
    bodies: &ByteTable,
    below: Result<Walk, DownloadError>,
)
    requires
        call_ensures(Walk::new, (root,), start),
        call_ensures(Walk::next_level, (&w,), next),
        call_ensures(Walk::expand, (w, bodies), below),
    ensures
        start.pieces() == seq![PieceView::Node(root@)],
        start.root() == root@,
        start.depth() == 0,
        start.fetched().len() == 0,
        next matches Ok(Next::Complete) <==> pending(w.pieces()).len() == 0,
        next matches Ok(Next::Fetch(v)) ==> addresses_of(v@) == pending(w.pieces()) && w.depth()
            < 64,
        next matches Err(e) ==> e@ == Fault::TooDeep && w.depth() == 64,
        below matches Ok(lower) ==> expanded(bodies@, w.pieces()) == Ok::<Seq<PieceView>, Fault>(
            lower.pieces(),
        ) && lower.depth() == w.depth() + 1 && lower.root() == w.root() && lower.fetched()
            == w.fetched().push(bodies@),
        below matches Err(e) ==> expanded(bodies@, w.pieces()) == Err::<Seq<PieceView>, Fault>(e@),
{
}

/// A round that lost nothing completes its level, with all that arrived. One that lost
/// something asks for just that again, after half a second for each round so far and two
/// seconds at most, and keeps what arrived.
pub proof fn rounds_ask_again_for_what_failed(l: LevelFetch, round: Round, e: RoundEnd)
    requires
        call_ensures(LevelFetch::end_round, (l, round), e),
    ensures
        e is Complete <==> round@.failed.len() == 0,
        e matches RoundEnd::Complete(bodies) ==> bodies@ == l@.bodies,
        e matches RoundEnd::Again { fetch, pause_millis, notice } ==> {
            &&& fetch@.wanted == round@.failed
            &&& fetch@.bodies == l@.bodies
            &&& fetch@.level == l@.level
            &&& fetch@.round == l@.round + 1
            &&& fetch@.last == Some((round@.failed.len(), l@.wanted.len(), l@.round))
            &&& l@.round < 3 ==> pause_millis == 500 * (l@.round + 1)
            &&& l@.round >= 3 ==> pause_millis == 2000
        },
{
}

/// A level starts with everything wanted; a round asks for all that is wanted, while fewer
/// than fifteen lie behind it; each item of its stream takes one step; and a level that
/// still wants something in the end fails with the count of its last round.
pub proof fn levels_go_round_by_round(
    level: Vec<Bytes32>,
    start: LevelFetch,
    l: LevelFetch,
    round: Option<Round>,
    r: Round,
    asked: Vec<Bytes32>,
    over: bool,
    m: &mut LevelFetch,
    t: &mut Round,
    item: Item,
    done: LevelFetch,
    end: Result<ByteTable, DownloadError>,
)
    requires
        call_ensures(LevelFetch::new, (level,), start),
        call_ensures(LevelFetch::start_round, (&l,), round),
        call_ensures(LevelFetch::requests, (&l, &r), asked),
        call_ensures(Round::is_over, (&r,), over),
        call_ensures(LevelFetch::absorb, (m, t, item), ()),
        call_ensures(LevelFetch::finish, (done,), end),
    ensures
        start@.wanted == addresses_of(level@),
        start@.round == 0,
        start@.bodies.dom().len() == 0,
        round is Some <==> l@.round < 15 && l@.wanted.len() > 0,
        round matches Some(x) ==> x@.wanted == l@.wanted && x@.at == 0 && x@.failed.len() == 0,
        addresses_of(asked@) == r@.wanted,
        over <==> r@.at == r@.wanted.len(),
        (final(t)@, final(m)@.bodies) == round_step(old(t)@, old(m)@.bodies, item_data(item)),
        final(m)@.wanted == old(m)@.wanted,
        final(m)@.round == old(m)@.round,
        end is Ok <==> done@.wanted.len() == 0,
        end matches Ok(bodies) ==> bodies@ == done@.bodies,
        end matches Err(e) ==> match done@.last {
            Some((failed, of, round)) => e@ == (Fault::Stragglers { failed, of, round }),
            None => false,
        },
{
}

/// A whole download: a walk that started at a root, went down with the bodies of one level
/// after another, all of them as a store holds them, and was finished, gives the file
/// whose tree of at most 64 levels the store holds at that root.
pub proof fn download_gives_the_file(
    root: Bytes32,
    walks: Seq<Walk>,
    tables: Seq<ByteTable>,
    out: Vec<u8>,
    store: Store,
    tree: FileTree,
)
    requires
        walks.len() == tables.len() + 1,
        call_ensures(Walk::new, (root,), walks[0]),
        forall|i: int|
            0 <= i < tables.len() ==> call_ensures(
                Walk::expand,
                (walks[i], &#[trigger] tables[i]),
                Ok(walks[i + 1]),
            ) && agrees(store, tables[i]@),
        call_ensures(Walk::finish, (walks.last(),), out),
        holds_trees(store, seq![(root@, tree)], 64),
    ensures
        out@ == file_of(seq![(root@, tree)]),
        out@ == gathered(walks.last().pieces()),
        walks.last().depth() == tables.len(),
{
    lemma_walked(root, walks, tables, tables.len() as int);
    let w = walks.last();
    assert(agrees_all(store, w.fetched())) by {
        assert forall|i: int| 0 <= i < w.fetched().len() implies agrees(
            store,
            #[trigger] w.fetched()[i],
        ) by {
            assert(agrees(store, tables[i]@));
        }
    }
    walk_reads_the_file(w, out, store, tree);
}

proof fn lemma_walked(root: Bytes32, walks: Seq<Walk>, tables: Seq<ByteTable>, k: int)
    requires
        walks.len() == tables.len() + 1,
        call_ensures(Walk::new, (root,), walks[0]),
        forall|i: int|
            0 <= i < tables.len() ==> call_ensures(
                Walk::expand,
                (walks[i], &#[trigger] tables[i]),
                Ok(walks[i + 1]),
            ),
        0 <= k <= tables.len(),
    ensures
        walks[k].root() == root@,
        walks[k].depth() == k,
        walks[k].fetched() == Seq::new(k as nat, |i: int| tables[i]@),
    decreases k,
{
    if k == 0 {
        assert(walks[0].fetched() =~= Seq::new(0, |i: int| tables[i]@));
    } else {
        lemma_walked(root, walks, tables, k - 1);
        let t = tables[k - 1];
        assert(walks[k].fetched() =~= Seq::new(k as nat, |i: int| tables[i]@));
    }
}

/// A level that is complete has a body for every address of it.
pub proof fn complete_level_has_every_body(
    l: LevelFetch,
    round: Round,
    bodies: ByteTable,
    i: int,
)
    requires
        call_ensures(LevelFetch::end_round, (l, round), RoundEnd::Complete(bodies)),
        0 <= i < l@.level.len(),
    ensures
        bodies@.contains_key(l@.level[i]),
        bodies@ == l@.bodies,
{
    assert(l@.level.contains(l@.level[i]));
}

/// Errors, pieces and addresses are seen as they are, and an error is shown with its words.
pub proof fn downloads_are_seen_as_they_are(
    e: DownloadError,
    shown: String,
    pieces: Seq<Piece>,
    addresses: Seq<Bytes32>,
)
    requires
        call_ensures(DownloadError::message, (&e,), shown),
    ensures
        shown@ == fault_message(e@),
        e matches DownloadError::NotReturned { address } ==> e@ == Fault::NotReturned(address@),
        e matches DownloadError::ShortBody { address, len } ==> e@ == Fault::ShortBody(
            address@,
            len as nat,
        ),
        e matches DownloadError::RaggedBody { address } ==> e@ == Fault::RaggedBody(address@),
        e is TooDeep ==> e@ == Fault::TooDeep,
        e matches DownloadError::Stragglers { failed, of, round } ==> e@ == (Fault::Stragglers {
            failed: failed as nat,
            of: of as nat,
            round: round as nat,
        }),
        pieces_of(pieces).len() == pieces.len(),
        forall|i: int|
            0 <= i < pieces.len() ==> #[trigger] pieces_of(pieces)[i] == (match pieces[i] {
                Piece::Data(d) => PieceView::Data(d@),
                Piece::Node(a) => PieceView::Node(a@),
            }),
        addresses_of(addresses).len() == addresses.len(),
        forall|i: int|
            0 <= i < addresses.len() ==> #[trigger] addresses_of(addresses)[i] == addresses[i]@,
{
}

} // verus!
