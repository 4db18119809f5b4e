//! The chunk store behind the node: what each of the node's replies means for
//! a chunk that was asked for, uploaded or looked up.

use vstd::prelude::*;

use crate::bytes::{copy_bytes, same_bytes, Bytes32};
use crate::chunkops::{
    bmt_address, bucket_of, can_stamp, content_address, content_fault, is_content, is_stamp,
    payload_of, signing_fails, slots, stamp_batch, stamp_counts, stamp_geometry, stamp_key,
    stamp_message, StampFault, Stamper,
};
use crate::hexes::{address_hex, hex_0x, hex_text, show_0x};
use crate::text::{dec, decimal, join2};
use crate::wallet::SigningKey;

verus! {

/// A content chunk: its address and its wire body, which hash to one another.
#[derive(Clone, Debug)]
pub struct Chunk {
    pub address: Bytes32,
    pub wire: Vec<u8>,
}

impl Chunk {
    /// The wire body is that of a content chunk at the address.
    pub open spec fn wf(self) -> bool {
        is_content(self.wire@) && bmt_address(self.wire@) == self.address@
    }
}

/// Why a store operation failed.
#[derive(Clone, Debug)]
pub enum StoreError {
    /// The node could not be reached, or refused the call.
    Transport(String),
    /// What came is no content chunk.
    Malformed(String),
    /// What came is another chunk than the one asked for.
    Mismatch { expected: Bytes32, actual: Bytes32 },
    /// The chunk could not be stamped or was not taken.
    Stamp(String),
    /// The chunk was not found.
    NotFound(String),
    /// The shared stream broke before the reply arrived.
    StreamReset,
}

/// A store's error, as contracts see it.
pub enum StoreFault {
    Transport(Seq<char>),
    Malformed(Seq<char>),
    Mismatch { expected: Seq<u8>, actual: Seq<u8> },
    Stamp(Seq<char>),
    NotFound(Seq<char>),
    StreamReset,
}

impl View for StoreError {
    type V = StoreFault;

    open spec fn view(&self) -> StoreFault {
        match *self {
            StoreError::Transport(t) => StoreFault::Transport(t@),
            StoreError::Malformed(t) => StoreFault::Malformed(t@),
            StoreError::Mismatch { expected, actual } => StoreFault::Mismatch {
                expected: expected@,
                actual: actual@,
            },
            StoreError::Stamp(t) => StoreFault::Stamp(t@),
            StoreError::NotFound(t) => StoreFault::NotFound(t@),
            StoreError::StreamReset => StoreFault::StreamReset,
        }
    }
}

/// What the node answers when asked for a chunk.
pub enum RetrieveReply {
    /// The chunk's wire body.
    Chunk(Vec<u8>),
    /// An error, in words.
    Error(String),
    /// Neither.
    Nothing,
}

/// What comes of the bytes returned for `address`, where they hash to
/// `hashed`: a chunk, if they are a content chunk at that very address.
pub open spec fn accepted(
    address: Seq<u8>,
    data: Seq<u8>,
    hashed: Result<Seq<u8>, Seq<char>>,
) -> Result<Seq<u8>, StoreFault> {
    if data.len() == 0 {
        Err(StoreFault::NotFound(hex_text(address)))
    } else {
        match hashed {
            Err(text) => Err(StoreFault::Malformed(text)),
            Ok(actual) => if actual == address {
                Ok(data)
            } else {
                Err(StoreFault::Mismatch { expected: address, actual })
            },
        }
    }
}

/// The hash of a wire body, or what is wrong with it.
pub open spec fn hashed_wire(data: Seq<u8>) -> Result<Seq<u8>, Seq<char>> {
    if is_content(data) {
        Ok(bmt_address(data))
    } else {
        Err(content_fault(data))
    }
}

/// A hash as a caller holds it.
pub open spec fn hash_view(r: Result<Bytes32, String>) -> Result<Seq<u8>, Seq<char>> {
    match r {
        Ok(a) => Ok(a@),
        Err(t) => Err(t@),
    }
}

/// Decides on the bytes returned for `address`, given their hash.
pub fn accept_hashed(address: &Bytes32, data: Vec<u8>, hashed: Result<Bytes32, String>) -> (r:
    Result<Chunk, StoreError>)
    ensures
        match r {
            Ok(c) => c.address@ == address@ && c.wire@ == data@ && accepted(
                address@,
                data@,
                hash_view(hashed),
            ) == Ok::<Seq<u8>, StoreFault>(data@),
            Err(e) => accepted(address@, data@, hash_view(hashed)) == Err::<Seq<u8>, StoreFault>(
                e@,
            ),
        },
{
    if data.len() == 0 {
        return Err(StoreError::NotFound(address_hex(address)));
    }
    match hashed {
        Err(text) => Err(StoreError::Malformed(text)),
        Ok(actual) => if same_bytes(actual.bytes.as_slice(), address.bytes.as_slice()) {
            Ok(Chunk { address: *address, wire: data })
        } else {
            Err(StoreError::Mismatch { expected: *address, actual })
        },
    }
}

/// Decides on the bytes returned for `address`: no bytes mean that the chunk
/// was not found; bytes that are no content chunk, or one with another
/// address, are refused.
pub fn accept_chunk(address: &Bytes32, data: Vec<u8>) -> (r: Result<Chunk, StoreError>)
    ensures
        match r {
            Ok(c) => c.wf() && c.address@ == address@ && c.wire@ == data@ && accepted(
                address@,
                data@,
                hashed_wire(data@),
            ) == Ok::<Seq<u8>, StoreFault>(data@),
            Err(e) => accepted(address@, data@, hashed_wire(data@)) == Err::<Seq<u8>, StoreFault>(
                e@,
            ),
        },
{
    let hashed = content_address(data.as_slice());
    accept_hashed(address, data, hashed)
}

/// The chunk that a reply brings, or why it brings none.
pub fn get(address: &Bytes32, reply: RetrieveReply) -> (r: Result<Chunk, StoreError>)
    ensures
        match reply {
            RetrieveReply::Chunk(data) => match r {
                Ok(c) => c.wf() && c.address@ == address@ && c.wire@ == data@ && accepted(
                    address@,
                    data@,
                    hashed_wire(data@),
                ) == Ok::<Seq<u8>, StoreFault>(data@),
                Err(e) => accepted(address@, data@, hashed_wire(data@)) == Err::<
                    Seq<u8>,
                    StoreFault,
                >(e@),
            },
            RetrieveReply::Error(message) => match r {
                Ok(_) => false,
                Err(e) => e@ == StoreFault::NotFound(message@),
            },
            RetrieveReply::Nothing => match r {
                Ok(_) => false,
                Err(e) => e@ == StoreFault::NotFound(hex_text(address@)),
            },
        },
{
    match reply {
        RetrieveReply::Chunk(data) => accept_chunk(address, data),
        RetrieveReply::Error(message) => Err(StoreError::NotFound(message)),
        RetrieveReply::Nothing => Err(StoreError::NotFound(address_hex(address))),
    }
}

/// No tampered chunk is taken: bytes are accepted for an address only if they
/// are a content chunk with that address.
pub proof fn accepted_chunk_is_the_one_asked_for(address: Seq<u8>, data: Seq<u8>)
    ensures
        accepted(address, data, hashed_wire(data)) is Ok <==> data.len() > 0 && is_content(data)
            && bmt_address(data) == address,
{
}

/// What is uploaded comes back: the wire body prepared from data is accepted at
/// the address prepared for it, and its payload is the data.
pub proof fn prepared_chunk_is_accepted(data: Seq<u8>)
    requires
        data.len() <= crate::chunkops::max_payload(),
    ensures
        ({
            let wire = crate::chunkops::wire_of(data);
            &&& accepted(bmt_address(wire), wire, hashed_wire(wire)) == Ok::<
                Seq<u8>,
                StoreFault,
            >(wire)
            &&& wire.len() >= 8
            &&& wire.skip(8) == data
        }),
{
    crate::chunkops::built_chunk_holds_its_data(data);
}

/// The kinds of chunks that are uploaded.
#[derive(Clone, Copy, Debug, PartialEq, Eq, Structural)]
pub enum ChunkKind {
    Content,
    SingleOwner,
}

/// What is sent to upload a chunk.
pub struct UploadRequest {
    pub data: Vec<u8>,
    pub stamp: Vec<u8>,
    pub address: Bytes32,
    pub kind: ChunkKind,
    pub validate: bool,
}

/// What the node answers to an upload.
pub enum UploadReply {
    /// The chunk was taken.
    Receipt,
    /// An error, in words.
    Error(String),
    /// Neither.
    Nothing,
}

/// What to send to upload a chunk, given what stamping it gave: its wire body, its
/// address and the stamp. A chunk that could not be stamped is not sent.
pub fn stamped_request(
    chunk: &Chunk,
    stamped: Result<Vec<u8>, StampFault>,
    validate: bool,
) -> (r: Result<UploadRequest, StoreError>)
    ensures
        match stamped {
            Ok(stamp) => match r {
                Ok(q) => {
                    &&& q.data@ == chunk.wire@
                    &&& q.stamp@ == stamp@
                    &&& q.address == chunk.address
                    &&& q.kind == ChunkKind::Content
                    &&& q.validate == validate
                },
                Err(_) => false,
            },
            Err(fault) => match r {
                Err(e) => e@ == StoreFault::Stamp(stamp_message(fault)),
                Ok(_) => false,
            },
        },
{
    match stamped {
        Err(e) => Err(StoreError::Stamp(e.message())),
        Ok(stamp) => Ok(
            UploadRequest {
                data: copy_bytes(chunk.wire.as_slice()),
                stamp,
                address: chunk.address,
                kind: ChunkKind::Content,
                validate,
            },
        ),
    }
}

/// What to send to upload a chunk: its wire body, its address and the stamp on
/// the next free slot of its bucket. A chunk that cannot be stamped is not
/// sent.
pub fn put_request(stamper: &mut Stamper, chunk: &Chunk, validate: bool) -> (r: Result<
    UploadRequest,
    StoreError,
>)
    requires
        old(stamper).wf(),
        can_stamp(stamp_geometry(*old(stamper)).0, stamp_geometry(*old(stamper)).1),
    ensures
        final(stamper).wf(),
        stamp_batch(*final(stamper)) == stamp_batch(*old(stamper)),
        stamp_geometry(*final(stamper)) == stamp_geometry(*old(stamper)),
        stamp_key(*final(stamper)) == stamp_key(*old(stamper)),
        ({
            let (depth, bucket_depth) = stamp_geometry(*old(stamper));
            let counts = stamp_counts(*old(stamper));
            let bucket = bucket_of(chunk.address@, bucket_depth as nat);
            let used = counts[bucket as int];
            let capacity = slots(depth as nat, bucket_depth as nat);
            let taken = counts.update(bucket as int, (used + 1) as u32);
            &&& bucket < counts.len()
            &&& match r {
                Ok(q) => {
                    &&& used < capacity
                    &&& stamp_counts(*final(stamper)) == taken
                    &&& q.data@ == chunk.wire@
                    &&& q.address@ == chunk.address@
                    &&& q.kind == ChunkKind::Content
                    &&& q.validate == validate
                    &&& is_stamp(
                        q.stamp@,
                        stamp_key(*old(stamper)),
                        stamp_batch(*old(stamper)),
                        chunk.address@,
                        bucket,
                        used as nat,
                    )
                },
                Err(StoreError::Stamp(text)) => if used == capacity {
                    stamp_counts(*final(stamper)) == counts && text@ == stamp_message(
                        StampFault::BucketFull { bucket: bucket as u32, capacity: capacity as u32 },
                    )
                } else {
                    stamp_counts(*final(stamper)) == taken && signing_fails(
                        stamp_key(*old(stamper)),
                        stamp_batch(*old(stamper)),
                        chunk.address@,
                        bucket,
                        used as nat,
                        text@,
                    )
                },
                Err(_) => false,
            }
        }),
{
    let stamped = stamper.stamp(&chunk.address);
    stamped_request(chunk, stamped, validate)
}

/// What the node's answer means for an upload.
pub fn put_outcome(reply: UploadReply) -> (r: Result<(), StoreError>)
    ensures
        match reply {
            UploadReply::Receipt => r is Ok,
            UploadReply::Error(message) => match r {
                Ok(_) => false,
                Err(e) => e@ == StoreFault::Stamp(message@),
            },
            UploadReply::Nothing => match r {
                Ok(_) => false,
                Err(e) => e@ == StoreFault::Stamp("upload returned no result"@),
            },
        },
{
    match reply {
        UploadReply::Receipt => Ok(()),
        UploadReply::Error(message) => Err(StoreError::Stamp(message)),
        UploadReply::Nothing => Err(
            StoreError::Stamp(String::from_str("upload returned no result")),
        ),
    }
}

/// Whether the node has a chunk, where its answer (if one came) was `reply`. A
/// call that failed counts as no.
pub fn has(reply: Option<bool>) -> (there: bool)
    ensures
        there == (reply == Some(true)),
{
    match reply {
        Some(there) => there,
        None => false,
    }
}

/// The stamper of a store that only reads: it is made for the batch of zeros,
/// which has one bucket with one slot, and is never used.
pub fn read_only_stamper(key: &SigningKey) -> (s: Stamper)
    requires
        key.wf(),
    ensures
        s.wf(),
        stamp_batch(s) == crate::bytes::zeros(32),
        stamp_geometry(s) == (0u8, 0u8),
        stamp_key(s) == key@,
{
    let zero = Bytes32 { bytes: [0u8; 32] };
    assert(zero@ =~= crate::bytes::zeros(32));
    Stamper::new(&zero, 0, 0, key)
}

/// The words for a store's error.
pub open spec fn store_message(f: StoreFault) -> Seq<char> {
    match f {
        StoreFault::Transport(t) => "grpc transport error: "@ + t,
        StoreFault::Malformed(t) => "chunk error: "@ + t,
        StoreFault::Mismatch { expected, actual } => "chunk error: "@
            + "Chunk address verification failed: expected "@ + hex_0x(expected) + ", got "@
            + hex_0x(actual),
        StoreFault::Stamp(t) => "stamping error: "@ + t,
        StoreFault::NotFound(t) => "chunk not found: "@ + t,
        StoreFault::StreamReset => "retrieve stream reset"@,
    }
}

impl StoreError {
    /// The words for the error.
    pub fn message(&self) -> (s: String)
        ensures
            s@ == store_message(self@),
    {
        match self {
            StoreError::Transport(t) => join2("grpc transport error: ", t.as_str()),
            StoreError::Malformed(t) => join2("chunk error: ", t.as_str()),
            StoreError::Mismatch { expected, actual } => {
                let mut s = String::from_str("chunk error: ");
                s.append("Chunk address verification failed: expected ");
                s.append(show_0x(expected.bytes.as_slice()).as_str());
                s.append(", got ");
                s.append(show_0x(actual.bytes.as_slice()).as_str());
                s
            },
            StoreError::Stamp(t) => join2("stamping error: ", t.as_str()),
            StoreError::NotFound(t) => join2("chunk not found: ", t.as_str()),
            StoreError::StreamReset => String::from_str("retrieve stream reset"),
        }
    }
}

/// Why a chunk command failed.
#[derive(Clone, Debug)]
pub enum ChunkCommandError {
    /// The node's error, on retrieval.
    RetrievalFailed(String),
    /// The node's reply to a retrieval was empty.
    NoRetrieval,
    /// The node's error, on upload.
    UploadFailed(String),
    /// The node's reply to an upload was empty.
    NoUpload,
    /// Both a file and standard input were named.
    TwoInputs,
    /// Neither a file nor standard input was named.
    NoInput,
}

/// The words for a failed chunk command.
pub open spec fn chunk_command_message(e: ChunkCommandError) -> Seq<char> {
    match e {
        ChunkCommandError::RetrievalFailed(m) => "chunk retrieval failed: "@ + m@,
        ChunkCommandError::NoRetrieval => "chunk retrieval returned no result"@,
        ChunkCommandError::UploadFailed(m) => "chunk upload failed: "@ + m@,
        ChunkCommandError::NoUpload => "chunk upload returned no result"@,
        ChunkCommandError::TwoInputs => "pass either a file or --stdin, not both"@,
        ChunkCommandError::NoInput => "no input: pass a file path or --stdin"@,
    }
}

impl ChunkCommandError {
    /// The words for the error.
    pub fn message(&self) -> (s: String)
        ensures
            s@ == chunk_command_message(*self),
    {
        match self {
            ChunkCommandError::RetrievalFailed(m) => join2("chunk retrieval failed: ", m.as_str()),
            ChunkCommandError::NoRetrieval => String::from_str(
                "chunk retrieval returned no result",
            ),
            ChunkCommandError::UploadFailed(m) => join2("chunk upload failed: ", m.as_str()),
            ChunkCommandError::NoUpload => String::from_str("chunk upload returned no result"),
            ChunkCommandError::TwoInputs => String::from_str(
                "pass either a file or --stdin, not both",
            ),
            ChunkCommandError::NoInput => String::from_str("no input: pass a file path or --stdin"),
        }
    }
}

/// The bytes that a chunk download writes: the payload, or the whole wire body
/// where it is asked for raw.
pub fn downloaded(reply: RetrieveReply, raw: bool) -> (r: Result<Vec<u8>, ChunkCommandError>)
    ensures
        match reply {
            RetrieveReply::Chunk(data) => match r {
                Ok(out) => out@ == (if !raw && data@.len() >= 8 {
                    data@.skip(8)
                } else {
                    data@
                }),
                Err(_) => false,
            },
            RetrieveReply::Error(m) => match r {
                Err(ChunkCommandError::RetrievalFailed(t)) => t@ == m@,
                _ => false,
            },
            RetrieveReply::Nothing => r matches Err(ChunkCommandError::NoRetrieval),
        },
{
    match reply {
        RetrieveReply::Chunk(data) => if raw {
            Ok(data)
        } else {
            Ok(copy_bytes(payload_of(data.as_slice())))
        },
        RetrieveReply::Error(m) => Err(ChunkCommandError::RetrievalFailed(m)),
        RetrieveReply::Nothing => Err(ChunkCommandError::NoRetrieval),
    }
}

/// Where an upload takes its data from.
#[derive(Clone, Debug)]
pub enum Input {
    File(String),
    Stdin,
}

/// Where an upload takes its data from: a file or standard input, exactly one
/// of which is to be named.
pub fn read_input(file: Option<&str>, stdin: bool) -> (r: Result<Input, ChunkCommandError>)
    ensures
        match (file, stdin) {
            (Some(_), true) => r matches Err(ChunkCommandError::TwoInputs),
            (Some(path), false) => match r {
                Ok(Input::File(p)) => p@ == path@,
                _ => false,
            },
            (None, true) => r matches Ok(Input::Stdin),
            (None, false) => r matches Err(ChunkCommandError::NoInput),
        },
{
    match file {
        Some(path) => if stdin {
            Err(ChunkCommandError::TwoInputs)
        } else {
            Ok(Input::File(String::from_str(path)))
        },
        None => if stdin {
            Ok(Input::Stdin)
        } else {
            Err(ChunkCommandError::NoInput)
        },
    }
}

/// The node's receipt for an uploaded chunk.
pub enum ReceiptReply {
    /// The storer's address and its storage radius.
    Receipt { storer: Vec<u8>, storage_radius: u32 },
    /// An error, in words.
    Error(String),
    /// Neither.
    Nothing,
}

/// The lines that report an upload.
pub open spec fn upload_lines(address: Seq<u8>, storer: Seq<u8>, radius: nat) -> Seq<Seq<char>> {
    seq![
        "Uploaded chunk 0x"@ + hex_text(address),
        "Accepted by storer: 0x"@ + hex_text(storer),
        "Storage radius:     "@ + dec(radius),
    ]
}

/// The report on an upload, or why it failed.
pub fn uploaded(address: &Bytes32, reply: ReceiptReply) -> (r: Result<
    Vec<String>,
    ChunkCommandError,
>)
    ensures
        match reply {
            ReceiptReply::Receipt { storer, storage_radius } => match r {
                Ok(lines) => crate::text::lines_of(lines@) == upload_lines(
                    address@,
                    storer@,
                    storage_radius as nat,
                ),
                Err(_) => false,
            },
            ReceiptReply::Error(m) => match r {
                Err(ChunkCommandError::UploadFailed(t)) => t@ == m@,
                _ => false,
            },
            ReceiptReply::Nothing => r matches Err(ChunkCommandError::NoUpload),
        },
{
    match reply {
        ReceiptReply::Receipt { storer, storage_radius } => {
            let mut lines: Vec<String> = Vec::new();
            lines.push(join2("Uploaded chunk 0x", address_hex(address).as_str()));
            lines.push(
                join2(
                    "Accepted by storer: 0x",
                    crate::hexes::encode_hex(storer.as_slice()).as_str(),
                ),
            );
            lines.push(join2("Storage radius:     ", decimal(storage_radius as u64).as_str()));
            assert(crate::text::lines_of(lines@) =~= upload_lines(
                address@,
                storer@,
                storage_radius as nat,
            ));
            Ok(lines)
        },
        ReceiptReply::Error(m) => Err(ChunkCommandError::UploadFailed(m)),
        ReceiptReply::Nothing => Err(ChunkCommandError::NoUpload),
    }
}

/// What each answer to a request for a chunk means, by its bytes: none at all is a
/// chunk that is not there, under the address asked for; a content chunk that hashes
/// to the address is taken as it is; one that hashes elsewhere is named with both
/// addresses; and what is no content chunk is refused.
pub proof fn answers_are_told_apart(address: Seq<u8>, data: Seq<u8>)
    ensures
        data.len() == 0 ==> accepted(address, data, hashed_wire(data)) == Err::<
            Seq<u8>,
            StoreFault,
        >(StoreFault::NotFound(hex_text(address))),
        data.len() > 0 && is_content(data) && bmt_address(data) == address ==> accepted(
            address,
            data,
            hashed_wire(data),
        ) == Ok::<Seq<u8>, StoreFault>(data),
        data.len() > 0 && is_content(data) && bmt_address(data) != address ==> accepted(
            address,
            data,
            hashed_wire(data),
        ) == Err::<Seq<u8>, StoreFault>(
            StoreFault::Mismatch { expected: address, actual: bmt_address(data) },
        ),
        data.len() > 0 && !is_content(data) ==> accepted(address, data, hashed_wire(data)) == Err::<
            Seq<u8>,
            StoreFault,
        >(StoreFault::Malformed(content_fault(data))),
{
}

/// An upload is reported in three lines, which end in the chunk's address, the
/// storer's address and its radius; each tells what it gives.
pub proof fn upload_is_reported_in_full(address: Seq<u8>, storer: Seq<u8>, radius: nat)
    ensures
        upload_lines(address, storer, radius).len() == 3,
        upload_lines(address, storer, radius)[0].skip(17) == hex_text(address),
        upload_lines(address, storer, radius)[0].take(17) == "Uploaded chunk 0x"@,
        upload_lines(address, storer, radius)[1].skip(22) == hex_text(storer),
        upload_lines(address, storer, radius)[1].take(22) == "Accepted by storer: 0x"@,
        upload_lines(address, storer, radius)[2].skip(20) == dec(radius),
        upload_lines(address, storer, radius)[2].take(20) == "Storage radius:     "@,
{
    reveal_strlit("Uploaded chunk 0x");
    reveal_strlit("Accepted by storer: 0x");
    reveal_strlit("Storage radius:     ");
    let lines = upload_lines(address, storer, radius);
    assert(lines[0].skip(17) =~= hex_text(address));
    assert(lines[0].take(17) =~= "Uploaded chunk 0x"@);
    assert(lines[1].skip(22) =~= hex_text(storer));
    assert(lines[1].take(22) =~= "Accepted by storer: 0x"@);
    assert(lines[2].skip(20) =~= dec(radius));
    assert(lines[2].take(20) =~= "Storage radius:     "@);
}

/// A store's error says of which kind it is and ends in what lies behind it. A chunk
/// at the wrong address is shown with the address asked for first.
pub proof fn store_errors_say_why(t: Seq<char>, expected: Seq<u8>, actual: Seq<u8>)
    ensures
        store_message(StoreFault::Transport(t)) == "grpc transport error: "@ + t,
        store_message(StoreFault::Malformed(t)) == "chunk error: "@ + t,
        store_message(StoreFault::Mismatch { expected, actual }) == store_message(
            StoreFault::Malformed(
                "Chunk address verification failed: expected "@ + hex_0x(expected) + ", got "@
                    + hex_0x(actual),
            ),
        ),
        store_message(StoreFault::Stamp(t)) == "stamping error: "@ + t,
        store_message(StoreFault::NotFound(t)) == "chunk not found: "@ + t,
        store_message(StoreFault::StreamReset) == "retrieve stream reset"@,
{
    assert(store_message(StoreFault::Mismatch { expected, actual }) =~= "chunk error: "@ + (
    "Chunk address verification failed: expected "@ + hex_0x(expected) + ", got "@ + hex_0x(
        actual,
    )));
}

/// A failed chunk command that was told a reason ends in it; the others each have
/// words of their own.
pub proof fn chunk_commands_say_why(reason: String)
    ensures
        chunk_command_message(ChunkCommandError::RetrievalFailed(reason))
            == "chunk retrieval failed: "@ + reason@,
        chunk_command_message(ChunkCommandError::UploadFailed(reason)) == "chunk upload failed: "@
            + reason@,
        chunk_command_message(ChunkCommandError::NoRetrieval)
            == "chunk retrieval returned no result"@,
        chunk_command_message(ChunkCommandError::NoUpload) == "chunk upload returned no result"@,
        chunk_command_message(ChunkCommandError::TwoInputs)
            == "pass either a file or --stdin, not both"@,
        chunk_command_message(ChunkCommandError::NoInput)
            == "no input: pass a file path or --stdin"@,
{
}

/// What was prepared and uploaded can be downloaded: the node's answer with a prepared
/// chunk's body is taken as that chunk, its payload is the data that it was made from,
/// and asked for raw it is the body.
pub proof fn uploaded_data_is_downloaded(
    data: Vec<u8>,
    batch: &Bytes32,
    depth: u8,
    bucket_depth: u8,
    key: &SigningKey,
    p: crate::chunkops::PreparedChunk,
    body: Vec<u8>,
    taken: Result<Chunk, StoreError>,
    plain: Result<Vec<u8>, ChunkCommandError>,
    raw: Result<Vec<u8>, ChunkCommandError>,
)
    requires
        call_ensures(
            crate::chunkops::prepare_content_chunk,
            (data, batch, depth, bucket_depth, key),
            Ok(p),
        ),
        body@ == p.body@,
        call_ensures(get, (&p.address, RetrieveReply::Chunk(body)), taken),
        call_ensures(downloaded, (RetrieveReply::Chunk(body), false), plain),
        call_ensures(downloaded, (RetrieveReply::Chunk(body), true), raw),
    ensures
        taken matches Ok(c) && c.address@ == p.address@ && c.wire@ == p.body@,
        plain matches Ok(out) && out@ == data@,
        raw matches Ok(out) && out@ == p.body@,
{
    prepared_chunk_is_accepted(data@);
}

/// What the node's answers mean: an error is passed on with its words, an empty answer
/// has words of its own, and bytes too short for a span are written as they came.
pub proof fn answers_are_passed_on(
    address: &Bytes32,
    message: String,
    body: Vec<u8>,
    error: Result<Chunk, StoreError>,
    nothing: Result<Chunk, StoreError>,
    failed: Result<Vec<u8>, ChunkCommandError>,
    empty: Result<Vec<u8>, ChunkCommandError>,
    short: Result<Vec<u8>, ChunkCommandError>,
    raw: bool,
)
    requires
        call_ensures(get, (address, RetrieveReply::Error(message)), error),
        call_ensures(get, (address, RetrieveReply::Nothing), nothing),
        call_ensures(downloaded, (RetrieveReply::Error(message), raw), failed),
        call_ensures(downloaded, (RetrieveReply::Nothing, raw), empty),
        body@.len() < 8,
        call_ensures(downloaded, (RetrieveReply::Chunk(body), raw), short),
    ensures
        error matches Err(e) && e@ == StoreFault::NotFound(message@),
        nothing matches Err(e) && e@ == StoreFault::NotFound(hex_text(address@)),
        failed matches Err(ChunkCommandError::RetrievalFailed(t)) && t@ == message@,
        empty matches Err(ChunkCommandError::NoRetrieval),
        short matches Ok(out) && out@ == body@,
{
}

/// Bytes are decided on by their hash: none at all are a chunk that is not there; bytes
/// with the right hash are the chunk; a wrong hash is named, and so is what is wrong
/// with bytes that have none.
pub proof fn hashes_decide(
    address: &Bytes32,
    data: Vec<u8>,
    hashed: Result<Bytes32, String>,
    r: Result<Chunk, StoreError>,
)
    requires
        call_ensures(accept_hashed, (address, data, hashed), r),
    ensures
        r is Ok <==> data@.len() > 0 && (hashed matches Ok(h) && h@ == address@),
        r matches Ok(c) ==> c.address@ == address@ && c.wire@ == data@,
        data@.len() == 0 ==> (r matches Err(e) && e@ == StoreFault::NotFound(hex_text(address@))),
        data@.len() > 0 ==> (hashed matches Ok(h) ==> h@ != address@ ==> (r matches Err(e) && e@
            == (StoreFault::Mismatch { expected: address@, actual: h@ }))),
        data@.len() > 0 ==> (hashed matches Err(t) ==> r matches Err(e) && e@
            == StoreFault::Malformed(t@)),
{
}

/// An upload sends the chunk with its stamp: its bytes, its address, as a content chunk,
/// to be validated or not as was asked. A chunk that could not be stamped is not sent.
pub proof fn upload_sends_the_chunk(
    chunk: &Chunk,
    stamped: Result<Vec<u8>, StampFault>,
    validate: bool,
    r: Result<UploadRequest, StoreError>,
)
    requires
        call_ensures(stamped_request, (chunk, stamped, validate), r),
    ensures
        r is Ok <==> stamped is Ok,
        r matches Ok(q) ==> {
            &&& q.data@ == chunk.wire@
            &&& q.address@ == chunk.address@
            &&& stamped matches Ok(s)
            &&& q.stamp@ == s@
            &&& q.kind is Content
            &&& q.validate == validate
        },
        r matches Err(e) ==> e is Stamp,
{
}

/// Storing a chunk gives out one slot, the next of its bucket, and sends the chunk with
/// the stamp that names it; where the bucket is full nothing is given out or sent.
pub proof fn storing_takes_one_slot(
    s: &mut Stamper,
    chunk: &Chunk,
    validate: bool,
    r: Result<UploadRequest, StoreError>,
    other: int,
)
    requires
        old(s).wf(),
        can_stamp(stamp_geometry(*old(s)).0, stamp_geometry(*old(s)).1),
        call_ensures(put_request, (s, chunk, validate), r),
        0 <= other < stamp_counts(*old(s)).len(),
    ensures
        ({
            let (depth, bucket_depth) = stamp_geometry(*old(s));
            let before = stamp_counts(*old(s));
            let after = stamp_counts(*final(s));
            let bucket = bucket_of(chunk.address@, bucket_depth as nat) as int;
            &&& other != bucket ==> after[other] == before[other]
            &&& before[bucket] as nat == vstd::arithmetic::power2::pow2(
                (depth - bucket_depth) as nat,
            ) ==> r is Err && after == before
            &&& r matches Ok(q) ==> {
                &&& after[bucket] == before[bucket] + 1
                &&& q.data@ == chunk.wire@
                &&& q.address@ == chunk.address@
                &&& q.kind is Content
                &&& q.validate == validate
                &&& q.stamp@.len() == 113
                &&& q.stamp@.take(32) == stamp_batch(*old(s))
                &&& q.stamp@.subrange(36, 40) == crate::bytes::be_bytes(before[bucket] as nat, 4)
                &&& q.stamp@.subrange(32, 36) == crate::bytes::be_bytes(bucket as nat, 4)
            }
        }),
{
    let (depth, bucket_depth) = stamp_geometry(*old(s));
    vstd::arithmetic::power2::lemma2_to64();
    let n = (depth - bucket_depth) as nat;
    if n < 31 {
        vstd::arithmetic::power2::lemma_pow2_strictly_increases(n, 31);
    }
}

/// What the node's answer to an upload means, and to the question whether it has a
/// chunk: only a receipt is success, and only a plain yes is yes.
pub proof fn only_a_receipt_is_success(
    reply: UploadReply,
    r: Result<(), StoreError>,
    answer: Option<bool>,
    there: bool,
)
    requires
        call_ensures(put_outcome, (reply,), r),
        call_ensures(has, (answer,), there),
    ensures
        r is Ok <==> reply is Receipt,
        reply matches UploadReply::Error(m) ==> r matches Err(e) && e@ == StoreFault::Stamp(m@),
        reply is Nothing ==> (r matches Err(e) && e@ == StoreFault::Stamp(
            "upload returned no result"@,
        )),
        there <==> answer == Some(true),
{
}

/// An upload reads exactly one input: the named file, or standard input; both or none of
/// them is an error.
pub proof fn one_input_is_read(file: Option<&str>, stdin: bool, r: Result<Input, ChunkCommandError>)
    requires
        call_ensures(read_input, (file, stdin), r),
    ensures
        r is Ok <==> (file is Some) != stdin,
        r matches Ok(Input::File(p)) ==> file matches Some(path) && p@ == path@,
        r matches Ok(Input::Stdin) ==> stdin,
        file is Some && stdin ==> r matches Err(ChunkCommandError::TwoInputs),
        file is None && !stdin ==> r matches Err(ChunkCommandError::NoInput),
{
}

/// A receipt is reported with the chunk's address, the storer and its radius; an error
/// is passed on with its words.
pub proof fn receipts_are_reported(
    address: &Bytes32,
    reply: ReceiptReply,
    r: Result<Vec<String>, ChunkCommandError>,
)
    requires
        call_ensures(uploaded, (address, reply), r),
    ensures
        r is Ok <==> reply is Receipt,
        reply matches ReceiptReply::Receipt { storer, storage_radius } ==> r matches Ok(lines)
            && lines@.len() == 3 && lines@[0]@.skip(17) == hex_text(address@)
            && lines@[1]@.skip(22) == hex_text(storer@) && lines@[2]@.skip(20) == dec(
            storage_radius as nat,
        ),
        reply matches ReceiptReply::Error(m) ==> r matches Err(ChunkCommandError::UploadFailed(t))
            && t@ == m@,
        reply is Nothing ==> r matches Err(ChunkCommandError::NoUpload),
{
    if let ReceiptReply::Receipt { storer, storage_radius } = reply {
        upload_is_reported_in_full(address@, storer@, storage_radius as nat);
        let lines = r->Ok_0@;
        let shown = crate::text::lines_of(lines);
        assert(shown.len() == lines.len());
        assert(shown[0] == lines[0]@ && shown[1] == lines[1]@ && shown[2] == lines[2]@);
    }
}

/// Errors are seen as they are, and shown with their words.
pub proof fn store_errors_are_shown(
    e: StoreError,
    shown: String,
    c: ChunkCommandError,
    words: String,
)
    requires
        call_ensures(StoreError::message, (&e,), shown),
        call_ensures(ChunkCommandError::message, (&c,), words),
    ensures
        shown@ == store_message(e@),
        words@ == chunk_command_message(c),
        e matches StoreError::Transport(t) ==> e@ == StoreFault::Transport(t@),
        e matches StoreError::Malformed(t) ==> e@ == StoreFault::Malformed(t@),
        e matches StoreError::Mismatch { expected, actual } ==> e@ == (StoreFault::Mismatch {
            expected: expected@,
            actual: actual@,
        }),
        e matches StoreError::Stamp(t) ==> e@ == StoreFault::Stamp(t@),
        e matches StoreError::NotFound(t) ==> e@ == StoreFault::NotFound(t@),
        e is StreamReset ==> e@ == StoreFault::StreamReset,
{
}

} // verus!
